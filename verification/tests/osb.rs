use osb::FromGram;
use osb::Gram;
use osb::OsbToken;
use osb::OsbTokenizer;
use osb::VecTokenSource;

fn words(text: &str) -> Vec<String> {
    text.split_ascii_whitespace().map(String::from).collect()
}

fn scanner(text: &str, window: usize) -> OsbTokenizer<VecTokenSource, String> {
    OsbTokenizer::new(VecTokenSource::new(words(text)), window)
}

fn collect_all(text: &str, window: usize) -> Vec<OsbToken<String>> {
    let mut tok = scanner(text, window);
    let mut out = Vec::new();
    while let Some(t) = tok.next() {
        out.push(t);
    }
    out
}

fn expected_tokens(pairs: Vec<(&str, usize)>) -> Vec<OsbToken<String>> {
    pairs
        .into_iter()
        .map(|(s, i)| OsbToken { inner: s.to_string(), idx: i })
        .collect()
}

#[test]
fn osb_tokenizer() {
    assert_eq!(
        collect_all(
            "The quick brown fox jumps over the lazy dog and the lazy cat",
            5,
        ),
        expected_tokens(vec![
            ("The", 0),
            ("The quick", 1),
            ("The brown", 2),
            ("The fox", 3),
            ("The jumps", 4),
            ("quick", 0),
            ("quick brown", 1),
            ("quick fox", 2),
            ("quick jumps", 3),
            ("quick over", 4),
            ("brown", 0),
            ("brown fox", 1),
            ("brown jumps", 2),
            ("brown over", 3),
            ("brown the", 4),
            ("fox", 0),
            ("fox jumps", 1),
            ("fox over", 2),
            ("fox the", 3),
            ("fox lazy", 4),
            ("jumps", 0),
            ("jumps over", 1),
            ("jumps the", 2),
            ("jumps lazy", 3),
            ("jumps dog", 4),
            ("over", 0),
            ("over the", 1),
            ("over lazy", 2),
            ("over dog", 3),
            ("over and", 4),
            ("the", 0),
            ("the lazy", 1),
            ("the dog", 2),
            ("the and", 3),
            ("the the", 4),
            ("lazy", 0),
            ("lazy dog", 1),
            ("lazy and", 2),
            ("lazy the", 3),
            ("lazy lazy", 4),
            ("dog", 0),
            ("dog and", 1),
            ("dog the", 2),
            ("dog lazy", 3),
            ("dog cat", 4),
            ("and", 0),
            ("and the", 1),
            ("and lazy", 2),
            ("and cat", 3),
            ("the", 0),
            ("the lazy", 1),
            ("the cat", 2),
            ("lazy", 0),
            ("lazy cat", 1),
            ("cat", 0),
        ]),
    );
}

#[test]
fn count_law_example() {
    // N = 13 tokens, W = 5: the count law's sum of min(W, N - i) gives 55.
    let out = collect_all(
        "The quick brown fox jumps over the lazy dog and the lazy cat",
        5,
    );
    assert_eq!(out.len(), 55);
}

#[test]
fn degenerate_window() {
    // W = 1: exactly one gram per token, all unigrams at offset 0.
    let out = collect_all("alpha beta gamma delta", 1);
    assert_eq!(
        out,
        expected_tokens(vec![("alpha", 0), ("beta", 0), ("gamma", 0), ("delta", 0)]),
    );
}

#[test]
fn termination_is_idempotent() {
    let mut tok = scanner("one two", 3);
    while tok.next().is_some() {}
    assert!(tok.next().is_none());
    assert!(tok.next().is_none());
    assert!(tok.next().is_none());
}

#[test]
fn empty_input_yields_nothing() {
    let mut tok = scanner("", 4);
    assert!(tok.next().is_none());
    assert!(tok.next().is_none());
}

#[test]
fn single_token_wide_window() {
    let out = collect_all("lonely", 5);
    assert_eq!(out, expected_tokens(vec![("lonely", 0)]));
}

#[test]
fn uni_first_and_strict_offset_order() {
    let out = collect_all("a b c d e f g", 3);
    // Offsets restart at 0 on every new anchor and rise by exactly one
    // inside an anchor: anchors never interleave.
    assert_eq!(out[0].idx, 0);
    let mut prev = 0usize;
    for t in out.iter().skip(1) {
        if t.idx == 0 {
            // a new anchor begins: its first gram is the unigram
            assert!(!t.inner.contains(' '));
        } else {
            assert_eq!(t.idx, prev + 1);
            assert!(t.inner.contains(' '));
        }
        prev = t.idx;
    }
}

#[test]
fn tail_shrink_emits_fewer_not_zero() {
    let out = collect_all("v w x", 5);
    assert_eq!(
        out,
        expected_tokens(vec![
            ("v", 0),
            ("v w", 1),
            ("v x", 2),
            ("w", 0),
            ("w x", 1),
            ("x", 0),
        ]),
    );
}

#[test]
fn bounded_memory_observed() {
    let mut tok = scanner("a b c d e f g h i j", 4);
    loop {
        let live = tok.buf.iter().filter(|s| s.is_some()).count();
        assert!(live <= 4);
        if tok.next().is_none() {
            break;
        }
    }
}

#[test]
fn from_gram_joins_with_space() {
    let uni: String = FromGram::from_gram(Gram::Uni { t1: "head".to_string() });
    assert_eq!(uni, "head");
    let bi: String = FromGram::from_gram(Gram::Bi {
        t1: "head".to_string(),
        t2: "tail".to_string(),
    });
    assert_eq!(bi, "head tail");
}
