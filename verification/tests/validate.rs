use osb::FieldValue;
use osb::RequestField;
use osb::RequestParseError;
use osb::RequestProperty;
use osb::SetError;
use osb::ValidateSieveScriptRequest;
use osb::ValidateSieveScriptResponse;

fn field(name: &str, value: FieldValue) -> RequestField {
    RequestField { name: name.to_string(), value }
}

fn text(value: &str) -> FieldValue {
    FieldValue::Str(value.to_string())
}

#[test]
fn parse_both_fields() {
    let fields = vec![field("accountId", text("a42")), field("blobId", text("b7"))];
    let req = ValidateSieveScriptRequest::parse(&fields).unwrap();
    assert_eq!(req.account_id.value, "a42");
    assert_eq!(req.blob_id.value, "b7");
}

#[test]
fn parse_ignores_unknown_fields() {
    let fields = vec![
        field("comment", text("ignore me")),
        field("accountId", text("a1")),
        field("laterExtension", FieldValue::Other),
        field("blobId", text("b1")),
    ];
    let req = ValidateSieveScriptRequest::parse(&fields).unwrap();
    assert_eq!(req.account_id.value, "a1");
    assert_eq!(req.blob_id.value, "b1");
}

#[test]
fn parse_last_occurrence_wins() {
    let fields = vec![
        field("accountId", text("first")),
        field("blobId", text("b")),
        field("accountId", text("second")),
    ];
    let req = ValidateSieveScriptRequest::parse(&fields).unwrap();
    assert_eq!(req.account_id.value, "second");
}

#[test]
fn parse_missing_account_id() {
    let fields = vec![field("blobId", text("b"))];
    let err = ValidateSieveScriptRequest::parse(&fields).unwrap_err();
    assert_eq!(
        err,
        RequestParseError::MissingField { field: "accountId".to_string() },
    );
}

#[test]
fn parse_missing_blob_id() {
    let fields = vec![field("accountId", text("a"))];
    let err = ValidateSieveScriptRequest::parse(&fields).unwrap_err();
    assert_eq!(
        err,
        RequestParseError::MissingField { field: "blobId".to_string() },
    );
}

#[test]
fn parse_wrong_shape_fails_naming_the_field() {
    let fields = vec![
        field("accountId", FieldValue::Other),
        field("blobId", text("b")),
    ];
    let err = ValidateSieveScriptRequest::parse(&fields).unwrap_err();
    assert_eq!(
        err,
        RequestParseError::InvalidValue { field: "accountId".to_string() },
    );

    let fields = vec![
        field("accountId", text("a")),
        field("blobId", FieldValue::Other),
    ];
    let err = ValidateSieveScriptRequest::parse(&fields).unwrap_err();
    assert_eq!(
        err,
        RequestParseError::InvalidValue { field: "blobId".to_string() },
    );
}

#[test]
fn parse_empty_body_reports_account_first() {
    let fields = vec![];
    let err = ValidateSieveScriptRequest::parse(&fields).unwrap_err();
    assert_eq!(
        err,
        RequestParseError::MissingField { field: "accountId".to_string() },
    );
}

#[test]
fn property_resolution() {
    assert_eq!(
        RequestProperty::of(&"accountId".to_string()),
        RequestProperty::AccountId,
    );
    assert_eq!(
        RequestProperty::of(&"blobId".to_string()),
        RequestProperty::BlobId,
    );
    assert_eq!(
        RequestProperty::of(&"accountid".to_string()),
        RequestProperty::Unknown,
    );
}

#[test]
fn response_echoes_account() {
    let fields = vec![field("accountId", text("acc")), field("blobId", text("blob"))];
    let req = ValidateSieveScriptRequest::parse(&fields).unwrap();
    let resp = ValidateSieveScriptResponse {
        account_id: req.account_id.clone(),
        error: Some(SetError { description: "script did not compile".to_string() }),
    };
    assert_eq!(resp.account_id.value, "acc");
    assert!(resp.error.is_some());

    let ok = ValidateSieveScriptResponse { account_id: req.account_id, error: None };
    assert!(ok.error.is_none());
}
