//! Sliding-window Orthogonal Sparse Bigram (OSB) feature generation for a
//! mail-platform content classifier, together with the wire-level request
//! and response records of the script-validation method that sits in front
//! of it.
//!
//! The tokenizer turns a pull-based stream of word tokens into `(feature,
//! offset)` pairs: every anchor token is paired with each of the following
//! tokens inside a bounded window, and a caller-supplied constructor maps
//! each raw gram to the caller's feature representation.

pub mod gram;
pub mod model;
pub mod source;
pub mod tokenizer;
pub mod validate;

pub use gram::FromGram;
pub use gram::Gram;
pub use gram::GramView;
pub use gram::OsbToken;
pub use source::TokenSource;
pub use source::VecTokenSource;
pub use tokenizer::OsbTokenizer;
pub use validate::BlobId;
pub use validate::FieldValue;
pub use validate::Id;
pub use validate::RequestField;
pub use validate::RequestParseError;
pub use validate::RequestProperty;
pub use validate::SetError;
pub use validate::ValidateSieveScriptRequest;
pub use validate::ValidateSieveScriptResponse;
