//! The script-validation method's wire records.
//!
//! A validation request names an account and a content blob; the response
//! echoes the account and carries an optional structured error, `None`
//! meaning the referenced content validated cleanly.
//!
//! The request body arrives as a dictionary of named fields. Decoding
//! resolves each field name to an enumerated property once and then
//! dispatches on cheap equality: unknown fields are silently ignored for
//! forward compatibility, while a missing or wrongly shaped required field
//! is a hard failure that names the offending field.

use vstd::prelude::*;
use vstd::string::StringExecFns;

verus! {

/// An opaque account identifier.
#[derive(Debug, Clone, PartialEq, Eq)]
pub struct Id {
    pub value: String,
}

/// An opaque content-blob identifier.
#[derive(Debug, Clone, PartialEq, Eq)]
pub struct BlobId {
    pub value: String,
}

/// A structured validation error, describing why the referenced content
/// failed validation (for example, a script compilation failure).
#[derive(Debug, Clone, PartialEq, Eq)]
pub struct SetError {
    pub description: String,
}

/// The decoded script-validation request: both fields are required.
#[derive(Debug, Clone)]
pub struct ValidateSieveScriptRequest {
    pub account_id: Id,
    pub blob_id: BlobId,
}

/// The script-validation response: the account identifier echoed back,
/// and the validation error if there was one. `None` signifies success.
#[derive(Debug, Clone)]
pub struct ValidateSieveScriptResponse {
    pub account_id: Id,
    pub error: Option<SetError>,
}

/// The value of one request field, as far as this method cares: a text
/// value, or a value of some other shape.
#[derive(Debug, Clone, PartialEq, Eq)]
pub enum FieldValue {
    Str(String),
    Other,
}

/// The shape of a field value at the specification level.
pub enum FieldValueView {
    Str(Seq<char>),
    Other,
}

impl View for FieldValue {
    type V = FieldValueView;

    open spec fn view(&self) -> FieldValueView {
        match self {
            FieldValue::Str(s) => FieldValueView::Str(s@),
            FieldValue::Other => FieldValueView::Other,
        }
    }
}

/// One named field of the request dictionary, in body order.
#[derive(Debug, Clone, PartialEq, Eq)]
pub struct RequestField {
    pub name: String,
    pub value: FieldValue,
}

/// One named field at the specification level.
pub struct RequestFieldView {
    pub name: Seq<char>,
    pub value: FieldValueView,
}

impl View for RequestField {
    type V = RequestFieldView;

    open spec fn view(&self) -> RequestFieldView {
        RequestFieldView { name: self.name@, value: self.value@ }
    }
}

impl DeepView for RequestField {
    type V = RequestFieldView;

    open spec fn deep_view(&self) -> RequestFieldView {
        self.view()
    }
}

/// A request property, resolved from a field name once and then matched by
/// cheap equality.
#[derive(Debug, Clone, Copy, PartialEq, Eq)]
pub enum RequestProperty {
    AccountId,
    BlobId,
    Unknown,
}

/// Why a request failed to decode: a required field was absent, or present
/// with a value of the wrong shape. Either way the field is named.
#[derive(Debug, Clone, PartialEq, Eq)]
pub enum RequestParseError {
    MissingField { field: String },
    InvalidValue { field: String },
}

/// A decoding failure at the specification level.
pub enum ParseErrorView {
    MissingField { field: Seq<char> },
    InvalidValue { field: Seq<char> },
}

impl View for RequestParseError {
    type V = ParseErrorView;

    open spec fn view(&self) -> ParseErrorView {
        match self {
            RequestParseError::MissingField { field } => ParseErrorView::MissingField { field: field@ },
            RequestParseError::InvalidValue { field } => ParseErrorView::InvalidValue { field: field@ },
        }
    }
}

/// Which property a field name denotes.
pub open spec fn spec_request_property(name: Seq<char>) -> RequestProperty {
    if name == "accountId"@ {
        RequestProperty::AccountId
    } else if name == "blobId"@ {
        RequestProperty::BlobId
    } else {
        RequestProperty::Unknown
    }
}

/// The text cached for a required field so far.
pub open spec fn field_state(o: Option<String>) -> Option<Seq<char>> {
    match o {
        Option::None => Option::None,
        Option::Some(s) => Option::Some(s@),
    }
}

/// What decoding yields from the remaining `fields`, given the required
/// values seen so far: fields are taken in order, a later occurrence of a
/// required field overriding an earlier one; an ill-shaped required field
/// fails at once; at the end, a still-missing required field fails, the
/// account field being checked first.
pub open spec fn spec_parse(
    fields: Seq<RequestFieldView>,
    acc: Option<Seq<char>>,
    blob: Option<Seq<char>>,
) -> Result<(Seq<char>, Seq<char>), ParseErrorView>
    decreases fields.len(),
{
    if fields.len() == 0 {
        if acc is None {
            Err(ParseErrorView::MissingField { field: "accountId"@ })
        } else if blob is None {
            Err(ParseErrorView::MissingField { field: "blobId"@ })
        } else {
            Ok((acc->0, blob->0))
        }
    } else {
        let f = fields[0];
        match spec_request_property(f.name) {
            RequestProperty::AccountId => match f.value {
                FieldValueView::Str(s) => spec_parse(fields.drop_first(), Option::Some(s), blob),
                FieldValueView::Other => Err(ParseErrorView::InvalidValue { field: "accountId"@ }),
            },
            RequestProperty::BlobId => match f.value {
                FieldValueView::Str(s) => spec_parse(fields.drop_first(), acc, Option::Some(s)),
                FieldValueView::Other => Err(ParseErrorView::InvalidValue { field: "blobId"@ }),
            },
            RequestProperty::Unknown => spec_parse(fields.drop_first(), acc, blob),
        }
    }
}

impl RequestProperty {
    /// Resolve a field name to its property; every unrecognised name is
    /// `Unknown`.
    pub fn of(name: &String) -> (r: RequestProperty)
        ensures
            r == spec_request_property(name@),
    {
        let account_key = String::from_str("accountId");
        let blob_key = String::from_str("blobId");
        if *name == account_key {
            RequestProperty::AccountId
        } else if *name == blob_key {
            RequestProperty::BlobId
        } else {
            RequestProperty::Unknown
        }
    }
}

impl ValidateSieveScriptRequest {
    /// Decode a validation request from its dictionary of fields.
    ///
    /// Unknown fields are ignored; a required field whose value is not
    /// text fails at once, and a required field that never occurs fails
    /// after the walk — in both cases naming the field.
    pub fn parse(fields: &Vec<RequestField>) -> (r: Result<ValidateSieveScriptRequest, RequestParseError>)
        ensures
            ({
                let outcome = spec_parse(
                    fields.deep_view(),
                    Option::<Seq<char>>::None,
                    Option::<Seq<char>>::None,
                );
                match r {
                    Ok(req) => outcome == Ok::<_, ParseErrorView>((
                        req.account_id.value@,
                        req.blob_id.value@,
                    )),
                    Err(e) => outcome == Err::<(Seq<char>, Seq<char>), _>(e@),
                }
            }),
    {
        let ghost all = fields.deep_view();
        let mut acc: Option<String> = None;
        let mut blob: Option<String> = None;
        let mut i: usize = 0;
        let n = fields.len();
        proof {
            assert(all.skip(0) =~= all);
        }
        while i < n
            invariant
                n == fields.len(),
                i <= n,
                all == fields.deep_view(),
                spec_parse(all, Option::<Seq<char>>::None, Option::<Seq<char>>::None)
                    == spec_parse(all.skip(i as int), field_state(acc), field_state(blob)),
            decreases n - i,
        {
            let f = &fields[i];
            proof {
                assert(all.skip(i as int).drop_first() =~= all.skip(i as int + 1));
                assert(all.skip(i as int)[0] == f.deep_view());
            }
            match RequestProperty::of(&f.name) {
                RequestProperty::AccountId => {
                    match &f.value {
                        FieldValue::Str(s) => {
                            acc = Some(s.clone());
                        },
                        FieldValue::Other => {
                            return Err(RequestParseError::InvalidValue {
                                field: String::from_str("accountId"),
                            });
                        },
                    }
                },
                RequestProperty::BlobId => {
                    match &f.value {
                        FieldValue::Str(s) => {
                            blob = Some(s.clone());
                        },
                        FieldValue::Other => {
                            return Err(RequestParseError::InvalidValue {
                                field: String::from_str("blobId"),
                            });
                        },
                    }
                },
                RequestProperty::Unknown => {},
            }
            i = i + 1;
        }
        proof {
            assert(all.skip(n as int) =~= Seq::<RequestFieldView>::empty());
        }
        match acc {
            None => Err(RequestParseError::MissingField { field: String::from_str("accountId") }),
            Some(a) => match blob {
                None => Err(RequestParseError::MissingField { field: String::from_str("blobId") }),
                Some(b) => Ok(ValidateSieveScriptRequest {
                    account_id: Id { value: a },
                    blob_id: BlobId { value: b },
                }),
            },
        }
    }
}

} // verus!
