//! Error taxonomy of the ingestion pipeline.
//!
//! Every failure of the pipeline is one of three kinds: the expected leading
//! marker is absent (`PrefixMismatch`), the text is not valid JSON or the
//! HTML table is degenerate (`MalformedPayload`), or a specific field has the
//! wrong shape (`FieldTypeMismatch`). All three abort the unit of work in
//! which they occur and carry a human-readable context.

use vstd::prelude::*;
use crate::strutil::push_char;

verus! {

/// A failure of the scraped-response ingestion pipeline.
#[derive(Debug, Clone, PartialEq, Eq)]
pub enum Error {
    /// The expected leading marker is absent from the raw response.
    PrefixMismatch { expected_prefix: String, context: String },
    /// The text after unwrapping is not valid JSON, or a table is degenerate.
    MalformedPayload { context: String },
    /// A specific field has the wrong shape.
    FieldTypeMismatch {
        field: String,
        expected_type: String,
        actual: String,
        context: String,
    },
}

impl Error {
    /// True exactly of the prefix-mismatch kind.
    pub fn is_prefix_error(&self) -> (r: bool)
        ensures
            r == (self is PrefixMismatch),
    {
        match self {
            Error::PrefixMismatch { .. } => true,
            _ => false,
        }
    }

    /// True exactly of the malformed-payload kind.
    pub fn is_json_error(&self) -> (r: bool)
        ensures
            r == (self is MalformedPayload),
    {
        match self {
            Error::MalformedPayload { .. } => true,
            _ => false,
        }
    }

    /// True exactly of the field-type-mismatch kind.
    pub fn is_type_error(&self) -> (r: bool)
        ensures
            r == (self is FieldTypeMismatch),
    {
        match self {
            Error::FieldTypeMismatch { .. } => true,
            _ => false,
        }
    }
}

/// A value failed to parse as the expected primitive type.
#[derive(Debug, Clone, PartialEq, Eq)]
pub struct TypeMismatchError {
    pub expected_type: String,
    pub got: String,
}

/// The text of a [`TypeMismatchError`], as a sequence of characters.
pub open spec fn type_mismatch_message(expected_type: Seq<char>, got: Seq<char>) -> Seq<char> {
    "Expect type '"@ + expected_type + "' but got '"@ + got + "'."@
}

impl TypeMismatchError {
    /// Renders the error as `Expect type '<expected>' but got '<got>'.`
    pub fn message(&self) -> (r: String)
        ensures
            r@ == type_mismatch_message(self.expected_type@, self.got@),
    {
        let mut r = String::from_str("Expect type '");
        r.append(self.expected_type.as_str());
        r.append("' but got '");
        r.append(self.got.as_str());
        push_char(&mut r, '\'');
        push_char(&mut r, '.');
        proof {
            reveal_strlit("Expect type '");
            reveal_strlit("' but got '");
            reveal_strlit("'.");
            assert(r@ =~= type_mismatch_message(self.expected_type@, self.got@));
        }
        r
    }
}

} // verus!
