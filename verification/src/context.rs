//! Human-readable descriptions of the operation in which a failure occurred.
//!
//! Every pipeline error carries the rendered context of the originating
//! operation, so failures are diagnosable without a debugger.

use vstd::prelude::*;
use crate::strutil::{dec_digits, usize_to_string};

verus! {

/// A description of the operation a failure belongs to.
pub trait Context {
    /// The rendered description, as a character sequence.
    spec fn spec_message(&self) -> Seq<char>;

    /// Renders the description.
    fn message(&self) -> (r: String)
        ensures
            r@ == self.spec_message(),
    ;
}

/// The context of fetching one page of net values for one fund.
#[derive(Debug, Clone, PartialEq, Eq)]
pub struct FetchValueContext {
    pub id: String,
    pub page: usize,
}

/// The text of a [`FetchValueContext`] message.
pub open spec fn fetch_value_context_message(id: Seq<char>, page: nat) -> Seq<char> {
    "command: fetch fund value. fund-id: "@ + id + ", page-number: "@ + dec_digits(page)
}

impl Context for FetchValueContext {
    open spec fn spec_message(&self) -> Seq<char> {
        fetch_value_context_message(self.id@, self.page as nat)
    }

    fn message(&self) -> (r: String) {
        let mut r = String::from_str("command: fetch fund value. fund-id: ");
        r.append(self.id.as_str());
        r.append(", page-number: ");
        let page_text = usize_to_string(self.page);
        r.append(page_text.as_str());
        proof {
            reveal_strlit("command: fetch fund value. fund-id: ");
            reveal_strlit(", page-number: ");
            assert(r@ =~= self.spec_message());
        }
        r
    }
}

/// The context of fetching the fund list.
#[derive(Debug, Clone, PartialEq, Eq)]
pub struct FetchListContext {}

impl Context for FetchListContext {
    open spec fn spec_message(&self) -> Seq<char> {
        "command: fetch fund list."@
    }

    fn message(&self) -> (r: String) {
        String::from_str("command: fetch fund list.")
    }
}

/// A placeholder context for callers that have none.
#[derive(Debug, Clone, PartialEq, Eq)]
pub struct DummyContext;

impl Context for DummyContext {
    open spec fn spec_message(&self) -> Seq<char> {
        "dummy context"@
    }

    fn message(&self) -> (r: String) {
        String::from_str("dummy context")
    }
}

} // verus!
