//! The one failure of the grammar: a rule did not match.

use crate::common::IResult;
use vstd::prelude::*;

verus! {

/// A rule of the grammar did not match. The text says what was expected and,
/// where a token stood there, which one and what it spelled.
#[derive(Debug)]
pub struct PError(pub String);

impl View for PError {
    type V = Seq<char>;

    open spec fn view(&self) -> Seq<char> {
        self.0@
    }
}

impl PError {
    /// The failure of a rule, with `msg` as its text.
    pub fn from<'a, O>(msg: &str) -> (r: IResult<'a, O>)
        ensures
            r matches Err(e) && e@ == msg@,
    {
        Err(PError(msg.to_owned()))
    }
}

} // verus!
