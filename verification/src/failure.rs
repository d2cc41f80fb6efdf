//! Errors that say what failed and why.

use crate::text::{concat2, concat3};
use vstd::prelude::*;

verus! {

/// What could not be done, and the cause of it.
#[derive(Debug, Clone)]
pub struct Failure {
    pub context: String,
    pub cause: String,
}

pub struct Fault {
    pub context: Seq<char>,
    pub cause: Seq<char>,
}

impl View for Failure {
    type V = Fault;

    open spec fn view(&self) -> Fault {
        Fault { context: self.context@, cause: self.cause@ }
    }
}

/// What failed, then why.
pub open spec fn full_text(f: Fault) -> Seq<char> {
    f.context + ": "@ + f.cause
}

impl Failure {
    /// A failure of an operation on a path.
    pub fn on(operation: &str, path: &str, cause: String) -> (r: Self)
        ensures
            r@ == (Fault { context: operation@ + path@, cause: cause@ }),
    {
        Failure { context: concat2(operation, path), cause }
    }

    /// What failed and why, on one line.
    pub fn full(&self) -> (r: String)
        ensures
            r@ == full_text(self@),
    {
        concat3(self.context.as_str(), ": ", self.cause.as_str())
    }
}

/// What came of reading a file that need not be there.
pub open spec fn file_read(r: Result<Option<String>, String>) -> Result<
    Option<Seq<char>>,
    Seq<char>,
> {
    match r {
        Ok(Some(s)) => Ok(Some(s@)),
        Ok(None) => Ok(None),
        Err(e) => Err(e@),
    }
}

/// A failure tells the operation, the path and the cause.
pub proof fn failures_tell_all(
    operation: &str,
    path: &str,
    cause: String,
    r: Failure,
    line: String,
)
    requires
        call_ensures(Failure::on, (operation, path, cause), r),
        call_ensures(Failure::full, (&r,), line),
    ensures
        r.context@ == operation@ + path@,
        r.cause@ == cause@,
        line@ == operation@ + path@ + ": "@ + cause@,
{
}

} // verus!
