use vstd::prelude::*;
use vstd::string::StringExecFns;

verus! {

/// What went wrong.
#[derive(Clone, Copy, Debug, PartialEq, Eq, Structural)]
pub enum ErrorKind {
    /// The remote data source could not be reached.
    DataSourceUnavailable,
    /// A response was not the structured data expected.
    DataSourceMalformed,
    /// A catalog record names an architecture that the convention table lacks.
    ConventionNotFound,
    /// A syscall number does not read as an unsigned 16-bit value.
    NumberFormat,
    /// An argument slot outside 0 to 5 was asked for.
    ArgumentSlotNotFound,
}

/// An error of the lookup, with a line of detail for the user.
#[derive(Debug)]
pub struct RsysearcherError {
    pub kind: ErrorKind,
    pub detail: String,
}

impl RsysearcherError {
    /// The line shown to the user for this error.
    pub fn message(&self) -> (r: String)
        ensures
            r@ == "Rsysearcher Error: "@ + self.detail@,
    {
        let mut r = String::from_str("Rsysearcher Error: ");
        r.append(self.detail.as_str());
        r
    }
}

} // verus!
