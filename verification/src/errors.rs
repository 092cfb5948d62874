use vstd::prelude::*;

verus! {

/// The ways the core can fail. Every variant is terminal: callers abort the
/// whole operation, no partial work is rolled back.
#[derive(Clone, Copy, Debug, PartialEq, Eq, Structural)]
pub enum Error {
    /// The active-output set is empty: nothing to index.
    EmptyTopology,
    /// A two-part workspace name's second segment is not an unsigned integer.
    MalformedMinor,
    /// The focused workspace sits on an output that the index does not know.
    UnknownOutput,
    /// No workspace reports itself focused.
    NoFocusedWorkspace,
    /// A move was requested but nothing in the tree is focused.
    NoFocusedNode,
}

impl Error {
    /// A short diagnostic for each failure, for callers that print one.
    pub fn describe(&self) -> (r: &'static str)
        ensures
            r@ == self.spec_describe(),
    {
        match self {
            Error::EmptyTopology => "no active outputs",
            Error::MalformedMinor => "workspace name has a malformed minor part",
            Error::UnknownOutput => "focused workspace is on an unknown output",
            Error::NoFocusedWorkspace => "no workspace is focused",
            Error::NoFocusedNode => "no container is focused",
        }
    }

    pub open spec fn spec_describe(self) -> Seq<char> {
        match self {
            Error::EmptyTopology => "no active outputs"@,
            Error::MalformedMinor => "workspace name has a malformed minor part"@,
            Error::UnknownOutput => "focused workspace is on an unknown output"@,
            Error::NoFocusedWorkspace => "no workspace is focused"@,
            Error::NoFocusedNode => "no container is focused"@,
        }
    }
}

} // verus!
