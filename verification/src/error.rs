//! Failure taxonomy of the request path: a missing identity, a persistence
//! failure, or a template-rendering failure.  The surrounding process
//! carries the collaborator's own error values; here only the kind matters.

use vstd::prelude::*;

verus! {

/// What went wrong while serving a request.
#[derive(Clone, Copy, PartialEq, Eq, Structural, Debug)]
pub enum Error {
    /// The session carries no authenticated identity.
    Unauthorized,
    /// The persistence collaborator failed.
    Database,
    /// Rendering a page failed.
    Template,
}

} // verus!
