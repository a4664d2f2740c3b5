use vstd::prelude::*;

verus! {

/// The closed error taxonomy of the catalog's operations. Display formatting
/// is the boundary layer's concern; the variants carry the structured fields.
#[derive(Debug, PartialEq, Eq, Clone)]
pub enum RepoError {
    /// A queried recipe or ingredient does not exist; carries the queried name.
    NotFound { name: String },
    /// A multi-name ingredient lookup resolved fewer distinct names than were
    /// requested; carries the requested names and those that were found.
    PartialResolution { wanted: Vec<String>, found: Vec<String> },
    /// The credential check failed: unknown user or wrong password.
    Unauthorized,
}

} // verus!
