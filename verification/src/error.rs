//! The failure taxonomy shared by every operation of the library.

use vstd::prelude::*;

verus! {

/// A typed failure. String payloads carry the offending name, path or
/// diagnostic so a caller can render a message; the library itself never
/// formats one.
#[derive(Debug, PartialEq, Eq)]
pub enum ProfileError {
    /// No stored profile has the given name.
    ProfileNotFound(String),
    /// A stored profile already has the given name.
    ProfileExists(String),
    /// The profile's SSH key file is missing; carries the resolved path.
    SshKeyNotFound(String),
    /// A repository-local operation was asked for outside a repository.
    NotGitRepo,
    /// The version-control executable is not available.
    GitNotInstalled,
    /// The persisted collection text does not parse.
    ConfigCorrupted,
    /// A file or directory could not be read or written; carries context.
    PermissionDenied(String),
    /// An input value was rejected; carries the reason.
    InvalidInput(String),
    /// Any other input/output failure; carries the diagnostic.
    Io(String),
}

/// `e` is `ProfileNotFound` carrying exactly `name`.
pub open spec fn is_profile_not_found(e: ProfileError, name: Seq<char>) -> bool {
    &&& e matches ProfileError::ProfileNotFound(n)
    &&& n@ == name
}

/// `e` is `ProfileExists` carrying exactly `name`.
pub open spec fn is_profile_exists(e: ProfileError, name: Seq<char>) -> bool {
    &&& e matches ProfileError::ProfileExists(n)
    &&& n@ == name
}

/// `e` is `SshKeyNotFound` carrying exactly `path`.
pub open spec fn is_ssh_key_not_found(e: ProfileError, path: Seq<char>) -> bool {
    &&& e matches ProfileError::SshKeyNotFound(p)
    &&& p@ == path
}

/// `e` is `PermissionDenied` carrying exactly `context`.
pub open spec fn is_permission_denied(e: ProfileError, context: Seq<char>) -> bool {
    &&& e matches ProfileError::PermissionDenied(c)
    &&& c@ == context
}

/// `e` is `InvalidInput` carrying exactly `reason`.
pub open spec fn is_invalid_input(e: ProfileError, reason: Seq<char>) -> bool {
    &&& e matches ProfileError::InvalidInput(r)
    &&& r@ == reason
}

impl ProfileError {
    /// Whether a caller should offer a remedial hint for this failure;
    /// plain input/output diagnostics get none.
    pub fn should_show_suggestion(&self) -> (r: bool)
        ensures
            r == !(self matches ProfileError::Io(_)),
    {
        !(matches!(self, ProfileError::Io(_)))
    }
}

} // verus!
