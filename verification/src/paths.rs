//! Resolution of the fixed file locations under the user's home directory.
//! Only the home lookup itself is outside work; the joins are plain text.

use vstd::prelude::*;

use crate::error::{is_permission_denied, ProfileError};

verus! {

/// Relies on `dirs::home_dir`: the user's home directory, when the system
/// reports one. The answer depends on the environment, so nothing is
/// assumed of it.
#[verifier::external_body]
pub(crate) fn home_dir_path() -> Option<String> {
    dirs::home_dir().map(|p| p.to_string_lossy().into_owned())
}

/// The key file path for `key_name` under `home`'s SSH directory.
pub fn key_path_in_dir(home: &str, key_name: &str) -> (r: String)
    ensures
        r@ == home@ + "/.ssh/"@ + key_name@,
{
    let mut r = home.to_owned();
    r.append("/.ssh/");
    r.append(key_name);
    r
}

/// The key file path for `key_name` under the user's SSH directory. Fails
/// exactly when the system reports no home directory.
pub fn get_ssh_key_path(key_name: &str) -> (r: Result<String, ProfileError>)
    ensures
        r matches Ok(p) ==> exists|h: Seq<char>| p@ == h + "/.ssh/"@ + key_name@,
        r matches Err(e) ==> is_permission_denied(e, "Could not determine home directory"@),
{
    match home_dir_path() {
        Some(home) => {
            let p = key_path_in_dir(home.as_str(), key_name);
            proof {
                assert(p@ == home@ + "/.ssh/"@ + key_name@);
            }
            Ok(p)
        },
        None => Err(ProfileError::PermissionDenied("Could not determine home directory".to_owned())),
    }
}

/// The path of the persisted profile collection. Fails exactly when the
/// system reports no home directory.
pub fn get_config_path() -> (r: Result<String, ProfileError>)
    ensures
        r matches Ok(p) ==> exists|h: Seq<char>|
            p@ == h + "/.github-profile-switcher/profiles.json"@,
        r matches Err(e) ==> is_permission_denied(e, "Could not determine home directory"@),
{
    match home_dir_path() {
        Some(home) => {
            let mut p = home;
            p.append("/.github-profile-switcher/profiles.json");
            Ok(p)
        },
        None => Err(ProfileError::PermissionDenied("Could not determine home directory".to_owned())),
    }
}

} // verus!
