//! Decisions around the version-control tool: which arguments to run it
//! with, and what its outcome means. Running the subprocess itself is the
//! caller's business; it hands back exit status and output, or the outcome
//! of a lookup, and the functions here say exactly what follows.

use vstd::prelude::*;

use crate::error::{is_invalid_input, ProfileError};
use crate::profile::{Profile, ProfileView};
use crate::text::{trim_spec, trim_str};

verus! {

/// Machine-wide or repository-local configuration.
#[derive(Clone, Copy, Debug, PartialEq, Eq, Structural)]
pub enum ConfigScope {
    Global,
    Local,
}

impl ConfigScope {
    /// The command-line flag selecting this scope.
    pub fn as_flag(&self) -> (r: &'static str)
        ensures
            *self is Global ==> r@ == "--global"@,
            *self is Local ==> r@ == "--local"@,
    {
        match self {
            ConfigScope::Global => "--global",
            ConfigScope::Local => "--local",
        }
    }
}

/// The flag as a character sequence.
pub open spec fn scope_flag(scope: ConfigScope) -> Seq<char> {
    if scope is Global {
        "--global"@
    } else {
        "--local"@
    }
}

/// The two identity settings a profile applies.
pub open spec fn identity_settings(p: ProfileView) -> Seq<(Seq<char>, Seq<char>)> {
    seq![("user.name"@, p.username), ("user.email"@, p.email)]
}

/// The tool's outcome, interpreted: exit code zero yields the trimmed
/// standard output; anything else is a command failure carrying the
/// trimmed diagnostic.
pub fn interpret_git_output(success: bool, stdout: &str, stderr: &str) -> (r: Result<
    String,
    ProfileError,
>)
    ensures
        success ==> (r matches Ok(v) && v@ == trim_spec(stdout@)),
        !success ==> (r matches Err(e) && is_invalid_input(
            e, "Git command failed: "@ + trim_spec(stderr@))),
{
    if success {
        Ok(trim_str(stdout))
    } else {
        let mut msg = "Git command failed: ".to_owned();
        let t = trim_str(stderr);
        msg.append(t.as_str());
        Err(ProfileError::InvalidInput(msg))
    }
}

/// The configuration reads and writes, as decisions over plain values.
pub struct GitConfigManager;

impl GitConfigManager {
    /// The argument vector that sets `key` to `value` at `scope`.
    pub fn set_config_args(scope: ConfigScope, key: &str, value: &str) -> (r: Vec<String>)
        ensures
            r.deep_view() == seq!["config"@, scope_flag(scope), key@, value@],
    {
        let mut args: Vec<String> = Vec::new();
        args.push("config".to_owned());
        args.push(scope.as_flag().to_owned());
        args.push(key.to_owned());
        args.push(value.to_owned());
        proof {
            assert(args.deep_view() =~= seq!["config"@, scope_flag(scope), key@, value@]);
        }
        args
    }

    /// The argument vector that reads `key` at `scope`.
    pub fn get_config_args(scope: ConfigScope, key: &str) -> (r: Vec<String>)
        ensures
            r.deep_view() == seq!["config"@, scope_flag(scope), key@],
    {
        let mut args: Vec<String> = Vec::new();
        args.push("config".to_owned());
        args.push(scope.as_flag().to_owned());
        args.push(key.to_owned());
        proof {
            assert(args.deep_view() =~= seq!["config"@, scope_flag(scope), key@]);
        }
        args
    }

    /// What an executed write means: success is success, and a failure
    /// stands unchanged.
    pub fn set_config(outcome: Result<String, ProfileError>) -> (r: Result<(), ProfileError>)
        ensures
            outcome matches Ok(_) ==> r == Ok::<(), ProfileError>(()),
            forall|e: ProfileError| outcome == Err::<String, ProfileError>(e)
                ==> r == Err::<(), ProfileError>(e),
    {
        match outcome {
            Ok(_) => Ok(()),
            Err(e) => Err(e),
        }
    }

    /// What an executed lookup means: a value is the value; a failure the
    /// executor classed as a command failure means the key is unset; any
    /// other failure stands.
    pub fn get_config(outcome: Result<String, ProfileError>) -> (r: Result<
        Option<String>,
        ProfileError,
    >)
        ensures
            match outcome {
                Ok(v) => r == Ok::<Option<String>, ProfileError>(Some(v)),
                Err(e) => if e is InvalidInput {
                    r == Ok::<Option<String>, ProfileError>(None::<String>)
                } else {
                    r == Err::<Option<String>, ProfileError>(e)
                },
            },
    {
        match outcome {
            Ok(v) => Ok(Some(v)),
            Err(ProfileError::InvalidInput(_)) => Ok(None),
            Err(e) => Err(e),
        }
    }

    /// The identity at a scope: present only when both the username and the
    /// email lookups found a value.
    pub fn get_current_profile(username: Option<String>, email: Option<String>) -> (r: Result<
        Option<(String, String)>,
        ProfileError,
    >)
        ensures
            match (username, email) {
                (Some(u), Some(e)) => r == Ok::<Option<(String, String)>, ProfileError>(
                    Some((u, e)),
                ),
                _ => r matches Ok(o) && o is None,
            },
    {
        match (username, email) {
            (Some(u), Some(e)) => Ok(Some((u, e))),
            _ => Ok(None),
        }
    }

    /// Which settings applying `profile` at `scope` writes. A local scope
    /// outside a repository is refused before anything is written.
    pub fn apply_profile(profile: &Profile, scope: ConfigScope, is_repo: bool) -> (r: Result<
        Vec<(String, String)>,
        ProfileError,
    >)
        ensures
            match r {
                Ok(v) => !(scope is Local && !is_repo) && v.deep_view() == identity_settings(
                    profile@),
                Err(e) => scope is Local && !is_repo && e == ProfileError::NotGitRepo,
            },
    {
        if matches!(scope, ConfigScope::Local) && !is_repo {
            return Err(ProfileError::NotGitRepo);
        }
        let mut settings: Vec<(String, String)> = Vec::new();
        settings.push(("user.name".to_owned(), profile.username.clone()));
        settings.push(("user.email".to_owned(), profile.email.clone()));
        proof {
            assert(settings.deep_view() =~= identity_settings(profile@));
        }
        Ok(settings)
    }
}

} // verus!
