//! The profile switch, as a decision over plain facts. The caller gathers
//! what only it can know — whether the key file exists, whether the working
//! directory is a repository — and receives either the exact failure or a
//! plan: the identity settings to write and the profile whose SSH block to
//! upsert. The checks run in a fixed order, so an early failure promises
//! that nothing later would have been touched: a missing profile before the
//! key check, a missing key before any identity write, a missing repository
//! before any SSH rewrite.

use vstd::prelude::*;

use crate::error::{
    is_permission_denied, is_profile_not_found, is_ssh_key_not_found, ProfileError,
};
use crate::git::{identity_settings, ConfigScope};
use crate::manager::ProfileManager;
use crate::profile::Profile;
use crate::ssh::SSHConfigManager;
use crate::storage::has_profile_named;
use crate::text::str_eq;

verus! {

/// The identities currently applied, resolved back to stored profiles.
#[derive(Debug)]
pub struct ProfileStatus {
    pub global: Option<Profile>,
    pub local: Option<Profile>,
}

/// What a decided switch asks the caller to perform, in order: write the
/// settings at the scope, then upsert the profile's SSH block.
#[derive(Debug)]
pub struct SwitchPlan {
    pub profile: Profile,
    pub scope: ConfigScope,
    pub settings: Vec<(String, String)>,
}

/// `r` describes the first profile of `ps` carrying `id`'s username and
/// email, or nothing when `id` is unset or unmatched.
pub open spec fn credential_match(
    ps: Seq<Profile>,
    id: Option<(String, String)>,
    r: Option<Profile>,
) -> bool {
    match id {
        None => r is None,
        Some(ue) => match r {
            Some(p) => exists|i: int|
                0 <= i < ps.len() && ps[i] == p && p@.username == ue.0@ && p@.email == ue.1@ && (
                forall|j: int|
                    0 <= j < i ==> !((#[trigger] ps[j])@.username == ue.0@ && ps[j]@.email
                        == ue.1@)),
            None => forall|i: int|
                0 <= i < ps.len() ==> !((#[trigger] ps[i])@.username == ue.0@ && ps[i]@.email
                    == ue.1@),
        },
    }
}

/// Orchestrates switching and status over the collection it holds.
#[derive(Debug)]
pub struct ProfileSwitcher {
    pub profile_manager: ProfileManager,
    pub ssh_config: SSHConfigManager,
}

impl ProfileSwitcher {
    /// A switcher over a fresh, empty collection and the user's SSH
    /// configuration path.
    pub fn new() -> (r: Result<ProfileSwitcher, ProfileError>)
        ensures
            r matches Ok(s) ==> s.profile_manager.data.profiles@ == Seq::<Profile>::empty(),
            r matches Err(e) ==> is_permission_denied(
                e, "Could not determine home directory"@),
    {
        let profile_manager = match ProfileManager::new() {
            Ok(m) => m,
            Err(e) => {
                return Err(e);
            },
        };
        let ssh_config = match SSHConfigManager::new() {
            Ok(s) => s,
            Err(e) => {
                return Err(e);
            },
        };
        Ok(ProfileSwitcher { profile_manager, ssh_config })
    }

    /// Decide a switch. The checks run in order: the profile must be
    /// stored; its key file must exist (the caller checked `key_path`,
    /// resolved from the profile's key name); a local scope needs a
    /// repository. Only then comes the plan, whose settings are exactly
    /// the profile's identity.
    pub fn switch_profile(
        &self,
        profile_name: &str,
        scope: ConfigScope,
        key_exists: bool,
        key_path: &str,
        is_repo: bool,
    ) -> (r: Result<SwitchPlan, ProfileError>)
        ensures
            ({
                let ps = self.profile_manager.data.profiles@;
                &&& !has_profile_named(ps, profile_name@) ==> (r matches Err(e)
                    && is_profile_not_found(e, profile_name@))
                &&& has_profile_named(ps, profile_name@) && !key_exists ==> (r matches Err(e)
                    && is_ssh_key_not_found(e, key_path@))
                &&& has_profile_named(ps, profile_name@) && key_exists && scope is Local
                    && !is_repo ==> r == Err::<SwitchPlan, ProfileError>(
                    ProfileError::NotGitRepo)
                &&& has_profile_named(ps, profile_name@) && key_exists && !(scope is Local
                    && !is_repo) ==> (r matches Ok(plan) && plan.scope == scope
                    && plan.settings.deep_view() == identity_settings(plan.profile@) && exists|
                    i: int,
                |
                    0 <= i < ps.len() && ps[i] == plan.profile && plan.profile@.name
                        == profile_name@ && (forall|j: int|
                        0 <= j < i ==> (#[trigger] ps[j])@.name != profile_name@))
            }),
    {
        let profile = match self.profile_manager.get_profile(profile_name) {
            Ok(Some(p)) => p,
            Ok(None) => {
                return Err(ProfileError::ProfileNotFound(profile_name.to_owned()));
            },
            Err(e) => {
                return Err(e);
            },
        };
        if !key_exists {
            return Err(ProfileError::SshKeyNotFound(key_path.to_owned()));
        }
        if matches!(scope, ConfigScope::Local) && !is_repo {
            return Err(ProfileError::NotGitRepo);
        }
        let settings = match crate::git::GitConfigManager::apply_profile(
            &profile, scope, is_repo) {
            Ok(s) => s,
            Err(e) => {
                return Err(e);
            },
        };
        Ok(SwitchPlan { profile, scope, settings })
    }

    /// The first stored profile whose username and email both match.
    pub fn find_profile_by_credentials(&self, username: &str, email: &str) -> (r: Result<
        Option<Profile>,
        ProfileError,
    >)
        ensures
            ({
                let ps = self.profile_manager.data.profiles@;
                match r {
                    Ok(Some(p)) => exists|i: int|
                        0 <= i < ps.len() && ps[i] == p && p@.username == username@ && p@.email
                            == email@ && (forall|j: int|
                            0 <= j < i ==> !((#[trigger] ps[j])@.username == username@
                                && ps[j]@.email == email@)),
                    Ok(None) => forall|i: int|
                        0 <= i < ps.len() ==> !((#[trigger] ps[i])@.username == username@
                            && ps[i]@.email == email@),
                    Err(_) => false,
                }
            }),
    {
        let n = self.profile_manager.data.profiles.len();
        let mut i: usize = 0;
        while i < n
            invariant
                n == self.profile_manager.data.profiles@.len(),
                i <= n,
                forall|j: int|
                    0 <= j < i ==> !((#[trigger] self.profile_manager.data.profiles@[j])@.username
                        == username@ && self.profile_manager.data.profiles@[j]@.email == email@),
            decreases n - i,
        {
            if str_eq(self.profile_manager.data.profiles[i].username.as_str(), username) && str_eq(
                self.profile_manager.data.profiles[i].email.as_str(), email) {
                let p = self.profile_manager.data.profiles[i].clone();
                proof {
                    let ps = self.profile_manager.data.profiles@;
                    assert(0 <= i < ps.len() && ps[i as int] == p && p@.username == username@
                        && p@.email == email@ && (forall|j: int|
                        0 <= j < i ==> !((#[trigger] ps[j])@.username == username@
                            && ps[j]@.email == email@)));
                }
                return Ok(Some(p));
            }
            i = i + 1;
        }
        Ok(None)
    }

    /// Resolve each scope's identity, as the caller read it, back to the
    /// first stored profile with that username and email. A scope with no
    /// identity set — or, locally, no repository — is handed in as `None`
    /// and resolves to `None`.
    pub fn get_current_status(
        &self,
        global_identity: Option<(String, String)>,
        local_identity: Option<(String, String)>,
    ) -> (r: Result<ProfileStatus, ProfileError>)
        ensures
            ({
                let ps = self.profile_manager.data.profiles@;
                &&& r matches Ok(st)
                &&& credential_match(ps, global_identity, st.global)
                &&& credential_match(ps, local_identity, st.local)
            }),
    {
        let global = match &global_identity {
            Some(ue) => {
                match self.find_profile_by_credentials(ue.0.as_str(), ue.1.as_str()) {
                    Ok(o) => o,
                    Err(_) => None,
                }
            },
            None => None,
        };
        let local = match &local_identity {
            Some(ue) => {
                match self.find_profile_by_credentials(ue.0.as_str(), ue.1.as_str()) {
                    Ok(o) => o,
                    Err(_) => None,
                }
            },
            None => None,
        };
        Ok(ProfileStatus { global, local })
    }
}

} // verus!
