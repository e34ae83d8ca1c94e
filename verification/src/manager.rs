//! Create/read/update/delete over the profile collection. Every operation
//! says exactly when it succeeds, which failure it returns otherwise, and
//! how the collection changes; the caller persists the collection around
//! each call.

use vstd::prelude::*;

use crate::error::{is_profile_exists, is_profile_not_found, ProfileError};
use crate::profile::Profile;
use crate::storage::{has_profile_named, unique_names, StorageData};
use crate::text::str_eq;
use vstd::pervasive::VecAdditionalExecFns;

verus! {

/// Holds the collection being operated on.
#[derive(Debug)]
pub struct ProfileManager {
    pub data: StorageData,
}

impl ProfileManager {
    /// A manager over a fresh, empty collection.
    pub fn new() -> (r: Result<ProfileManager, ProfileError>)
        ensures
            r matches Ok(m) && m.data.version@ == "1.0.0"@ && m.data.profiles@ == Seq::<
                Profile,
            >::empty(),
    {
        Ok(ProfileManager { data: StorageData::new() })
    }

    /// A manager over an existing collection.
    pub fn from_data(data: StorageData) -> (m: ProfileManager)
        ensures
            m.data == data,
    {
        ProfileManager { data }
    }

    /// Give up the collection, for the caller to persist.
    pub fn into_data(self) -> (d: StorageData)
        ensures
            d == self.data,
    {
        self.data
    }

    /// Append a new profile. Fails with `ProfileExists` exactly when the
    /// name is already taken, and then changes nothing; names that were
    /// pairwise distinct stay so.
    pub fn create_profile(&mut self, profile: Profile) -> (r: Result<(), ProfileError>)
        ensures
            match r {
                Ok(_) => !has_profile_named(old(self).data.profiles@, profile@.name)
                    && final(self).data.profiles@ == old(self).data.profiles@.push(profile)
                    && final(self).data.version == old(self).data.version
                    && (unique_names(old(self).data@.profiles) ==> unique_names(
                    final(self).data@.profiles)),
                Err(e) => has_profile_named(old(self).data.profiles@, profile@.name)
                    && is_profile_exists(e, profile@.name) && *final(self) == *old(self),
            },
    {
        if self.exists_internal(profile.name.as_str()) {
            return Err(ProfileError::ProfileExists(profile.name.clone()));
        }
        let ghost ps0 = self.data.profiles@;
        let ghost pview = profile@;
        self.data.profiles.push(profile);
        self.data.touch();
        proof {
            let dv0 = old(self).data@.profiles;
            let dv1 = self.data@.profiles;
            assert(dv1.len() == dv0.len() + 1);
            assert(forall|k: int| 0 <= k < dv0.len() ==> dv1[k] == #[trigger] dv0[k]);
            assert(dv1[dv0.len() as int] == pview);
            if unique_names(dv0) {
                assert forall|i: int, j: int|
                    0 <= i < j < dv1.len() implies dv1[i].name != dv1[j].name by {
                    if j < dv0.len() {
                        assert(dv0[i].name != dv0[j].name);
                    } else {
                        assert(ps0[i]@.name != pview.name);
                        assert(dv1[i] == dv0[i] && dv0[i] == ps0[i]@);
                    }
                }
            }
        }
        Ok(())
    }

    /// The first profile of that name, as a copy; `None` when absent.
    pub fn get_profile(&self, name: &str) -> (r: Result<Option<Profile>, ProfileError>)
        ensures
            match r {
                Ok(Some(p)) => exists|i: int|
                    0 <= i < self.data.profiles@.len() && self.data.profiles@[i] == p && p@.name
                        == name@ && (forall|j: int|
                        0 <= j < i ==> #[trigger] self.data.profiles@[j]@.name != name@),
                Ok(None) => !has_profile_named(self.data.profiles@, name@),
                Err(_) => false,
            },
    {
        let n = self.data.profiles.len();
        let mut i: usize = 0;
        while i < n
            invariant
                n == self.data.profiles@.len(),
                i <= n,
                forall|j: int| 0 <= j < i ==> #[trigger] self.data.profiles@[j]@.name != name@,
            decreases n - i,
        {
            if str_eq(self.data.profiles[i].name.as_str(), name) {
                return Ok(Some(self.data.profiles[i].clone()));
            }
            i = i + 1;
        }
        Ok(None)
    }

    /// All profiles, in stored order, as copies.
    pub fn get_all_profiles(&self) -> (r: Result<Vec<Profile>, ProfileError>)
        ensures
            r matches Ok(v) && v@ == self.data.profiles@,
    {
        let v = self.data.profiles.clone();
        proof {
            assert forall|i: int| 0 <= i < v@.len() implies v@[i] == self.data.profiles@[i] by {
                assert(cloned(self.data.profiles@[i], v@[i]));
            }
            assert(v@ =~= self.data.profiles@);
        }
        Ok(v)
    }

    /// Replace the first profile of that name, keeping its position.
    /// Fails with `ProfileNotFound` exactly when the name is absent,
    /// and then changes nothing.
    pub fn update_profile(&mut self, name: &str, updated_profile: Profile) -> (r: Result<
        (),
        ProfileError,
    >)
        ensures
            match r {
                Ok(_) => exists|i: int|
                    0 <= i < old(self).data.profiles@.len()
                        && (#[trigger] old(self).data.profiles@[i])@.name == name@
                        && (forall|j: int|
                            0 <= j < i ==> #[trigger] old(self).data.profiles@[j]@.name != name@)
                        && final(self).data.profiles@
                            == old(self).data.profiles@.update(i, updated_profile)
                        && final(self).data.version == old(self).data.version,
                Err(e) => !has_profile_named(old(self).data.profiles@, name@)
                    && is_profile_not_found(e, name@) && *final(self) == *old(self),
            },
    {
        let n = self.data.profiles.len();
        let mut i: usize = 0;
        while i < n
            invariant
                *self == *old(self),
                n == self.data.profiles@.len(),
                i <= n,
                forall|j: int| 0 <= j < i ==> #[trigger] self.data.profiles@[j]@.name != name@,
            decreases n - i,
        {
            if str_eq(self.data.profiles[i].name.as_str(), name) {
                self.data.profiles.set(i, updated_profile);
                self.data.touch();
                return Ok(());
            }
            i = i + 1;
        }
        Err(ProfileError::ProfileNotFound(name.to_owned()))
    }

    /// Remove the first profile of that name. Fails with `ProfileNotFound`
    /// exactly when the name is absent, and then changes nothing; names
    /// that were pairwise distinct stay so.
    pub fn delete_profile(&mut self, name: &str) -> (r: Result<(), ProfileError>)
        ensures
            match r {
                Ok(_) => exists|i: int|
                    0 <= i < old(self).data.profiles@.len()
                        && (#[trigger] old(self).data.profiles@[i])@.name == name@
                        && (forall|j: int|
                            0 <= j < i ==> #[trigger] old(self).data.profiles@[j]@.name != name@)
                        && final(self).data.profiles@ == old(self).data.profiles@.remove(i)
                        && final(self).data.version == old(self).data.version
                        && (unique_names(old(self).data@.profiles) ==> unique_names(
                        final(self).data@.profiles)),
                Err(e) => !has_profile_named(old(self).data.profiles@, name@)
                    && is_profile_not_found(e, name@) && *final(self) == *old(self),
            },
    {
        let n = self.data.profiles.len();
        let mut i: usize = 0;
        while i < n
            invariant
                *self == *old(self),
                n == self.data.profiles@.len(),
                i <= n,
                forall|j: int| 0 <= j < i ==> #[trigger] self.data.profiles@[j]@.name != name@,
            decreases n - i,
        {
            if str_eq(self.data.profiles[i].name.as_str(), name) {
                self.data.profiles.remove(i);
                self.data.touch();
                proof {
                    let dv0 = old(self).data@.profiles;
                    let dv1 = self.data@.profiles;
                    if unique_names(dv0) {
                        assert forall|a: int, b: int|
                            0 <= a < b < dv1.len() implies dv1[a].name != dv1[b].name by {
                            let a0: int = if a < i { a } else { a + 1 };
                            let b0: int = if b < i { b } else { b + 1 };
                            assert(dv1[a] == dv0[a0] && dv1[b] == dv0[b0]);
                            assert(dv0[a0].name != dv0[b0].name);
                        }
                    }
                }
                return Ok(());
            }
            i = i + 1;
        }
        Err(ProfileError::ProfileNotFound(name.to_owned()))
    }

    /// Whether some profile has that name.
    pub fn profile_exists(&self, name: &str) -> (r: Result<bool, ProfileError>)
        ensures
            r matches Ok(b) && b == has_profile_named(self.data.profiles@, name@),
    {
        Ok(self.exists_internal(name))
    }

    fn exists_internal(&self, name: &str) -> (b: bool)
        ensures
            b == has_profile_named(self.data.profiles@, name@),
    {
        let n = self.data.profiles.len();
        let mut i: usize = 0;
        while i < n
            invariant
                n == self.data.profiles@.len(),
                i <= n,
                forall|j: int| 0 <= j < i ==> #[trigger] self.data.profiles@[j]@.name != name@,
            decreases n - i,
        {
            if str_eq(self.data.profiles[i].name.as_str(), name) {
                return true;
            }
            i = i + 1;
        }
        false
    }
}

} // verus!
