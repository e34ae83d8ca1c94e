//! The persisted collection of profiles: its data type, well-formedness,
//! and the timestamp it carries.

use vstd::prelude::*;

use crate::error::ProfileError;
use crate::profile::{Profile, ProfileView};

verus! {

/// The mathematical content of a [`StorageData`].
#[verifier::ext_equal]
pub struct StorageDataView {
    pub version: Seq<char>,
    pub profiles: Seq<ProfileView>,
    pub last_modified: Seq<char>,
}

/// The collection as persisted: a format version, the profiles in
/// insertion order, and the time of the last mutation.
#[derive(Debug, PartialEq, Eq)]
pub struct StorageData {
    pub version: String,
    pub profiles: Vec<Profile>,
    pub last_modified: String,
}

impl View for StorageData {
    type V = StorageDataView;

    open spec fn view(&self) -> StorageDataView {
        StorageDataView {
            version: self.version@,
            profiles: self.profiles.deep_view(),
            last_modified: self.last_modified@,
        }
    }
}

impl DeepView for StorageData {
    type V = StorageDataView;

    open spec fn deep_view(&self) -> StorageDataView {
        self.view()
    }
}

/// Profile names are pairwise distinct.
pub open spec fn unique_names(ps: Seq<ProfileView>) -> bool {
    forall|i: int, j: int| 0 <= i < j < ps.len() ==> ps[i].name != ps[j].name
}

/// Some profile in `ps` is named `name`.
pub open spec fn has_profile_named(ps: Seq<Profile>, name: Seq<char>) -> bool {
    exists|i: int| 0 <= i < ps.len() && ps[i]@.name == name
}

/// Relies on chrono's `Utc::now`, rendered by `DateTime::to_rfc3339`.
/// The result depends on the clock, so nothing is assumed of it.
#[verifier::external_body]
fn now_rfc3339() -> String {
    chrono::Utc::now().to_rfc3339()
}

impl Clone for StorageData {
    fn clone(&self) -> (r: Self)
        ensures
            r@ == self@,
            r.profiles@ == self.profiles@,
    {
        let profiles = self.profiles.clone();
        proof {
            assert forall|i: int| 0 <= i < profiles@.len() implies profiles@[i]
                == self.profiles@[i] by {
                assert(cloned(self.profiles@[i], profiles@[i]));
            }
            assert(profiles@ =~= self.profiles@);
        }
        let r = StorageData {
            version: self.version.clone(),
            profiles,
            last_modified: self.last_modified.clone(),
        };
        proof {
            assert(r@ =~= self@);
        }
        r
    }
}

impl StorageData {
    /// An empty collection, stamped with the current time.
    pub fn new() -> (d: StorageData)
        ensures
            d.version@ == "1.0.0"@,
            d.profiles@ == Seq::<Profile>::empty(),
    {
        StorageData { version: "1.0.0".to_owned(), profiles: Vec::new(), last_modified: now_rfc3339() }
    }

    /// Restamp `last_modified`; everything else is untouched.
    pub fn touch(&mut self)
        ensures
            final(self).version == old(self).version,
            final(self).profiles == old(self).profiles,
    {
        self.last_modified = now_rfc3339();
    }
}

impl Default for StorageData {
    fn default() -> (d: Self)
        ensures
            d.version@ == "1.0.0"@,
            d.profiles@ == Seq::<Profile>::empty(),
    {
        StorageData::new()
    }
}


/// Addresses the persisted collection and converts it to and from its
/// canonical text; reading and writing the file is the caller's business.
#[derive(Debug)]
pub struct StorageService {
    pub config_path: String,
}

impl StorageService {
    /// A service addressing the collection file under the user's home
    /// directory. Fails when the system reports no home directory.
    pub fn new() -> (r: Result<StorageService, ProfileError>)
        ensures
            r matches Ok(sv) ==> exists|h: Seq<char>|
                sv.config_path@ == h + "/.github-profile-switcher/profiles.json"@,
            r matches Err(e) ==> crate::error::is_permission_denied(
                e, "Could not determine home directory"@),
    {
        match crate::paths::get_config_path() {
            Ok(p) => Ok(StorageService { config_path: p }),
            Err(e) => Err(e),
        }
    }

    /// Where the collection is persisted.
    pub fn get_config_path() -> (r: Result<String, ProfileError>)
        ensures
            r matches Ok(p) ==> exists|h: Seq<char>|
                p@ == h + "/.github-profile-switcher/profiles.json"@,
            r matches Err(e) ==> crate::error::is_permission_denied(
                e, "Could not determine home directory"@),
    {
        crate::paths::get_config_path()
    }

    /// The path this service addresses.
    pub fn config_path(&self) -> (r: &String)
        ensures
            r == &self.config_path,
    {
        &self.config_path
    }

    /// The collection a persisted text holds; `ConfigCorrupted` exactly
    /// when the text is not a canonical rendering.
    pub fn load_from_str(content: &str) -> (r: Result<StorageData, ProfileError>)
        ensures
            match crate::json::parse_collection_spec(content@) {
                Some(v) => r matches Ok(d) && d@ == v,
                None => r == Err::<StorageData, ProfileError>(ProfileError::ConfigCorrupted),
            },
    {
        crate::json::parse_collection(content)
    }

    /// The canonical text for a collection, for the caller to persist.
    pub fn save_to_string(data: &StorageData) -> (r: String)
        ensures
            r@ == crate::json::render_collection_spec(data@),
    {
        crate::json::render_collection(data)
    }

    /// Whether a persisted text parses as a collection.
    pub fn validate_config(content: &str) -> (b: bool)
        ensures
            b == (crate::json::parse_collection_spec(content@) is Some),
    {
        match crate::json::parse_collection(content) {
            Ok(_) => true,
            Err(_) => false,
        }
    }
}

} // verus!
