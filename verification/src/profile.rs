//! The identity profile: a named (username, email, SSH key) triple.

use vstd::prelude::*;

verus! {

/// The mathematical content of a [`Profile`]: its four fields as
/// character sequences.
#[verifier::ext_equal]
pub struct ProfileView {
    pub name: Seq<char>,
    pub username: Seq<char>,
    pub email: Seq<char>,
    pub ssh_key_name: Seq<char>,
}

/// One stored identity. `name` is the unique key inside a collection;
/// `ssh_key_name` names a key file under the user's SSH directory.
#[derive(Debug, PartialEq, Eq)]
pub struct Profile {
    pub name: String,
    pub username: String,
    pub email: String,
    pub ssh_key_name: String,
}

impl View for Profile {
    type V = ProfileView;

    open spec fn view(&self) -> ProfileView {
        ProfileView {
            name: self.name@,
            username: self.username@,
            email: self.email@,
            ssh_key_name: self.ssh_key_name@,
        }
    }
}

impl DeepView for Profile {
    type V = ProfileView;

    open spec fn deep_view(&self) -> ProfileView {
        self.view()
    }
}

impl Clone for Profile {
    fn clone(&self) -> (r: Self)
        ensures
            r == *self,
    {
        Profile {
            name: self.name.clone(),
            username: self.username.clone(),
            email: self.email.clone(),
            ssh_key_name: self.ssh_key_name.clone(),
        }
    }
}

/// The SSH host alias written for a profile of the given name.
pub open spec fn host_alias(name: Seq<char>) -> Seq<char> {
    "github.com-"@ + name
}

impl Profile {
    /// Build a profile from its four fields.
    pub fn new(name: String, username: String, email: String, ssh_key_name: String) -> (p: Profile)
        ensures
            p.name == name,
            p.username == username,
            p.email == email,
            p.ssh_key_name == ssh_key_name,
    {
        Profile { name, username, email, ssh_key_name }
    }

    /// The host alias this profile uses in the SSH configuration.
    pub fn ssh_host(&self) -> (r: String)
        ensures
            r@ == host_alias(self@.name),
    {
        let mut r = "github.com-".to_owned();
        r.append(self.name.as_str());
        r
    }
}

} // verus!
