use gex::error::ProfileError;
use gex::manager::ProfileManager;
use gex::profile::Profile;

fn create_test_manager() -> ProfileManager {
    ProfileManager::new().unwrap()
}

fn create_test_profile(name: &str) -> Profile {
    Profile {
        name: name.to_string(),
        username: format!("{}-user", name),
        email: format!("{}@example.com", name),
        ssh_key_name: format!("id_rsa_{}", name),
    }
}

#[test]
fn test_create_profile_success() {
    let mut manager = create_test_manager();

    let profile = create_test_profile("personal");
    let result = manager.create_profile(profile);

    assert!(result.is_ok());

    // Verify profile was saved
    let profiles = manager.get_all_profiles().unwrap();
    assert_eq!(profiles.len(), 1);
    assert_eq!(profiles[0].name, "personal");
}

#[test]
fn test_create_duplicate_profile() {
    let mut manager = create_test_manager();

    let profile1 = create_test_profile("work");
    manager.create_profile(profile1).unwrap();

    // Try to create duplicate
    let profile2 = create_test_profile("work");
    let result = manager.create_profile(profile2);

    assert!(result.is_err());
    match result {
        Err(ProfileError::ProfileExists(name)) => {
            assert_eq!(name, "work");
        }
        _ => panic!("Expected ProfileExists error"),
    }
}

#[test]
fn test_get_profile_exists() {
    let mut manager = create_test_manager();

    let profile = create_test_profile("personal");
    manager.create_profile(profile).unwrap();

    let retrieved = manager.get_profile("personal").unwrap();
    assert!(retrieved.is_some());

    let profile = retrieved.unwrap();
    assert_eq!(profile.name, "personal");
    assert_eq!(profile.username, "personal-user");
    assert_eq!(profile.email, "personal@example.com");
}

#[test]
fn test_get_profile_not_found() {
    let manager = create_test_manager();

    let retrieved = manager.get_profile("nonexistent").unwrap();
    assert!(retrieved.is_none());
}

#[test]
fn test_get_all_profiles() {
    let mut manager = create_test_manager();

    // Create multiple profiles
    manager.create_profile(create_test_profile("personal")).unwrap();
    manager.create_profile(create_test_profile("work")).unwrap();
    manager.create_profile(create_test_profile("opensource")).unwrap();

    let profiles = manager.get_all_profiles().unwrap();
    assert_eq!(profiles.len(), 3);

    let names: Vec<String> = profiles.iter().map(|p| p.name.clone()).collect();
    assert!(names.contains(&"personal".to_string()));
    assert!(names.contains(&"work".to_string()));
    assert!(names.contains(&"opensource".to_string()));
}

#[test]
fn test_get_all_profiles_empty() {
    let manager = create_test_manager();

    let profiles = manager.get_all_profiles().unwrap();
    assert_eq!(profiles.len(), 0);
}

#[test]
fn test_update_profile_success() {
    let mut manager = create_test_manager();

    // Create initial profile
    let profile = create_test_profile("personal");
    manager.create_profile(profile).unwrap();

    // Update the profile
    let updated_profile = Profile {
        name: "personal".to_string(),
        username: "new-username".to_string(),
        email: "newemail@example.com".to_string(),
        ssh_key_name: "id_ed25519_new".to_string(),
    };

    let result = manager.update_profile("personal", updated_profile);
    assert!(result.is_ok());

    // Verify the update
    let retrieved = manager.get_profile("personal").unwrap().unwrap();
    assert_eq!(retrieved.username, "new-username");
    assert_eq!(retrieved.email, "newemail@example.com");
    assert_eq!(retrieved.ssh_key_name, "id_ed25519_new");
}

#[test]
fn test_update_profile_not_found() {
    let mut manager = create_test_manager();

    let updated_profile = create_test_profile("nonexistent");
    let result = manager.update_profile("nonexistent", updated_profile);

    assert!(result.is_err());
    match result {
        Err(ProfileError::ProfileNotFound(name)) => {
            assert_eq!(name, "nonexistent");
        }
        _ => panic!("Expected ProfileNotFound error"),
    }
}

#[test]
fn test_delete_profile_success() {
    let mut manager = create_test_manager();

    // Create profiles
    manager.create_profile(create_test_profile("personal")).unwrap();
    manager.create_profile(create_test_profile("work")).unwrap();

    // Delete one
    let result = manager.delete_profile("personal");
    assert!(result.is_ok());

    // Verify deletion
    let profiles = manager.get_all_profiles().unwrap();
    assert_eq!(profiles.len(), 1);
    assert_eq!(profiles[0].name, "work");
}

#[test]
fn test_delete_profile_not_found() {
    let mut manager = create_test_manager();

    let result = manager.delete_profile("nonexistent");

    assert!(result.is_err());
    match result {
        Err(ProfileError::ProfileNotFound(name)) => {
            assert_eq!(name, "nonexistent");
        }
        _ => panic!("Expected ProfileNotFound error"),
    }
}

#[test]
fn test_profile_exists() {
    let mut manager = create_test_manager();

    manager.create_profile(create_test_profile("personal")).unwrap();

    assert!(manager.profile_exists("personal").unwrap());
    assert!(!manager.profile_exists("nonexistent").unwrap());
}

#[test]
fn test_multiple_operations() {
    let mut manager = create_test_manager();

    // Create
    manager.create_profile(create_test_profile("profile1")).unwrap();
    manager.create_profile(create_test_profile("profile2")).unwrap();
    manager.create_profile(create_test_profile("profile3")).unwrap();

    // Update
    let updated = Profile {
        name: "profile2".to_string(),
        username: "updated-user".to_string(),
        email: "updated@example.com".to_string(),
        ssh_key_name: "id_rsa_updated".to_string(),
    };
    manager.update_profile("profile2", updated).unwrap();

    // Delete
    manager.delete_profile("profile1").unwrap();

    // Verify final state
    let profiles = manager.get_all_profiles().unwrap();
    assert_eq!(profiles.len(), 2);

    let profile2 = manager.get_profile("profile2").unwrap().unwrap();
    assert_eq!(profile2.username, "updated-user");

    assert!(manager.get_profile("profile1").unwrap().is_none());
    assert!(manager.get_profile("profile3").unwrap().is_some());
}

#[test]
fn test_update_keeps_position() {
    let mut manager = create_test_manager();
    manager.create_profile(create_test_profile("first")).unwrap();
    manager.create_profile(create_test_profile("second")).unwrap();
    manager.create_profile(create_test_profile("third")).unwrap();

    let replacement = Profile {
        name: "second".to_string(),
        username: "replaced".to_string(),
        email: "replaced@example.com".to_string(),
        ssh_key_name: "id_rsa_replaced".to_string(),
    };
    manager.update_profile("second", replacement).unwrap();

    let profiles = manager.get_all_profiles().unwrap();
    assert_eq!(profiles[0].name, "first");
    assert_eq!(profiles[1].name, "second");
    assert_eq!(profiles[1].username, "replaced");
    assert_eq!(profiles[2].name, "third");
}
