use gex::error::ProfileError;
use gex::git::ConfigScope;
use gex::profile::Profile;
use gex::switcher::ProfileSwitcher;

fn create_test_environment() -> ProfileSwitcher {
    ProfileSwitcher::new().unwrap()
}

fn key_path() -> String {
    "/home/tester/.ssh/id_rsa".to_string()
}

#[test]
fn test_switch_profile_not_found() {
    let switcher = create_test_environment();

    let result = switcher.switch_profile("nonexistent", ConfigScope::Global, true, &key_path(), true);
    assert!(result.is_err());

    match result {
        Err(ProfileError::ProfileNotFound(name)) => {
            assert_eq!(name, "nonexistent");
        }
        _ => panic!("Expected ProfileNotFound error"),
    }
}

#[test]
fn test_switch_profile_ssh_key_missing() {
    let mut switcher = create_test_environment();

    // Create a profile whose SSH key file does not exist
    let profile = Profile {
        name: "test".to_string(),
        username: "testuser".to_string(),
        email: "test@example.com".to_string(),
        ssh_key_name: "nonexistent_key".to_string(),
    };

    let _ = switcher.profile_manager.create_profile(profile);

    // Try to switch - should fail because SSH key doesn't exist
    let result = switcher.switch_profile(
        "test",
        ConfigScope::Global,
        false,
        "/home/tester/.ssh/nonexistent_key",
        true,
    );
    assert!(result.is_err());

    match result {
        Err(ProfileError::SshKeyNotFound(_)) => {
            // Expected error
        }
        _ => panic!("Expected SshKeyNotFound error"),
    }
}

#[test]
fn test_get_current_status_no_profiles() {
    let switcher = create_test_environment();

    let status = switcher.get_current_status(None, None).unwrap();
    assert!(status.global.is_none());
    assert!(status.local.is_none());
}

#[test]
fn test_find_profile_by_credentials() {
    let mut switcher = create_test_environment();

    // Create a profile
    let profile = Profile {
        name: "test".to_string(),
        username: "testuser".to_string(),
        email: "test@example.com".to_string(),
        ssh_key_name: "id_rsa".to_string(),
    };

    let _ = switcher.profile_manager.create_profile(profile.clone());

    // Find by credentials
    let found = switcher
        .find_profile_by_credentials("testuser", "test@example.com")
        .unwrap();

    assert!(found.is_some());
    let found_profile = found.unwrap();
    assert_eq!(found_profile.name, "test");
    assert_eq!(found_profile.username, "testuser");

    // Try with wrong credentials
    let not_found = switcher
        .find_profile_by_credentials("wronguser", "wrong@example.com")
        .unwrap();
    assert!(not_found.is_none());
}

#[test]
fn test_status_resolves_identities() {
    let mut switcher = create_test_environment();
    let profile = Profile {
        name: "work".to_string(),
        username: "jdoe".to_string(),
        email: "j@co.com".to_string(),
        ssh_key_name: "id_rsa_work".to_string(),
    };
    switcher.profile_manager.create_profile(profile).unwrap();

    let status = switcher
        .get_current_status(
            Some(("jdoe".to_string(), "j@co.com".to_string())),
            Some(("someone".to_string(), "else@co.com".to_string())),
        )
        .unwrap();
    assert_eq!(status.global.as_ref().map(|p| p.name.as_str()), Some("work"));
    assert!(status.local.is_none());
}

#[test]
fn test_status_first_match_wins() {
    let mut switcher = create_test_environment();
    for name in ["alpha", "beta"] {
        switcher
            .profile_manager
            .create_profile(Profile {
                name: name.to_string(),
                username: "same".to_string(),
                email: "same@co.com".to_string(),
                ssh_key_name: "id_rsa".to_string(),
            })
            .unwrap();
    }
    let found = switcher
        .find_profile_by_credentials("same", "same@co.com")
        .unwrap()
        .unwrap();
    assert_eq!(found.name, "alpha");
}
