use gex::error::ProfileError;
use gex::profile::Profile;
use gex::storage::{StorageData, StorageService};

#[test]
fn test_save_and_load_empty_profiles() {
    // Create empty storage data
    let data = StorageData::new();

    // Render it
    let text = StorageService::save_to_string(&data);

    // Load it back
    let loaded_result = StorageService::load_from_str(&text);
    assert!(loaded_result.is_ok(), "Failed to load: {:?}", loaded_result.err());

    let loaded_data = loaded_result.unwrap();
    assert_eq!(loaded_data.version, "1.0.0");
    assert_eq!(loaded_data.profiles.len(), 0);
}

#[test]
fn test_save_and_load_with_profiles() {
    // Create storage data with profiles
    let mut data = StorageData::new();
    data.profiles.push(Profile {
        name: "personal".to_string(),
        username: "john-doe".to_string(),
        email: "john@personal.com".to_string(),
        ssh_key_name: "id_rsa_personal".to_string(),
    });
    data.profiles.push(Profile {
        name: "work".to_string(),
        username: "john-work".to_string(),
        email: "john@company.com".to_string(),
        ssh_key_name: "id_ed25519_work".to_string(),
    });

    // Render and load back
    let text = StorageService::save_to_string(&data);
    let loaded_data = StorageService::load_from_str(&text).unwrap();
    assert_eq!(loaded_data.profiles.len(), 2);
    assert_eq!(loaded_data.profiles[0].name, "personal");
    assert_eq!(loaded_data.profiles[0].username, "john-doe");
    assert_eq!(loaded_data.profiles[1].name, "work");
    assert_eq!(loaded_data.profiles[1].email, "john@company.com");
}

#[test]
fn test_load_corrupted_json() {
    // Try to load invalid text - should return ConfigCorrupted error
    let result = StorageService::load_from_str("{ invalid json }");
    assert!(result.is_err());

    if let Err(ProfileError::ConfigCorrupted) = result {
        // Expected error
    } else {
        panic!("Expected ConfigCorrupted error, got: {:?}", result);
    }
}

#[test]
fn test_validate_config_with_valid_file() {
    let data = StorageData::new();
    let text = StorageService::save_to_string(&data);

    // Validate should return true
    assert!(StorageService::validate_config(&text));
}

#[test]
fn test_validate_config_with_corrupted_file() {
    // Validate should return false
    assert!(!StorageService::validate_config("corrupted"));
}

#[test]
fn test_json_formatting() {
    // Create and render data
    let mut data = StorageData::new();
    data.profiles.push(Profile {
        name: "test".to_string(),
        username: "testuser".to_string(),
        email: "test@example.com".to_string(),
        ssh_key_name: "id_rsa".to_string(),
    });

    let content = StorageService::save_to_string(&data);

    // Should be pretty-printed (contains newlines and indentation)
    assert!(content.contains('\n'));
    assert!(content.contains("  ")); // Indentation
    assert!(content.contains("\"version\""));
    assert!(content.contains("\"profiles\""));
}

#[test]
fn test_rendered_text_exact() {
    let data = StorageData {
        version: "1.0.0".to_string(),
        profiles: vec![Profile {
            name: "a".to_string(),
            username: "b".to_string(),
            email: "c@d.io".to_string(),
            ssh_key_name: "k".to_string(),
        }],
        last_modified: "2024-01-01T00:00:00+00:00".to_string(),
    };
    let expected = "{\n  \"version\": \"1.0.0\",\n  \"profiles\": [\n    {\n      \"name\": \"a\",\n      \"username\": \"b\",\n      \"email\": \"c@d.io\",\n      \"ssh_key_name\": \"k\"\n    }\n  ],\n  \"last_modified\": \"2024-01-01T00:00:00+00:00\"\n}";
    assert_eq!(StorageService::save_to_string(&data), expected);
}

#[test]
fn test_round_trip_with_escapes() {
    let data = StorageData {
        version: "1.0.0".to_string(),
        profiles: vec![Profile {
            name: "quote\"back\\slash".to_string(),
            username: "tab\tnewline\n".to_string(),
            email: "ctrl\u{1}char".to_string(),
            ssh_key_name: "plain".to_string(),
        }],
        last_modified: "now\r".to_string(),
    };
    let text = StorageService::save_to_string(&data);
    let loaded = StorageService::load_from_str(&text).unwrap();
    assert_eq!(loaded, data);
}

#[test]
fn test_round_trip_many_profiles() {
    let mut data = StorageData::new();
    for i in 0..5 {
        data.profiles.push(Profile {
            name: format!("p{}", i),
            username: format!("u{}", i),
            email: format!("u{}@example.com", i),
            ssh_key_name: format!("id_rsa_{}", i),
        });
    }
    let text = StorageService::save_to_string(&data);
    let loaded = StorageService::load_from_str(&text).unwrap();
    assert_eq!(loaded, data);
}

#[test]
fn test_load_rejects_truncated_text() {
    let data = StorageData::new();
    let mut text = StorageService::save_to_string(&data);
    text.pop();
    let result = StorageService::load_from_str(&text);
    assert!(matches!(result, Err(ProfileError::ConfigCorrupted)));
}
