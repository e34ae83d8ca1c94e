use gex::paths;
use gex::profile::Profile;
use gex::ssh::SSHConfigManager;

fn create_ssh_manager() -> SSHConfigManager {
    SSHConfigManager { config_path: "/tmp/ssh_config".to_string() }
}

fn key_path_for(key_name: &str) -> String {
    paths::key_path_in_dir("/home/tester", key_name)
}

#[test]
fn test_get_ssh_key_path() {
    let path = paths::get_ssh_key_path("id_rsa").unwrap();
    assert!(path.contains(".ssh"));
    assert!(path.contains("id_rsa"));
}

#[test]
fn test_key_path_in_dir() {
    assert_eq!(paths::key_path_in_dir("/home/x", "id_rsa"), "/home/x/.ssh/id_rsa");
}

#[test]
fn test_add_host() {
    let manager = create_ssh_manager();

    let profile = Profile {
        name: "personal".to_string(),
        username: "john-doe".to_string(),
        email: "john@example.com".to_string(),
        ssh_key_name: "id_rsa_personal".to_string(),
    };

    let content = manager
        .update_config_content("", &profile, &key_path_for("id_rsa_personal"))
        .unwrap();

    assert!(content.contains("# GitHub Profile: personal"));
    assert!(content.contains("Host github.com-personal"));
    assert!(content.contains("HostName github.com"));
    assert!(content.contains("id_rsa_personal"));
}

#[test]
fn test_add_host_exact_block() {
    let manager = create_ssh_manager();
    let profile = Profile {
        name: "p".to_string(),
        username: "u".to_string(),
        email: "u@e.io".to_string(),
        ssh_key_name: "k".to_string(),
    };
    let content = manager.update_config_content("", &profile, "/home/tester/.ssh/k").unwrap();
    let expected = "# GitHub Profile: p\nHost github.com-p\n  HostName github.com\n  User git\n  IdentityFile /home/tester/.ssh/k\n  IdentitiesOnly yes\n";
    assert_eq!(content, expected);
}

#[test]
fn test_update_existing_host() {
    let manager = create_ssh_manager();

    // Add initial profile
    let profile1 = Profile {
        name: "work".to_string(),
        username: "john-work".to_string(),
        email: "john@work.com".to_string(),
        ssh_key_name: "id_rsa_work".to_string(),
    };
    let content1 = manager
        .update_config_content("", &profile1, &key_path_for("id_rsa_work"))
        .unwrap();

    // Update with different SSH key
    let profile2 = Profile {
        name: "work".to_string(),
        username: "john-work".to_string(),
        email: "john@work.com".to_string(),
        ssh_key_name: "id_ed25519_work".to_string(),
    };
    let content = manager
        .update_config_content(&content1, &profile2, &key_path_for("id_ed25519_work"))
        .unwrap();

    // Verify the update
    assert!(content.contains("id_ed25519_work"));
    assert!(!content.contains("id_rsa_work"));

    // Should only have one entry for "work"
    let count = content.matches("# GitHub Profile: work").count();
    assert_eq!(count, 1);
}

#[test]
fn test_remove_host() {
    let manager = create_ssh_manager();

    // Add two profiles
    let profile1 = Profile {
        name: "personal".to_string(),
        username: "john".to_string(),
        email: "john@personal.com".to_string(),
        ssh_key_name: "id_rsa_personal".to_string(),
    };
    let profile2 = Profile {
        name: "work".to_string(),
        username: "john".to_string(),
        email: "john@work.com".to_string(),
        ssh_key_name: "id_rsa_work".to_string(),
    };

    let content1 = manager
        .update_config_content("", &profile1, &key_path_for("id_rsa_personal"))
        .unwrap();
    let content2 = manager
        .update_config_content(&content1, &profile2, &key_path_for("id_rsa_work"))
        .unwrap();

    // Remove one
    let content = manager.remove_host_from_content(&content2, "personal");

    // Verify removal
    assert!(!content.contains("# GitHub Profile: personal"));
    assert!(!content.contains("github.com-personal"));
    assert!(content.contains("# GitHub Profile: work"));
    assert!(content.contains("github.com-work"));
}

#[test]
fn test_preserve_existing_entries() {
    let manager = create_ssh_manager();

    // Existing non-GitHub entries
    let existing_config = "# My custom server\nHost myserver\n  HostName example.com\n  User admin\n";

    // Add a GitHub profile
    let profile = Profile {
        name: "personal".to_string(),
        username: "john".to_string(),
        email: "john@example.com".to_string(),
        ssh_key_name: "id_rsa".to_string(),
    };
    let content = manager
        .update_config_content(existing_config, &profile, &key_path_for("id_rsa"))
        .unwrap();

    // Verify existing entry is preserved
    assert!(content.contains("# My custom server"));
    assert!(content.contains("Host myserver"));
    assert!(content.contains("# GitHub Profile: personal"));
    assert!(content.starts_with(existing_config));
}

#[test]
fn test_upsert_idempotent() {
    let manager = create_ssh_manager();
    let profile = Profile {
        name: "personal".to_string(),
        username: "john".to_string(),
        email: "john@example.com".to_string(),
        ssh_key_name: "id_rsa".to_string(),
    };
    let key_path = key_path_for("id_rsa");
    let base = "# My custom server\nHost myserver\n  HostName example.com\n";
    let once = manager.update_config_content(base, &profile, &key_path).unwrap();
    let twice = manager.update_config_content(&once, &profile, &key_path).unwrap();
    assert_eq!(once, twice);
    assert_eq!(once.matches("# GitHub Profile: personal").count(), 1);
}

#[test]
fn test_remove_after_upsert_leaves_nothing() {
    let manager = create_ssh_manager();
    let profile = Profile {
        name: "gone".to_string(),
        username: "john".to_string(),
        email: "john@example.com".to_string(),
        ssh_key_name: "id_rsa".to_string(),
    };
    let base = "Host other\n  HostName example.org\n";
    let upserted = manager
        .update_config_content(base, &profile, &key_path_for("id_rsa"))
        .unwrap();
    let removed = manager.remove_host_from_content(&upserted, "gone");
    assert_eq!(removed.matches("# GitHub Profile: gone").count(), 0);
    assert_eq!(removed.matches("github.com-gone").count(), 0);
    assert!(removed.contains("Host other"));
}

#[test]
fn test_ssh_manager_new_has_config_path() {
    let manager = SSHConfigManager::new().unwrap();
    assert!(manager.config_path.ends_with("/.ssh/config"));
}

#[test]
fn test_ssh_host_alias() {
    let profile = Profile::new(
        "personal".to_string(),
        "john".to_string(),
        "john@example.com".to_string(),
        "id_rsa".to_string(),
    );
    assert_eq!(profile.ssh_host(), "github.com-personal");
}
