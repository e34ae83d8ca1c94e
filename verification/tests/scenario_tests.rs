use gex::error::ProfileError;
use gex::git::{ConfigScope, GitConfigManager};
use gex::profile::Profile;
use gex::ssh::SSHConfigManager;
use gex::switcher::ProfileSwitcher;

fn work_profile() -> Profile {
    Profile {
        name: "work".to_string(),
        username: "jdoe".to_string(),
        email: "j@co.com".to_string(),
        ssh_key_name: "id_rsa_work".to_string(),
    }
}

#[test]
fn test_switch_local_without_repository() {
    // Collection empty, then one profile created; a local switch with no
    // repository present fails before any SSH text is produced.
    let mut switcher = ProfileSwitcher::new().unwrap();
    assert_eq!(switcher.profile_manager.get_all_profiles().unwrap().len(), 0);
    switcher.profile_manager.create_profile(work_profile()).unwrap();

    let ssh_text = "Host unrelated\n  HostName example.com\n".to_string();
    let result = switcher.switch_profile(
        "work",
        ConfigScope::Local,
        true,
        "/home/tester/.ssh/id_rsa_work",
        false,
    );
    assert!(matches!(result, Err(ProfileError::NotGitRepo)));

    // No plan was produced, so the SSH text was never rewritten.
    assert_eq!(ssh_text, "Host unrelated\n  HostName example.com\n");
}

#[test]
fn test_switch_global_without_key() {
    // Same profile, SSH key file absent: the switch fails before any
    // identity setting is produced.
    let mut switcher = ProfileSwitcher::new().unwrap();
    switcher.profile_manager.create_profile(work_profile()).unwrap();

    let result = switcher.switch_profile(
        "work",
        ConfigScope::Global,
        false,
        "/home/tester/.ssh/id_rsa_work",
        false,
    );
    match result {
        Err(ProfileError::SshKeyNotFound(path)) => {
            assert_eq!(path, "/home/tester/.ssh/id_rsa_work");
        }
        other => panic!("Expected SshKeyNotFound, got: {:?}", other),
    }
}

#[test]
fn test_switch_success_plan() {
    let mut switcher = ProfileSwitcher::new().unwrap();
    switcher.profile_manager.create_profile(work_profile()).unwrap();

    let plan = switcher
        .switch_profile("work", ConfigScope::Global, true, "/home/tester/.ssh/id_rsa_work", false)
        .unwrap();
    assert_eq!(plan.profile.name, "work");
    assert!(matches!(plan.scope, ConfigScope::Global));
    assert_eq!(
        plan.settings,
        vec![
            ("user.name".to_string(), "jdoe".to_string()),
            ("user.email".to_string(), "j@co.com".to_string()),
        ]
    );
}

#[test]
fn test_scope_flags() {
    assert_eq!(ConfigScope::Global.as_flag(), "--global");
    assert_eq!(ConfigScope::Local.as_flag(), "--local");
}

#[test]
fn test_config_args() {
    assert_eq!(
        GitConfigManager::set_config_args(ConfigScope::Global, "user.name", "jdoe"),
        vec!["config", "--global", "user.name", "jdoe"]
    );
    assert_eq!(
        GitConfigManager::get_config_args(ConfigScope::Local, "user.email"),
        vec!["config", "--local", "user.email"]
    );
}

#[test]
fn test_interpret_git_output() {
    let ok = gex::git::interpret_git_output(true, "  value \n", "");
    assert_eq!(ok.unwrap(), "value");

    let err = gex::git::interpret_git_output(false, "", "  boom \n");
    match err {
        Err(ProfileError::InvalidInput(msg)) => {
            assert_eq!(msg, "Git command failed: boom");
        }
        other => panic!("Expected InvalidInput, got: {:?}", other),
    }
}

#[test]
fn test_get_config_interpretation() {
    let found = GitConfigManager::get_config(Ok("jdoe".to_string()));
    assert_eq!(found.unwrap(), Some("jdoe".to_string()));

    let unset = GitConfigManager::get_config(Err(ProfileError::InvalidInput(
        "Git command failed: key not found".to_string(),
    )));
    assert_eq!(unset.unwrap(), None);

    let failed = GitConfigManager::get_config(Err(ProfileError::GitNotInstalled));
    assert!(matches!(failed, Err(ProfileError::GitNotInstalled)));
}

#[test]
fn test_set_config_interpretation() {
    assert!(GitConfigManager::set_config(Ok("".to_string())).is_ok());
    let failed = GitConfigManager::set_config(Err(ProfileError::GitNotInstalled));
    assert!(matches!(failed, Err(ProfileError::GitNotInstalled)));
}

#[test]
fn test_get_current_profile_combination() {
    let both = GitConfigManager::get_current_profile(
        Some("jdoe".to_string()),
        Some("j@co.com".to_string()),
    );
    assert_eq!(both.unwrap(), Some(("jdoe".to_string(), "j@co.com".to_string())));

    let missing_email = GitConfigManager::get_current_profile(Some("jdoe".to_string()), None);
    assert_eq!(missing_email.unwrap(), None);

    let neither = GitConfigManager::get_current_profile(None, None);
    assert_eq!(neither.unwrap(), None);
}

#[test]
fn test_apply_profile_requires_repository() {
    let profile = work_profile();
    let refused = GitConfigManager::apply_profile(&profile, ConfigScope::Local, false);
    assert!(matches!(refused, Err(ProfileError::NotGitRepo)));

    let applied = GitConfigManager::apply_profile(&profile, ConfigScope::Local, true).unwrap();
    assert_eq!(applied.len(), 2);
    assert_eq!(applied[0], ("user.name".to_string(), "jdoe".to_string()));
    assert_eq!(applied[1], ("user.email".to_string(), "j@co.com".to_string()));
}

#[test]
fn test_error_suggestion_policy() {
    assert!(ProfileError::ProfileNotFound("x".to_string()).should_show_suggestion());
    assert!(ProfileError::NotGitRepo.should_show_suggestion());
    assert!(!ProfileError::Io("disk".to_string()).should_show_suggestion());
}

#[test]
fn test_upsert_appends_separator_once() {
    // The rendered text keeps a single blank line between the old content
    // and the appended block, even across repeated upserts.
    let manager = SSHConfigManager { config_path: "/tmp/ssh_config".to_string() };
    let profile = work_profile();
    let base = "Host other\n  HostName example.org\n";
    let once = manager
        .update_config_content(base, &profile, "/home/tester/.ssh/id_rsa_work")
        .unwrap();
    let expected = "Host other\n  HostName example.org\n\n# GitHub Profile: work\nHost github.com-work\n  HostName github.com\n  User git\n  IdentityFile /home/tester/.ssh/id_rsa_work\n  IdentitiesOnly yes\n";
    assert_eq!(once, expected);
    let twice = manager
        .update_config_content(&once, &profile, "/home/tester/.ssh/id_rsa_work")
        .unwrap();
    assert_eq!(twice, expected);
}
