use gex::validator::Validator;

#[test]
fn test_validate_email() {
    // Valid emails
    assert!(Validator::validate_email("user@example.com"));
    assert!(Validator::validate_email("john.doe@company.co.uk"));
    assert!(Validator::validate_email("test+tag@domain.org"));
    assert!(Validator::validate_email("user123@test-domain.com"));

    // Invalid emails
    assert!(!Validator::validate_email(""));
    assert!(!Validator::validate_email("invalid"));
    assert!(!Validator::validate_email("@example.com"));
    assert!(!Validator::validate_email("user@"));
    assert!(!Validator::validate_email("user@domain"));
    assert!(!Validator::validate_email("user @domain.com"));
}

#[test]
fn test_validate_profile_name() {
    // Valid profile names
    assert!(Validator::validate_profile_name("personal"));
    assert!(Validator::validate_profile_name("work-account"));
    assert!(Validator::validate_profile_name("my_profile"));
    assert!(Validator::validate_profile_name("profile123"));
    assert!(Validator::validate_profile_name("a"));

    // Invalid profile names
    assert!(!Validator::validate_profile_name(""));
    assert!(!Validator::validate_profile_name("profile with spaces"));
    assert!(!Validator::validate_profile_name("profile@special"));
    assert!(!Validator::validate_profile_name("profile.dot"));
    assert!(!Validator::validate_profile_name(&"a".repeat(51))); // Too long
}

#[test]
fn test_validate_ssh_key_name() {
    // Valid SSH key names
    assert!(Validator::validate_ssh_key_name("id_rsa"));
    assert!(Validator::validate_ssh_key_name("id_ed25519"));
    assert!(Validator::validate_ssh_key_name("id_rsa_personal"));
    assert!(Validator::validate_ssh_key_name("my-key"));
    assert!(Validator::validate_ssh_key_name("key.pub"));

    // Invalid SSH key names
    assert!(!Validator::validate_ssh_key_name(""));
    assert!(!Validator::validate_ssh_key_name("key/name")); // Path separator
    assert!(!Validator::validate_ssh_key_name("key\\name")); // Path separator
    assert!(!Validator::validate_ssh_key_name("key:name")); // Invalid char
    assert!(!Validator::validate_ssh_key_name(" key")); // Leading space
    assert!(!Validator::validate_ssh_key_name("key ")); // Trailing space
    assert!(!Validator::validate_ssh_key_name(&"a".repeat(256))); // Too long
}

#[test]
fn test_validate_username() {
    // Valid GitHub usernames
    assert!(Validator::validate_username("john-doe"));
    assert!(Validator::validate_username("user123"));
    assert!(Validator::validate_username("a"));
    assert!(Validator::validate_username("my-username-123"));

    // Invalid GitHub usernames
    assert!(!Validator::validate_username(""));
    assert!(!Validator::validate_username("-username")); // Starts with hyphen
    assert!(!Validator::validate_username("username-")); // Ends with hyphen
    assert!(!Validator::validate_username("user_name")); // Underscore not allowed
    assert!(!Validator::validate_username("user name")); // Space not allowed
    assert!(!Validator::validate_username("user@name")); // Special char
    assert!(!Validator::validate_username(&"a".repeat(40))); // Too long
}

#[test]
fn test_profile_name_length_boundary() {
    assert!(Validator::validate_profile_name(&"a".repeat(50)));
    assert!(!Validator::validate_profile_name(&"a".repeat(51)));
}

#[test]
fn test_username_length_boundary() {
    assert!(Validator::validate_username(&"a".repeat(39)));
    assert!(!Validator::validate_username(&"a".repeat(40)));
}

#[test]
fn test_ssh_key_name_length_boundary() {
    assert!(Validator::validate_ssh_key_name(&"a".repeat(255)));
    assert!(!Validator::validate_ssh_key_name(&"a".repeat(256)));
}

#[test]
fn test_email_needs_domain_dot() {
    assert!(Validator::validate_email("user@example.com"));
    assert!(!Validator::validate_email("user@domain"));
    assert!(!Validator::validate_email("user@domain.c")); // one-letter top level
    assert!(!Validator::validate_email("user@@example.com"));
    assert!(!Validator::validate_email("user@example.com2")); // digit after dot
}
