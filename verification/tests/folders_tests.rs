use gif_library::folders::{available_name, check_delete_mode, validate_name};

#[test]
fn folder_names_are_trimmed_and_bounded() {
    assert_eq!(validate_name("  Memes ").unwrap(), "Memes");
    assert_eq!(validate_name("   ").unwrap_err(), "folder name cannot be empty");
    assert!(validate_name(&"a".repeat(80)).is_ok());
    assert_eq!(validate_name(&"a".repeat(81)).unwrap_err(), "folder name cannot exceed 80 characters");
    assert_eq!(validate_name(&"é".repeat(41)).unwrap_err(), "folder name cannot exceed 80 characters");
}

#[test]
fn sibling_names_get_numbered_suffixes() {
    let siblings = vec!["memes".to_string(), "Memes(1)".to_string(), "Other".to_string()];
    assert_eq!(available_name("Memes", &siblings), "Memes(2)");
    assert_eq!(available_name("New", &siblings), "New");
    assert_eq!(available_name("Other", &Vec::new()), "Other");
    assert!(check_delete_mode("reparent").is_ok());
    assert!(check_delete_mode("delete_subtree").is_ok());
    assert_eq!(check_delete_mode("purge").unwrap_err(), "invalid folder deletion mode");
}
