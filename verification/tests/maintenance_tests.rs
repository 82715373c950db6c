use gif_library::maintenance::{
    check_wipe_confirmation, is_development_build, is_generated_preview_file, is_generated_thumbnail_name,
    png_has_actl, preview_cleanup_failure, thumbnail_needs_original, thumbnail_purgeable, uninstall_message,
};

#[test]
fn verifies_generated_thumbnail_names_without_paths() {
    assert!(is_generated_thumbnail_name("123.thumb.webp"));
    assert!(!is_generated_thumbnail_name("123.webp"));
    assert!(!is_generated_thumbnail_name("nested/123.thumb.webp"));
}

#[test]
fn detects_standard_apng_control_chunk() {
    assert!(png_has_actl(b"PNG-data-acTL-more"));
    assert!(!png_has_actl(b"PNG-data-IHDR-more"));
}

#[test]
fn actl_detection_covers_the_edges() {
    assert!(png_has_actl(b"acTL"));
    assert!(png_has_actl(b"xxacTL"));
    assert!(!png_has_actl(b"acT"));
    assert!(!png_has_actl(b""));
    assert!(!png_has_actl(b"ACTL"));
}

#[test]
fn only_static_generated_previews_are_purged() {
    assert!(!thumbnail_purgeable("png", "1.manual-preview.png", Some(&b"plain png"[..])));
    assert!(thumbnail_purgeable("jpg", "1.thumb.webp", None));
    assert!(thumbnail_purgeable("png", "1.thumb.webp", Some(&b"plain png"[..])));
    assert!(!thumbnail_purgeable("png", "1.thumb.webp", Some(&b"animated acTL png"[..])));
    assert!(!thumbnail_purgeable("png", "1.thumb.webp", None));
    assert!(thumbnail_needs_original("png", "1.thumb.webp"));
    assert!(!thumbnail_needs_original("jpeg", "1.thumb.webp"));
}

#[test]
fn wipe_requires_the_exact_word() {
    assert!(check_wipe_confirmation("Reset").is_ok());
    assert_eq!(
        check_wipe_confirmation("reset").unwrap_err(),
        "Type Reset exactly to permanently wipe the library."
    );
    assert!(is_generated_preview_file("9.thumb.webp"));
    assert!(!is_generated_preview_file("9.gif"));
    assert_eq!(preview_cleanup_failure(Some("9.thumb.webp")), "could not delete generated preview 9.thumb.webp");
    assert_eq!(preview_cleanup_failure(None), "could not delete generated preview (unknown)");
}

#[test]
fn development_builds_run_from_a_target_folder() {
    let dev = vec!["C:".to_string(), "repo".to_string(), "TARGET".to_string(), "debug".to_string()];
    let installed = vec!["C:".to_string(), "Program Files".to_string(), "GIF Library".to_string()];
    assert!(is_development_build(&dev));
    assert!(!is_development_build(&installed));
    assert!(uninstall_message(true).starts_with("Uninstaller is only available"));
    assert!(uninstall_message(false).starts_with("Opened Windows Installed Apps"));
}
