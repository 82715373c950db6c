use gif_library::export_settings::{
    available_export_path, check_export_request, display_folder_name, export_filename_base, read_view,
    sanitize_filename, valid_date,
};

#[test]
fn creates_scoped_and_alias_export_names() {
    assert_eq!(
        export_filename_base("library", None, "2026-07-12"),
        "gif-library-export-2026-07-12"
    );
    assert_eq!(
        export_filename_base("library", Some("JJK"), "2026-07-12"),
        "gif-library-export-JJK-2026-07-12"
    );
    assert_eq!(
        export_filename_base("aliases", None, "2026-07-12"),
        "gif-alias-export-2026-07-12"
    );
    assert_eq!(sanitize_filename("Bad:/Name*"), "Bad__Name_");
}

#[test]
fn sanitizing_trims_spaces_and_dots_and_drops_blank_folder_names() {
    assert_eq!(sanitize_filename("  ..Memes..  "), "Memes");
    assert_eq!(sanitize_filename(" . "), "");
    assert_eq!(
        export_filename_base("library", Some(" ... "), "2026-07-12"),
        "gif-library-export-2026-07-12"
    );
    assert_eq!(sanitize_filename("tab\tname"), "tab_name");
}

#[test]
fn export_path_takes_the_first_unused_candidate() {
    let taken = ["base.json", "base(1).json"];
    let chosen = available_export_path("base", |name: &str| taken.contains(&name)).unwrap();
    assert_eq!(chosen, "base(2).json");
    let free = available_export_path("base", |_: &str| false).unwrap();
    assert_eq!(free, "base.json");
    let none = available_export_path("base", |_: &str| true);
    assert_eq!(none.unwrap_err(), "Could not choose an unused export filename.");
}

#[test]
fn export_dates_must_be_iso_formatted() {
    assert!(valid_date("2026-07-12"));
    assert!(!valid_date("2026/07/12"));
    assert!(!valid_date("2026-7-12"));
    assert!(!valid_date("2026-07-1a"));
    assert_eq!(check_export_request("video", "2026-07-12").unwrap_err(), "invalid export kind");
    assert_eq!(check_export_request("library", "12-07-2026").unwrap_err(), "invalid export date");
    assert!(check_export_request("aliases", "2026-07-12").is_ok());
}

#[test]
fn export_folder_is_shown_by_its_last_component() {
    assert_eq!(display_folder_name("Exports"), "Exports");
    assert_eq!(display_folder_name("/home/me/Exports"), "Exports");
    let view = read_view(Some("Exports".to_string()), false);
    assert_eq!(view.folder_name.as_deref(), Some("Exports"));
    assert!(!view.exists);
    let unset = read_view(None, false);
    assert!(unset.exists);
    assert!(unset.folder_name.is_none());
}
