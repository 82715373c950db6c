use gif_library::media::{
    check_restore_states, normalize, normalize_ids, normalize_labels, normalize_match_text, normalize_url, non_empty,
    is_manual_preview_name, plan_media_folder_changes, trim_optional, validate_http_url, FolderMembershipChange,
    MediaInput,
};

fn remote_input() -> MediaInput {
    MediaInput {
        title: "Test".into(),
        source_kind: "remote_url".into(),
        remote_url: Some("https://example.com/test.gif".into()),
        external_url: None,
        storage_filename: None,
        original_filename: None,
        media_type: "gif".into(),
        file_hash: None,
        notes: String::new(),
        folder_names: Vec::new(),
        folder_ids: Vec::new(),
        tag_names: Vec::new(),
        alias_names: Vec::new(),
    }
}

#[test]
fn rejects_video_formats() {
    let mut input = remote_input();
    input.media_type = "mp4".into();
    let result = normalize(input);
    assert!(result.is_err());
}

#[test]
fn accepts_local_file_with_external_link() {
    let input = MediaInput {
        title: "Combined".into(),
        source_kind: "local_file".into(),
        remote_url: None,
        external_url: Some("https://example.com/reaction.gif".into()),
        storage_filename: Some("managed.gif".into()),
        original_filename: Some("reaction.gif".into()),
        media_type: "gif".into(),
        file_hash: Some("hash".into()),
        notes: String::new(),
        folder_names: Vec::new(),
        folder_ids: Vec::new(),
        tag_names: Vec::new(),
        alias_names: Vec::new(),
    };
    let normalized = normalize(input).unwrap();
    assert_eq!(normalized.source_kind, "local_file");
    assert_eq!(normalized.storage_filename.as_deref(), Some("managed.gif"));
    assert_eq!(
        normalized.external_url.as_deref(),
        Some("https://example.com/reaction.gif")
    );
}

#[test]
fn normalize_reports_each_rule_in_order() {
    let mut blank = remote_input();
    blank.title = "   ".into();
    assert_eq!(normalize(blank).unwrap_err(), "title cannot be empty");
    let mut bad_link = remote_input();
    bad_link.external_url = Some(" ftp://example.com/a.gif ".into());
    assert_eq!(normalize(bad_link).unwrap_err(), "externalUrl must use http:// or https://");
    let mut bad_remote = remote_input();
    bad_remote.remote_url = Some("example.com".into());
    assert_eq!(normalize(bad_remote).unwrap_err(), "remoteUrl must use http:// or https://");
    let mut both = remote_input();
    both.storage_filename = Some("a.gif".into());
    assert_eq!(normalize(both).unwrap_err(), "remote URL media requires remoteUrl and no storageFilename");
    let mut local = remote_input();
    local.source_kind = "local_file".into();
    assert_eq!(normalize(local).unwrap_err(), "local media requires storageFilename and no remoteUrl");
    let mut kind = remote_input();
    kind.source_kind = "upload".into();
    assert_eq!(normalize(kind).unwrap_err(), "sourceKind must be remote_url or local_file");
}

#[test]
fn normalize_trims_lowercases_and_cleans_labels() {
    let mut input = remote_input();
    input.title = "  Hello  ".into();
    input.media_type = " JPEG ".into();
    input.notes = " note ".into();
    input.file_hash = Some("   ".into());
    input.tag_names = vec!["  b ".into(), "A".into(), "a".into(), "  ".into()];
    input.folder_ids = vec![3, -1, 2, 3, 0];
    let out = normalize(input).unwrap();
    assert_eq!(out.title, "Hello");
    assert_eq!(out.media_type, "jpeg");
    assert_eq!(out.notes, "note");
    assert_eq!(out.file_hash, None);
    assert_eq!(out.tag_names, vec!["A".to_string(), "b".to_string()]);
    assert_eq!(out.folder_ids, vec![2, 3]);
}

#[test]
fn label_and_id_normalisation_is_idempotent_on_examples() {
    let labels = vec!["Zed".to_string(), " alpha ".to_string(), "ALPHA".to_string(), "".to_string()];
    let once = normalize_labels(labels);
    assert_eq!(once, vec!["alpha".to_string(), "Zed".to_string()]);
    assert_eq!(normalize_labels(once.clone()), once);
    let ids = normalize_ids(vec![5, 1, 5, -3]);
    assert_eq!(ids, vec![1, 5]);
    assert_eq!(normalize_ids(ids.clone()), ids);
}

#[test]
fn small_text_helpers() {
    assert_eq!(trim_optional(Some("  x ".into())), Some("x".to_string()));
    assert_eq!(trim_optional(Some("   ".into())), None);
    assert!(validate_http_url("https://a", "remoteUrl").is_ok());
    assert_eq!(validate_http_url("a", "remoteUrl").unwrap_err(), "remoteUrl must use http:// or https://");
    assert_eq!(normalize_match_text("  Shared   Title\t"), "shared title");
    assert_eq!(normalize_url("  HTTPS://Example.COM/A.gif "), "https://example.com/a.gif");
    assert_eq!(non_empty(&Some(" v ".into())), Some("v".to_string()));
    assert!(is_manual_preview_name("1.manual-preview.png"));
    assert!(!is_manual_preview_name("1.thumb.webp"));
    assert!(!is_manual_preview_name("dir/1.png"));
}

#[test]
fn bulk_folder_changes_are_deduplicated_and_checked() {
    let changes = vec![
        FolderMembershipChange { folder_id: 2, assigned: true },
        FolderMembershipChange { folder_id: 1, assigned: true },
        FolderMembershipChange { folder_id: 2, assigned: false },
    ];
    let (media, planned) = plan_media_folder_changes(vec![3, 1, 3], changes).unwrap();
    assert_eq!(media, vec![1, 3]);
    assert_eq!(planned.len(), 2);
    assert_eq!((planned[0].folder_id, planned[0].assigned), (1, true));
    assert_eq!((planned[1].folder_id, planned[1].assigned), (2, true));
    assert_eq!(
        plan_media_folder_changes(Vec::new(), vec![FolderMembershipChange { folder_id: 1, assigned: true }]).unwrap_err(),
        "Select at least one media item."
    );
    assert_eq!(
        plan_media_folder_changes(vec![1], vec![FolderMembershipChange { folder_id: 0, assigned: true }]).unwrap_err(),
        "Change at least one normal folder membership."
    );
    assert_eq!(plan_media_folder_changes(vec![1], Vec::new()).unwrap_err(), "Change at least one normal folder membership.");
    assert_eq!(check_restore_states(&Vec::new()).unwrap_err(), "No folder organization is available to undo.");
}
