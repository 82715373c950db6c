use base64::Engine;
use gif_library::media::MediaRecord;
use gif_library::transfer::{tally_import, ItemOutcome};
use gif_library::transfer::{
    add_destination, check_conflict_strategy, check_transfer, check_transfer_size, conflict_key,
    destination_to_check, export_item, export_transfer, folder_path_components, import_file_selection, item_action,
    normalize_names, prepare_library_item, preview_transfer, scope_check, validate_import_file_path,
    validate_transfer_header, ConflictKey, FileFacts, ImportTally, ItemAction, ManagedFiles, PreviewTally, ScopeCheck,
    TransferFile, TransferHeader, TransferItem, FORMAT_VERSION,
};

fn encode(bytes: &[u8]) -> String {
    base64::engine::general_purpose::STANDARD.encode(bytes)
}

fn local_item(title: &str, bytes: &[u8]) -> TransferItem {
    TransferItem {
        title: title.into(),
        source_kind: "local_file".into(),
        remote_url: None,
        external_url: None,
        hosted_url: None,
        original_filename: Some(format!("{title}.gif")),
        media_type: "gif".into(),
        file_hash: None,
        notes: String::new(),
        folder_paths: Vec::new(),
        tag_names: Vec::new(),
        alias_names: Vec::new(),
        media_base64: Some(encode(bytes)),
        thumbnail_base64: None,
    }
}

fn remote_item(title: &str) -> TransferItem {
    TransferItem {
        title: title.into(),
        source_kind: "remote_url".into(),
        remote_url: Some(format!("https://example.com/{title}.gif")),
        external_url: Some(format!("https://example.com/{title}.gif")),
        hosted_url: None,
        original_filename: None,
        media_type: "gif".into(),
        file_hash: None,
        notes: String::new(),
        folder_paths: Vec::new(),
        tag_names: Vec::new(),
        alias_names: Vec::new(),
        media_base64: None,
        thumbnail_base64: None,
    }
}

#[test]
fn headers_need_version_one_and_a_known_kind() {
    assert!(validate_transfer_header(Some(FORMAT_VERSION), "library").is_ok());
    assert!(validate_transfer_header(Some(1), "aliases").is_ok());
    assert_eq!(validate_transfer_header(None, "library").unwrap_err(), "import file is missing version");
    assert_eq!(validate_transfer_header(Some(2), "library").unwrap_err(), "unsupported import version: 2");
    assert_eq!(validate_transfer_header(Some(1), "tags").unwrap_err(), "unsupported import type");
    let file = TransferFile { version: 7, kind: "library".into(), items: Vec::new() };
    assert_eq!(check_transfer(file).err().unwrap(), "unsupported import version: 7");
    assert!(check_transfer_size("{}").is_ok());
}

#[test]
fn streamed_header_requires_kind_before_items() {
    let mut header = TransferHeader::new();
    assert_eq!(header.on_items().unwrap_err(), "import file must declare kind before items");
    assert_eq!(header.on_kind("tags".into()).unwrap_err(), "unsupported import type");
    header.on_kind("aliases".into()).unwrap();
    assert_eq!(header.on_items().unwrap_err(), "import file is missing version");
    header.on_version(1);
    assert_eq!(header.on_items().unwrap(), "aliases");
    let mut unfinished = TransferHeader::new();
    unfinished.on_version(1);
    unfinished.on_kind("library".into()).unwrap();
    assert_eq!(unfinished.finish().unwrap_err(), "import file is missing items");
    header.on_items_done();
    assert_eq!(header.finish().unwrap(), "aliases");
    assert_eq!(TransferHeader::new().finish().unwrap_err(), "import file is missing kind");
}

#[test]
fn import_decisions_follow_kind_conflict_and_strategy() {
    assert!(check_conflict_strategy("skip").is_ok());
    assert_eq!(check_conflict_strategy("merge").unwrap_err(), "invalid conflict strategy");
    assert!(matches!(item_action("aliases", Some(4), true, "skip"), ItemAction::AliasMerge(4)));
    assert!(matches!(item_action("aliases", Some(4), false, "skip"), ItemAction::AliasUnmatched));
    assert!(matches!(item_action("aliases", None, true, "skip"), ItemAction::AliasUnmatched));
    assert!(matches!(item_action("library", Some(4), true, "skip"), ItemAction::SkipDuplicate));
    assert!(matches!(item_action("library", Some(4), true, "import_anyway"), ItemAction::Import));
    assert!(matches!(item_action("library", None, true, "skip"), ItemAction::Import));
    assert!(matches!(scope_check(None), ScopeCheck::Everything));
    assert!(matches!(scope_check(Some(-1)), ScopeCheck::Uncategorized));
    assert!(matches!(scope_check(Some(3)), ScopeCheck::Folder(3)));
    assert_eq!(destination_to_check("aliases", Some(-1)), None);
    assert_eq!(destination_to_check("library", Some(-1)), Some(-1));
    assert_eq!(destination_to_check("library", None), None);
}

#[test]
fn conflicts_are_found_by_hash_then_trimmed_link() {
    let mut item = remote_item("x");
    item.remote_url = Some("  https://example.com/x.gif ".into());
    assert!(matches!(conflict_key(&item), ConflictKey::RemoteUrl(u) if u == "https://example.com/x.gif"));
    item.file_hash = Some(" h ".into());
    assert!(matches!(conflict_key(&item), ConflictKey::Hash(h) if h == " h "));
    let mut none = remote_item("y");
    none.remote_url = None;
    assert!(matches!(conflict_key(&none), ConflictKey::NoKey));
}

#[test]
fn import_tally_reports_links_and_aliases() {
    let mut tally = ImportTally::new();
    tally.item_imported(false);
    tally.duplicate_skipped();
    tally.alias_unmatched("match".into(), 2);
    tally.alias_matched();
    tally.alias_written(true);
    tally.alias_written(false);
    tally.alias_item_done();
    let result = tally.finish();
    assert_eq!(result.imported, 2);
    assert_eq!(result.imported_files, 0);
    assert_eq!(result.imported_links, 1);
    assert_eq!(result.skipped, 2);
    assert_eq!(result.skipped_duplicates, 1);
    assert_eq!(result.unmatched_aliases, vec!["match".to_string()]);
    assert_eq!(result.alias_matched_records, 1);
    assert_eq!(result.aliases_added, 1);
    assert_eq!(result.aliases_skipped, 3);
    assert_eq!(result.skipped_unsupported, 0);
}

#[test]
fn base64_round_trips_and_reports_bad_text() {
    let record = export_record(1, "Round", "local_file", Vec::new());
    let files = Some(ManagedFiles { media: b"GIF89a-valid".to_vec(), thumbnail: Some(b"thumb".to_vec()) });
    let item = export_item(record, "library", files);
    assert_eq!(item.media_base64.as_deref(), Some("R0lGODlhLXZhbGlk"));
    assert_eq!(item.thumbnail_base64.as_deref(), Some("dGh1bWI="));
    let restored = prepare_library_item(item, Vec::new(), 3).ok().unwrap();
    assert_eq!(restored.media_file.unwrap().1, b"GIF89a-valid".to_vec());
    assert_eq!(restored.thumbnail_file.unwrap(), ("3.thumb.webp".to_string(), b"thumb".to_vec()));
    let mut bad = local_item("bad", b"GIF89a");
    bad.media_base64 = Some("***".into());
    assert!(prepare_library_item(bad, Vec::new(), 3).err().unwrap().starts_with("invalid local media data: "));
}

#[test]
fn library_items_are_decoded_checked_and_normalised() {
    let valid = prepare_library_item(local_item("valid", b"GIF89a-valid"), vec![2], 99).ok().unwrap();
    assert_eq!(valid.media_file.as_ref().unwrap().0, "99.gif");
    assert_eq!(valid.media_file.as_ref().unwrap().1, b"GIF89a-valid".to_vec());
    assert_eq!(valid.input.storage_filename.as_deref(), Some("99.gif"));
    assert_eq!(valid.input.file_hash.as_deref(), Some("3bad0aa38c4fb5540e751c88fd49b5a990210369f247a13fab3acf30bd31be2d"));
    assert_eq!(valid.input.folder_ids, vec![2]);
    assert!(valid.thumbnail_file.is_none());
    let invalid = prepare_library_item(local_item("invalid", b"not-an-image"), Vec::new(), 99);
    assert_eq!(invalid.err().unwrap(), "file contents do not match a supported image format");
    let mut missing = local_item("missing", b"GIF89a");
    missing.media_base64 = None;
    assert_eq!(prepare_library_item(missing, Vec::new(), 1).err().unwrap(), "local item is missing media data");
    let mut big_thumb = local_item("thumb", b"GIF89a");
    big_thumb.thumbnail_base64 = Some(encode(&vec![0u8; 5 * 1024 * 1024 + 1]));
    assert_eq!(prepare_library_item(big_thumb, Vec::new(), 1).err().unwrap(), "imported thumbnail exceeds 5 MB");
    let link = prepare_library_item(remote_item("ferris"), add_destination(Vec::new(), Some(1)), 5).ok().unwrap();
    assert!(link.media_file.is_none());
    assert_eq!(link.input.folder_ids, vec![1]);
    assert_eq!(link.input.external_url.as_deref(), Some("https://example.com/ferris.gif"));
}

#[test]
fn folder_paths_split_on_spaced_slashes() {
    assert_eq!(folder_path_components("Parent / Child"), vec!["Parent".to_string(), "Child".to_string()]);
    assert_eq!(folder_path_components(" A /  / B/C "), vec!["A".to_string(), "B/C".to_string()]);
    assert!(folder_path_components("   ").is_empty());
    assert_eq!(add_destination(vec![1, 3], Some(3)), vec![1, 3]);
    assert_eq!(add_destination(vec![1, 3], Some(2)), vec![1, 3, 2]);
    assert_eq!(normalize_names(vec![" b".into(), "B".into(), "a".into()]), vec!["a".to_string(), "b".to_string()]);
}

fn export_record(id: i64, title: &str, kind: &str, aliases: Vec<String>) -> MediaRecord {
    MediaRecord {
        id,
        title: title.into(),
        source_kind: kind.into(),
        remote_url: None,
        external_url: None,
        storage_filename: Some(format!("{id}.gif")),
        original_filename: None,
        media_type: "gif".into(),
        file_hash: None,
        notes: "note".into(),
        created_at: String::new(),
        updated_at: String::new(),
        hosted_url: None,
        hosted_object_key: None,
        hosted_at: None,
        use_count: 0,
        last_used_at: None,
        has_manual_preview: false,
        folder_names: vec!["Parent / Child".into()],
        folder_ids: vec![2],
        tag_names: vec!["t".into()],
        alias_names: aliases,
    }
}

#[test]
fn exports_keep_scope_and_describe_records() {
    let records = vec![
        export_record(1, "Included", "local_file", Vec::new()),
        export_record(2, "Excluded", "remote_url", vec!["x".into()]),
    ];
    let files = vec![Some(ManagedFiles { media: b"GIF89a".to_vec(), thumbnail: None }), None];
    let transfer = export_transfer(records, "library", Some(vec![1]), files);
    assert_eq!(transfer.version, 1);
    assert_eq!(transfer.items.len(), 1);
    assert_eq!(transfer.items[0].title, "Included");
    assert_eq!(transfer.items[0].folder_paths, vec!["Parent / Child".to_string()]);
    assert_eq!(transfer.items[0].media_base64.as_deref(), Some("R0lGODlh"));
    let aliases = export_transfer(
        vec![export_record(1, "A", "remote_url", Vec::new()), export_record(2, "B", "remote_url", vec!["x".into()])],
        "aliases",
        None,
        vec![None, None],
    );
    assert_eq!(aliases.items.len(), 1);
    assert_eq!(aliases.items[0].title, "B");
    assert!(aliases.items[0].notes.is_empty());
    assert!(aliases.items[0].tag_names.is_empty());
}

#[test]
fn previews_count_kinds_conflicts_and_unmatched_aliases() {
    let file = TransferFile {
        version: 1,
        kind: "aliases".into(),
        items: vec![local_item("one", b"GIF89a"), remote_item("two"), remote_item("three")],
    };
    let preview = preview_transfer(file, &vec![true, false, false]);
    assert_eq!(preview.item_count, 3);
    assert_eq!(preview.local_file_count, 1);
    assert_eq!(preview.remote_url_count, 2);
    assert_eq!(preview.conflicts, vec!["one".to_string()]);
    assert_eq!(preview.alias_match_count, 1);
    assert_eq!(preview.alias_unmatched, vec!["two".to_string(), "three".to_string()]);
    let mut capped = PreviewTally::new(true);
    for n in 0..105 {
        capped.record("library", "remote_url", format!("t{n}"), true);
    }
    let preview = capped.finish("library".into());
    assert_eq!(preview.conflict_count, 105);
    assert_eq!(preview.conflicts.len(), 100);
}

#[test]
fn picked_import_files_are_checked() {
    assert_eq!(
        validate_import_file_path("a.json", Err("denied".into())).unwrap_err(),
        "failed to read import file: denied"
    );
    assert_eq!(
        validate_import_file_path("dir", Ok(FileFacts { is_file: false, len: 0 })).unwrap_err(),
        "The selected import path is not a file."
    );
    assert_eq!(
        validate_import_file_path("big.json", Ok(FileFacts { is_file: true, len: 10 * 1024 * 1024 * 1024 + 1 })).unwrap_err(),
        "import file is too large; maximum import size is 10 GB"
    );
    let selection =
        import_file_selection("backup.json", Ok(FileFacts { is_file: true, len: 12 }), Ok(12)).ok().unwrap();
    assert_eq!(selection.file_name, "backup.json");
    assert_eq!(selection.size_bytes, 12);
}

#[test]
fn alias_exports_carry_no_file_data() {
    let record = export_record(1, "Local", "local_file", vec!["x".into()]);
    let files = Some(ManagedFiles { media: b"GIF89a".to_vec(), thumbnail: Some(b"t".to_vec()) });
    let item = export_item(record, "aliases", files);
    assert!(item.media_base64.is_none());
    assert!(item.thumbnail_base64.is_none());
    let remote = export_record(2, "Link", "remote_url", Vec::new());
    let item = export_item(remote, "library", Some(ManagedFiles { media: b"GIF89a".to_vec(), thumbnail: None }));
    assert!(item.media_base64.is_none());
}

#[test]
fn import_counts_every_item_once() {
    let library = tally_import(&vec![
        ItemOutcome::Imported { is_file: true },
        ItemOutcome::Imported { is_file: false },
        ItemOutcome::Duplicate,
    ]);
    assert_eq!((library.imported, library.skipped), (2, 1));
    assert_eq!((library.imported_files, library.imported_links, library.skipped_duplicates), (1, 1, 1));
    let aliases = tally_import(&vec![
        ItemOutcome::AliasesSkipped { title: "a".into(), alias_count: 2 },
        ItemOutcome::AliasesMerged { added: vec![true, false] },
    ]);
    assert_eq!((aliases.imported, aliases.skipped), (1, 1));
    assert_eq!(aliases.unmatched_aliases, vec!["a".to_string()]);
    assert_eq!((aliases.alias_matched_records, aliases.aliases_added, aliases.aliases_skipped), (1, 1, 3));
    assert_eq!(aliases.skipped_unsupported, 0);
}
