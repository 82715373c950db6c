use gif_library::storage::{copy_file_to_clipboard, ClipboardCommand};
use gif_library::storage::{
    check_clear_manual_preview, check_local_import, check_managed_filename, clipboard_failure, drop_files_payload,
    duplicate_file_error, manual_preview_filename, mime_for_filename, mime_for_media_type,
    plan_local_import, preview_mime, safe_managed_path, validate_signature, ClipboardStep, LocalImportInput,
    ManualPreviewInput,
};

#[test]
fn validates_supported_signatures_and_rejects_video() {
    assert!(validate_signature("gif", b"GIF89a...").is_ok());
    assert!(validate_signature("mp4", b"....ftyp").is_err());
}

#[test]
fn signatures_of_every_supported_format() {
    assert!(validate_signature("gif", b"GIF87a").is_ok());
    assert!(validate_signature("gif", b"GIF8").is_err());
    assert!(validate_signature("png", &[0x89, b'P', b'N', b'G', 0x0d, 0x0a, 0x1a, 0x0a, 1]).is_ok());
    assert!(validate_signature("jpg", &[0xff, 0xd8, 0xff, 0xe0]).is_ok());
    assert!(validate_signature("jpeg", &[0xff, 0xd8, 0xff]).is_ok());
    assert!(validate_signature("webp", b"RIFF\x00\x00\x00\x00WEBPVP8 ").is_ok());
    assert!(validate_signature("webp", b"RIFF\x00\x00\x00\x00WEBX").is_err());
    assert_eq!(
        validate_signature("png", b"GIF89a").unwrap_err(),
        "file contents do not match a supported image format"
    );
}

#[test]
fn mime_types_follow_type_and_file_name() {
    assert_eq!(mime_for_media_type("jpeg"), "image/jpeg");
    assert_eq!(mime_for_media_type("mp4"), "application/octet-stream");
    assert_eq!(mime_for_filename("12.thumb.webp"), "image/webp");
    assert_eq!(mime_for_filename("12.manual-preview.PNG"), "image/png");
    assert_eq!(mime_for_filename("noextension"), "application/octet-stream");
    assert_eq!(preview_mime("gif", &None), "image/gif");
    assert_eq!(preview_mime("gif", &Some("3.manual-preview.jpg".to_string())), "image/jpeg");
}

#[test]
fn file_hash_is_lowercase_sha256_hex() {
    let (_, hash) = check_local_import(&local_input(b"GIF89a".to_vec(), "gif")).unwrap();
    assert_eq!(hash, "610f5ae4d76e332636a17bd357fd6ce99029316a99d320280d4d77a746bf29e8");
}

fn local_input(bytes: Vec<u8>, media_type: &str) -> LocalImportInput {
    LocalImportInput {
        title: " Reaction ".into(),
        original_filename: "reaction.gif".into(),
        media_type: media_type.into(),
        external_url: Some("https://example.com/r".into()),
        bytes,
        thumbnail_bytes: Vec::new(),
        notes: String::new(),
        folder_names: Vec::new(),
        folder_ids: vec![4, 4],
        tag_names: Vec::new(),
        alias_names: Vec::new(),
        import_anyway: false,
    }
}

#[test]
fn local_import_checks_then_names_managed_files() {
    assert_eq!(
        check_local_import(&local_input(Vec::new(), "gif")).err().unwrap(),
        "file must be between 1 byte and 50 MB"
    );
    assert_eq!(
        check_local_import(&local_input(b"nope".to_vec(), "gif")).err().unwrap(),
        "file contents do not match a supported image format"
    );
    let input = local_input(b"GIF89a-data".to_vec(), " GIF ");
    let (media_type, hash) = check_local_import(&input).unwrap();
    assert_eq!(media_type, "gif");
    assert_eq!(hash, "cb200a70562d328ad9647062942479764305c72c8f0f62f6ce1f7baab88f9e69");
    let plan = plan_local_import(input, media_type, hash.clone(), 1234).unwrap();
    assert_eq!(plan.storage_filename, "1234.gif");
    assert_eq!(plan.thumbnail_filename, "1234.thumb.webp");
    assert_eq!(plan.input.title, "Reaction");
    assert_eq!(plan.input.storage_filename.as_deref(), Some("1234.gif"));
    assert_eq!(plan.input.file_hash.as_deref(), Some(hash.as_str()));
    assert_eq!(plan.input.folder_ids, vec![4]);
    let jpeg = plan_local_import(local_input(vec![0xff, 0xd8, 0xff], "jpeg"), "jpeg".into(), "h".into(), 7).unwrap();
    assert_eq!(jpeg.storage_filename, "7.jpg");
    assert_eq!(duplicate_file_error("Old"), "DUPLICATE_FILE:Old");
}

#[test]
fn manual_previews_are_checked_and_named() {
    let ok = ManualPreviewInput { media_type: "PNG".into(), bytes: vec![0x89, b'P', b'N', b'G', 0x0d, 0x0a, 0x1a, 0x0a] };
    assert_eq!(manual_preview_filename(&ok, 55).unwrap(), "55.manual-preview.png");
    let empty = ManualPreviewInput { media_type: "png".into(), bytes: Vec::new() };
    assert_eq!(manual_preview_filename(&empty, 1).unwrap_err(), "preview file must be between 1 byte and 10 MB");
    assert_eq!(
        check_clear_manual_preview(None).unwrap_err(),
        "This media item does not have an uploaded preview."
    );
    assert_eq!(
        check_clear_manual_preview(Some("5.thumb.webp".into())).unwrap_err(),
        "Only uploaded manual previews can be cleared."
    );
    assert_eq!(check_clear_manual_preview(Some("5.manual-preview.png".into())).unwrap(), "5.manual-preview.png");
}

#[test]
fn managed_names_must_be_single_components() {
    assert!(check_managed_filename("1.gif").is_ok());
    assert_eq!(check_managed_filename("../1.gif").unwrap_err(), "invalid managed filename");
    assert!(check_managed_filename("").is_err());
    let dir = std::path::PathBuf::from("media");
    assert_eq!(safe_managed_path(&dir, "1.gif").unwrap(), dir.join("1.gif"));
    assert!(safe_managed_path(&dir, "a/b.gif").is_err());
}

#[test]
fn clipboard_block_has_header_path_and_terminator() {
    let payload = drop_files_payload(&vec![0x41, 0x263a]);
    assert_eq!(
        payload,
        vec![20, 0, 0, 0, 0, 0, 0, 0, 0, 0, 0, 0, 0, 0, 0, 0, 1, 0, 0, 0, 0x41, 0, 0x3a, 0x26, 0, 0, 0, 0]
    );
    assert_eq!(clipboard_failure(ClipboardStep::Open, "busy"), "could not open the clipboard: busy");
    assert_eq!(clipboard_failure(ClipboardStep::Lock, "x"), "could not lock clipboard memory");
}

#[test]
fn clipboard_copy_runs_its_steps_in_order_and_cleans_up_failures() {
    let mut last = None;
    let mut seen = Vec::new();
    loop {
        match copy_file_to_clipboard(last, true, "") {
            ClipboardCommand::Run(step) => {
                seen.push(step);
                last = Some(step);
            }
            ClipboardCommand::Done => break,
            ClipboardCommand::Abort { .. } => panic!("no step failed"),
        }
    }
    assert_eq!(
        seen,
        vec![ClipboardStep::Open, ClipboardStep::Empty, ClipboardStep::Allocate, ClipboardStep::Lock, ClipboardStep::SetData]
    );
    match copy_file_to_clipboard(Some(ClipboardStep::Open), false, "busy") {
        ClipboardCommand::Abort { free_block, close, message } => {
            assert!(!free_block && !close);
            assert_eq!(message, "could not open the clipboard: busy");
        }
        other => panic!("unexpected {other:?}"),
    }
    match copy_file_to_clipboard(Some(ClipboardStep::Allocate), false, "x") {
        ClipboardCommand::Abort { free_block, close, message } => {
            assert!(!free_block && close);
            assert_eq!(message, "could not allocate clipboard memory");
        }
        other => panic!("unexpected {other:?}"),
    }
    match copy_file_to_clipboard(Some(ClipboardStep::SetData), false, "denied") {
        ClipboardCommand::Abort { free_block, close, message } => {
            assert!(free_block && close);
            assert_eq!(message, "could not copy the file: denied");
        }
        other => panic!("unexpected {other:?}"),
    }
}
