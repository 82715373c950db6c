use gif_library::duplicates::{
    affected_media_ids, best_record_order, duplicate_labels, duplicate_membership_removals, purge_preview,
};
use gif_library::media::{strong_identity, MediaRecord};

fn record(id: i64, title: &str, use_count: i64) -> MediaRecord {
    MediaRecord {
        id,
        title: title.into(),
        source_kind: "remote_url".into(),
        remote_url: None,
        external_url: None,
        storage_filename: None,
        original_filename: None,
        media_type: "gif".into(),
        file_hash: None,
        notes: String::new(),
        created_at: "2026-01-01T00:00:00.000Z".into(),
        updated_at: "2026-01-01T00:00:00.000Z".into(),
        hosted_url: None,
        hosted_object_key: None,
        hosted_at: None,
        use_count,
        last_used_at: None,
        has_manual_preview: false,
        folder_names: Vec::new(),
        folder_ids: Vec::new(),
        tag_names: Vec::new(),
        alias_names: Vec::new(),
    }
}

fn remote(id: i64, title: &str, url: &str, use_count: i64, folders: Vec<i64>) -> MediaRecord {
    let mut r = record(id, title, use_count);
    r.remote_url = Some(url.into());
    r.external_url = Some(url.into());
    r.folder_ids = folders;
    r
}

#[test]
fn duplicate_cleanup_detects_same_normal_folder_and_keeps_most_used() {
    let mut low = record(1, "Low", 1);
    low.source_kind = "local_file".into();
    low.storage_filename = Some("low.gif".into());
    low.file_hash = Some("same-hash".into());
    low.folder_ids = vec![1, 2];
    let mut high = record(2, "High", 5);
    high.source_kind = "local_file".into();
    high.storage_filename = Some("high.gif".into());
    high.file_hash = Some("same-hash".into());
    high.folder_ids = vec![1];
    let plan = duplicate_membership_removals(&vec![high, low]);
    assert_eq!(plan.duplicate_groups, 1);
    assert_eq!(plan.removals.len(), 1);
    assert_eq!(plan.removals[0].scope_id, 1);
    assert_eq!(plan.removals[0].media_id, 1);
    assert!(!plan.removals[0].remove_record);
}

#[test]
fn duplicate_cleanup_does_not_cross_normal_folders() {
    let one = remote(1, "Same", "https://example.com/same.gif", 1, vec![1]);
    let two = remote(2, "Same", "https://example.com/same.gif", 2, vec![2]);
    let plan = duplicate_membership_removals(&vec![two, one]);
    assert_eq!(plan.duplicate_groups, 0);
    assert!(plan.removals.is_empty());
}

#[test]
fn duplicate_cleanup_detects_uncategorized_scope() {
    let one_id = 1;
    let two_id = 2;
    let one = remote(one_id, "Same", "https://example.com/same.gif", 1, Vec::new());
    let two = remote(two_id, "Same", "https://example.com/same.gif", 2, Vec::new());
    let plan = duplicate_membership_removals(&vec![two, one]);
    assert_eq!(plan.duplicate_groups, 1);
    assert_eq!(plan.removals.len(), 1);
    assert_eq!(plan.removals[0].scope_id, 0);
    assert_eq!(plan.removals[0].media_id, one_id);
    assert!(plan.removals[0].remove_record);
    assert_ne!(plan.removals[0].media_id, two_id);
}

#[test]
fn duplicate_cleanup_does_not_cross_uncategorized_and_folder() {
    let uncategorized = remote(1, "Same", "https://example.com/same.gif", 1, Vec::new());
    let foldered = remote(2, "Same", "https://example.com/same.gif", 2, vec![1]);
    let (uncategorized_id, foldered_id) = (uncategorized.id, foldered.id);
    let plan = duplicate_membership_removals(&vec![foldered, uncategorized]);
    assert_eq!(plan.duplicate_groups, 0);
    assert!(plan.removals.is_empty());
    assert_ne!(uncategorized_id, foldered_id);
}

#[test]
fn duplicate_cleanup_does_not_cross_parent_child_folders() {
    let parent = remote(1, "Same", "https://example.com/same.gif", 1, vec![1]);
    let child = remote(2, "Same", "https://example.com/same.gif", 2, vec![2]);
    let plan = duplicate_membership_removals(&vec![child, parent]);
    assert_eq!(plan.duplicate_groups, 0);
    assert!(plan.removals.is_empty());
}

#[test]
fn duplicate_cleanup_uses_medium_metadata_but_skips_title_only() {
    let mut low = remote(1, "Shared Title", "https://example.com/one.gif", 1, vec![1]);
    low.alias_names = vec!["sparxie".into()];
    let mut high = remote(2, "shared   title", "https://example.com/two.gif", 2, vec![1]);
    high.alias_names = vec!["Sparxie".into()];
    let title_only = remote(3, "Shared Title", "https://example.com/three.gif", 0, vec![1]);
    let plan = duplicate_membership_removals(&vec![title_only, high, low]);
    assert_eq!(plan.duplicate_groups, 1);
    assert_eq!(plan.title_only_groups_skipped, 0);
    assert_eq!(plan.removals.len(), 1);
    assert_eq!(plan.removals[0].media_id, 1);
}

#[test]
fn duplicate_cleanup_skips_weak_title_only_groups() {
    let one = remote(1, "Same Title", "https://example.com/one.gif", 1, vec![1]);
    let two = remote(2, "same title", "https://example.com/two.gif", 2, vec![1]);
    let plan = duplicate_membership_removals(&vec![two, one]);
    assert_eq!(plan.duplicate_groups, 0);
    assert_eq!(plan.title_only_groups_skipped, 1);
    assert!(plan.removals.is_empty());
}

#[test]
fn duplicate_plan_reports_reasons_scopes_and_counts() {
    let a = remote(1, "A", "https://example.com/a.gif", 3, Vec::new());
    let b = remote(2, "B", "HTTPS://EXAMPLE.com/a.gif ", 1, Vec::new());
    let c = remote(3, "C", "https://example.com/a.gif", 0, Vec::new());
    let d = remote(4, "D", "https://example.com/d.gif", 0, vec![7, 8]);
    let e = remote(5, "E", "https://example.com/d.gif", 9, vec![7]);
    let plan = duplicate_membership_removals(&vec![e, d, c, b, a]);
    assert_eq!(plan.scopes_scanned, 3);
    assert_eq!(plan.duplicate_groups, 2);
    assert_eq!(plan.group_reasons.len(), 2);
    assert!(plan.group_reasons.contains(&"Uncategorized: URL; kept #1; remove #2, #3".to_string()));
    assert!(plan.group_reasons.contains(&"folder 7: URL; kept #5; remove #4".to_string()));
    let affected = affected_media_ids(&plan.removals);
    assert_eq!(affected, vec![4]);
    let preview = purge_preview(plan);
    assert_eq!(preview.membership_removals, 3);
    assert_eq!(preview.uncategorized_removals, 2);
    assert_eq!(preview.normal_folder_removals, 1);
}

#[test]
fn preferred_record_and_identity_rules() {
    let mut used = record(1, "x", 2);
    used.last_used_at = Some("2026-02-01".into());
    let mut recent = record(2, "x", 2);
    recent.last_used_at = Some("2026-03-01".into());
    assert_eq!(best_record_order(&recent, &used), std::cmp::Ordering::Less);
    assert_eq!(best_record_order(&used, &used), std::cmp::Ordering::Equal);
    let mut hashed = record(3, "x", 0);
    hashed.file_hash = Some(" abc ".into());
    hashed.remote_url = Some("https://x".into());
    assert_eq!(strong_identity(&hashed), Some(("hash:abc".to_string(), "file hash".to_string())));
    let mut stored = record(4, "x", 0);
    stored.storage_filename = Some("  My  File.GIF ".into());
    assert_eq!(strong_identity(&stored), Some(("file:my file.gif".to_string(), "local path".to_string())));
    let mut labelled = record(5, "x", 0);
    labelled.alias_names = vec!["B  b".into(), " ".into()];
    labelled.tag_names = vec!["a".into(), "b B".into()];
    assert_eq!(duplicate_labels(&labelled), vec!["a".to_string(), "b b".to_string()]);
}
