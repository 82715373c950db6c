//! Media records: input normalisation and the identity rules used to find
//! duplicates.

use vstd::prelude::*;
use crate::order::{
    is_id_normal_form, is_label_normal_form, less, chars_eq, normalize_id_values, normalize_label_values, seq_lt,
    lemma_lt_total, lemma_lt_irreflexive, lemma_lt_transitive, lemma_lt_asymmetric,
};
use crate::paths::{is_own_file_name, is_plain_name};
use crate::text::{
    collapse_whitespace, collapse_ws, ends_with, has_char, has_prefix, has_suffix, lower, owned, push_str,
    starts_with, str_eq, to_lower, trim, trimmed, chars_of,
};

verus! {

/// A media item as the library lists it.
#[derive(Debug)]
pub struct MediaRecord {
    pub id: i64,
    pub title: String,
    pub source_kind: String,
    pub remote_url: Option<String>,
    pub external_url: Option<String>,
    pub storage_filename: Option<String>,
    pub original_filename: Option<String>,
    pub media_type: String,
    pub file_hash: Option<String>,
    pub notes: String,
    pub created_at: String,
    pub updated_at: String,
    pub hosted_url: Option<String>,
    pub hosted_object_key: Option<String>,
    pub hosted_at: Option<String>,
    pub use_count: i64,
    pub last_used_at: Option<String>,
    pub has_manual_preview: bool,
    pub folder_names: Vec<String>,
    pub folder_ids: Vec<i64>,
    pub tag_names: Vec<String>,
    pub alias_names: Vec<String>,
}

/// A removed record, with the preview file it referenced, kept for undo.
#[derive(Debug)]
pub struct DeletedMediaSnapshot {
    pub record: MediaRecord,
    pub thumbnail_filename: Option<String>,
}

/// The normal-folder memberships of one media item.
#[derive(Debug)]
pub struct MediaFolderState {
    pub media_id: i64,
    pub folder_ids: Vec<i64>,
}

/// The fields a caller supplies to create or update a media item.
#[derive(Debug)]
pub struct MediaInput {
    pub title: String,
    pub source_kind: String,
    pub remote_url: Option<String>,
    pub external_url: Option<String>,
    pub storage_filename: Option<String>,
    pub original_filename: Option<String>,
    pub media_type: String,
    pub file_hash: Option<String>,
    pub notes: String,
    pub folder_names: Vec<String>,
    pub folder_ids: Vec<i64>,
    pub tag_names: Vec<String>,
    pub alias_names: Vec<String>,
}

/// The view of an optional string.
pub open spec fn opt_view(o: Option<String>) -> Option<Seq<char>> {
    match o {
        Some(s) => Some(s@),
        None => None,
    }
}

/// `trim_optional`: the trimmed value, or nothing when it is blank.
pub open spec fn opt_trimmed(o: Option<String>) -> Option<Seq<char>> {
    match o {
        Some(s) => if trimmed(s@).len() > 0 {
            Some(trimmed(s@))
        } else {
            None
        },
        None => None,
    }
}

pub open spec fn is_http_url(s: Seq<char>) -> bool {
    has_prefix(s, "http://"@) || has_prefix(s, "https://"@)
}

pub open spec fn is_supported_media_type(t: Seq<char>) -> bool {
    t == "gif"@ || t == "png"@ || t == "jpg"@ || t == "jpeg"@ || t == "webp"@
}

/// `trim_optional` on a view: the trimmed value, or nothing when blank.
pub open spec fn opt_trimmed_view(o: Option<Seq<char>>) -> Option<Seq<char>> {
    match o {
        Some(s) => if trimmed(s).len() > 0 {
            Some(trimmed(s))
        } else {
            None
        },
        None => None,
    }
}

/// The first rule that a record with these fields breaks, if any, as
/// `normalize` reports it.
pub open spec fn fields_error(
    title: Seq<char>,
    source_kind: Seq<char>,
    remote_url: Option<Seq<char>>,
    external_url: Option<Seq<char>>,
    storage_filename: Option<Seq<char>>,
    media_type: Seq<char>,
) -> Option<Seq<char>> {
    let remote = opt_trimmed_view(remote_url);
    let external = opt_trimmed_view(external_url);
    let storage = opt_trimmed_view(storage_filename);
    if trimmed(title).len() == 0 {
        Some("title cannot be empty"@)
    } else if !is_supported_media_type(lower(trimmed(media_type))) {
        Some("unsupported media type; expected GIF, PNG, JPG/JPEG, or WEBP"@)
    } else if external is Some && !is_http_url(external->0) {
        Some("externalUrl must use http:// or https://"@)
    } else if remote is Some && !is_http_url(remote->0) {
        Some("remoteUrl must use http:// or https://"@)
    } else if source_kind == "remote_url"@ {
        if remote is Some && storage is None {
            None
        } else {
            Some("remote URL media requires remoteUrl and no storageFilename"@)
        }
    } else if source_kind == "local_file"@ {
        if remote is None && storage is Some {
            None
        } else {
            Some("local media requires storageFilename and no remoteUrl"@)
        }
    } else {
        Some("sourceKind must be remote_url or local_file"@)
    }
}

/// The first rule that `input` breaks, if any, as `normalize` reports it.
pub open spec fn normalize_error(input: MediaInput) -> Option<Seq<char>> {
    fields_error(
        input.title@,
        input.source_kind@,
        opt_view(input.remote_url),
        opt_view(input.external_url),
        opt_view(input.storage_filename),
        input.media_type@,
    )
}

/// Trims an optional value and drops it when blank.
pub fn trim_optional(value: Option<String>) -> (r: Option<String>)
    ensures
        opt_view(r) == opt_trimmed(value),
{
    match value {
        Some(v) => {
            let t = trim(v.as_str());
            if t.as_str().unicode_len() > 0 {
                Some(t)
            } else {
                None
            }
        },
        None => None,
    }
}

/// Checks that a link uses http or https.
pub fn validate_http_url(value: &str, field: &str) -> (r: Result<(), String>)
    ensures
        r is Ok <==> is_http_url(value@),
        r matches Err(e) ==> e@ == field@ + " must use http:// or https://"@,
{
    if starts_with(value, "http://") || starts_with(value, "https://") {
        Ok(())
    } else {
        let mut e = owned(field);
        push_str(&mut e, " must use http:// or https://");
        Err(e)
    }
}

/// Keeps the positive folder ids, sorted, without repeats.
pub fn normalize_ids(values: Vec<i64>) -> (r: Vec<i64>)
    ensures
        is_id_normal_form(r@, values@),
{
    normalize_id_values(&values)
}

/// Trims labels, drops blank ones and keeps one per case-insensitive name,
/// sorted case-insensitively.
pub fn normalize_labels(values: Vec<String>) -> (r: Vec<String>)
    ensures
        is_label_normal_form(r.deep_view(), values.deep_view()),
{
    normalize_label_values(&values)
}

/// A name that the library treats as an uploaded manual preview: a bare
/// file name that is not a generated `*.thumb.webp` preview.
pub fn is_manual_preview_name(name: &str) -> (r: bool)
    ensures
        r ==> !has_suffix(name@, ".thumb.webp"@) && name@.len() > 0 && !has_char(name@, '/') && name@ != seq!['.']
            && name@ != seq!['.', '.'],
        is_plain_name(name@) && !has_suffix(name@, ".thumb.webp"@) ==> r,
        has_suffix(name@, ".thumb.webp"@) ==> !r,
{
    is_own_file_name(name) && !ends_with(name, ".thumb.webp")
}

/// `out` holds the fields of `input` as `normalize` leaves them.
pub open spec fn normalized_from(out: MediaInput, input: MediaInput) -> bool {
    &&& out.title@ == trimmed(input.title@)
    &&& out.source_kind@ == input.source_kind@
    &&& out.media_type@ == lower(trimmed(input.media_type@))
    &&& opt_view(out.remote_url) == opt_trimmed(input.remote_url)
    &&& opt_view(out.external_url) == opt_trimmed(input.external_url)
    &&& opt_view(out.storage_filename) == opt_trimmed(input.storage_filename)
    &&& opt_view(out.original_filename) == opt_trimmed(input.original_filename)
    &&& opt_view(out.file_hash) == opt_trimmed(input.file_hash)
    &&& out.notes@ == trimmed(input.notes@)
    &&& is_label_normal_form(out.folder_names.deep_view(), input.folder_names.deep_view())
    &&& is_id_normal_form(out.folder_ids@, input.folder_ids@)
    &&& is_label_normal_form(out.tag_names.deep_view(), input.tag_names.deep_view())
    &&& is_label_normal_form(out.alias_names.deep_view(), input.alias_names.deep_view())
}

/// Validates and normalises the fields of a media item.
pub fn normalize(input: MediaInput) -> (r: Result<MediaInput, String>)
    ensures
        r is Err <==> normalize_error(input) is Some,
        r matches Err(e) ==> Some(e@) == normalize_error(input),
        r matches Ok(out) ==> normalized_from(out, input),
{
    let ghost original = input;
    let title = trim(input.title.as_str());
    if title.as_str().unicode_len() == 0 {
        return Err(owned("title cannot be empty"));
    }
    let media_type = to_lower(trim(input.media_type.as_str()).as_str());
    let mt = media_type.as_str();
    if !(str_eq(mt, "gif") || str_eq(mt, "png") || str_eq(mt, "jpg") || str_eq(mt, "jpeg") || str_eq(mt, "webp")) {
        return Err(owned("unsupported media type; expected GIF, PNG, JPG/JPEG, or WEBP"));
    }
    let remote_url = trim_optional(input.remote_url);
    let external_url = trim_optional(input.external_url);
    match &external_url {
        Some(url) => {
            if validate_http_url(url.as_str(), "externalUrl").is_err() {
                return Err(owned("externalUrl must use http:// or https://"));
            }
        },
        None => {},
    }
    match &remote_url {
        Some(url) => {
            if validate_http_url(url.as_str(), "remoteUrl").is_err() {
                return Err(owned("remoteUrl must use http:// or https://"));
            }
        },
        None => {},
    }
    let storage_filename = trim_optional(input.storage_filename);
    let kind = input.source_kind.as_str();
    if str_eq(kind, "remote_url") {
        if !(remote_url.is_some() && storage_filename.is_none()) {
            return Err(owned("remote URL media requires remoteUrl and no storageFilename"));
        }
    } else if str_eq(kind, "local_file") {
        if !(remote_url.is_none() && storage_filename.is_some()) {
            return Err(owned("local media requires storageFilename and no remoteUrl"));
        }
    } else {
        return Err(owned("sourceKind must be remote_url or local_file"));
    }
    Ok(MediaInput {
        title,
        source_kind: input.source_kind,
        remote_url,
        external_url,
        storage_filename,
        original_filename: trim_optional(input.original_filename),
        media_type,
        file_hash: trim_optional(input.file_hash),
        notes: trim(input.notes.as_str()),
        folder_names: normalize_labels(input.folder_names),
        folder_ids: normalize_ids(input.folder_ids),
        tag_names: normalize_labels(input.tag_names),
        alias_names: normalize_labels(input.alias_names),
    })
}

/// `normalize_match_text`: words joined by single spaces, ASCII lower-cased.
pub open spec fn match_text(s: Seq<char>) -> Seq<char> {
    lower(collapse_ws(s))
}

/// Text normalised for duplicate matching.
pub fn normalize_match_text(value: &str) -> (r: String)
    ensures
        r@ == match_text(value@),
{
    let collapsed = collapse_whitespace(value);
    to_lower(collapsed.as_str())
}

/// A URL normalised for duplicate matching: trimmed and ASCII lower-cased.
pub fn normalize_url(value: &str) -> (r: String)
    ensures
        r@ == lower(trimmed(value@)),
{
    to_lower(trim(value).as_str())
}

/// The trimmed value, when present and not blank.
pub fn non_empty(value: &Option<String>) -> (r: Option<String>)
    ensures
        opt_view(r) == opt_trimmed(*value),
{
    match value {
        Some(v) => {
            let t = trim(v.as_str());
            if t.as_str().unicode_len() > 0 {
                Some(t)
            } else {
                None
            }
        },
        None => None,
    }
}

/// The link that identifies a record: its external, remote or hosted URL
/// (the first that is not blank), normalised.
pub open spec fn spec_normalized_link(r: MediaRecord) -> Option<Seq<char>> {
    if opt_trimmed(r.external_url) is Some {
        Some(lower(opt_trimmed(r.external_url)->0))
    } else if opt_trimmed(r.remote_url) is Some {
        Some(lower(opt_trimmed(r.remote_url)->0))
    } else if opt_trimmed(r.hosted_url) is Some {
        Some(lower(opt_trimmed(r.hosted_url)->0))
    } else {
        None
    }
}

pub fn normalized_link(record: &MediaRecord) -> (r: Option<String>)
    ensures
        opt_view(r) == spec_normalized_link(*record),
{
    let link = match non_empty(&record.external_url) {
        Some(v) => Some(v),
        None => match non_empty(&record.remote_url) {
            Some(v) => Some(v),
            None => non_empty(&record.hosted_url),
        },
    };
    match link {
        Some(v) => Some(to_lower(v.as_str())),
        None => None,
    }
}

/// The strong identity of a record, with the reason shown for it: its file
/// hash, else its link, else its managed file name.
pub open spec fn spec_strong_identity(r: MediaRecord) -> Option<(Seq<char>, Seq<char>)> {
    if opt_trimmed(r.file_hash) is Some {
        Some(("hash:"@ + opt_trimmed(r.file_hash)->0, "file hash"@))
    } else if spec_normalized_link(r) is Some {
        Some(("url:"@ + spec_normalized_link(r)->0, "URL"@))
    } else if opt_trimmed(r.storage_filename) is Some {
        Some(("file:"@ + match_text(opt_trimmed(r.storage_filename)->0), "local path"@))
    } else {
        None
    }
}

pub open spec fn pair_view(p: Option<(String, String)>) -> Option<(Seq<char>, Seq<char>)> {
    match p {
        Some((a, b)) => Some((a@, b@)),
        None => None,
    }
}

pub fn strong_identity(record: &MediaRecord) -> (r: Option<(String, String)>)
    ensures
        pair_view(r) == spec_strong_identity(*record),
{
    match non_empty(&record.file_hash) {
        Some(value) => {
            let mut key = owned("hash:");
            push_str(&mut key, value.as_str());
            return Some((key, owned("file hash")));
        },
        None => {},
    }
    match normalized_link(record) {
        Some(value) => {
            let mut key = owned("url:");
            push_str(&mut key, value.as_str());
            return Some((key, owned("URL")));
        },
        None => {},
    }
    match non_empty(&record.storage_filename) {
        Some(value) => {
            let mut key = owned("file:");
            let text = normalize_match_text(value.as_str());
            push_str(&mut key, text.as_str());
            Some((key, owned("local path")))
        },
        None => None,
    }
}

/// One folder to add the selected media to (`assigned`) or remove them
/// from.
#[derive(Clone, Copy, Debug)]
pub struct FolderMembershipChange {
    pub folder_id: i64,
    pub assigned: bool,
}

/// No change before position `k` names the folder of change `k`.
pub open spec fn first_of_folder(changes: Seq<FolderMembershipChange>, k: int) -> bool {
    forall|m: int| 0 <= m < k ==> (#[trigger] changes[m]).folder_id != changes[k].folder_id
}

/// Some change of `r` names this folder.
pub open spec fn plans_folder(r: Seq<FolderMembershipChange>, id: i64) -> bool {
    exists|i: int| 0 <= i < r.len() && r[i].folder_id == id
}

/// `r` holds, for each folder of `changes`, its first change, ordered by
/// folder id.
pub open spec fn is_change_plan(r: Seq<FolderMembershipChange>, changes: Seq<FolderMembershipChange>) -> bool {
    &&& forall|i: int, j: int| 0 <= i < j < r.len() ==> (#[trigger] r[i]).folder_id < (#[trigger] r[j]).folder_id
    &&& forall|i: int| 0 <= i < r.len() ==> exists|k: int|
        0 <= k < changes.len() && changes[k] == #[trigger] r[i] && first_of_folder(changes, k)
    &&& forall|k: int| 0 <= k < changes.len() ==> plans_folder(r, (#[trigger] changes[k]).folder_id)
}

pub proof fn lemma_first_of_folder_push(t0: Seq<FolderMembershipChange>, c: FolderMembershipChange, k: int)
    requires
        0 <= k < t0.len(),
        first_of_folder(t0, k),
    ensures
        first_of_folder(t0.push(c), k),
{
    assert forall|m: int| 0 <= m < k implies (#[trigger] t0.push(c)[m]).folder_id != t0.push(c)[k].folder_id by {
        assert(t0.push(c)[m] == t0[m]);
    }
}

pub proof fn lemma_plan_keep(before: Seq<FolderMembershipChange>, t0: Seq<FolderMembershipChange>, c: FolderMembershipChange, p: int)
    requires
        is_change_plan(before, t0),
        0 <= p < before.len(),
        before[p].folder_id == c.folder_id,
    ensures
        is_change_plan(before, t0.push(c)),
{
    let t1 = t0.push(c);
    assert forall|i: int| 0 <= i < before.len() implies exists|kk: int|
        0 <= kk < t1.len() && t1[kk] == #[trigger] before[i] && first_of_folder(t1, kk) by {
        let kk = choose|kk: int| 0 <= kk < t0.len() && t0[kk] == #[trigger] before[i] && first_of_folder(t0, kk);
        assert(t1[kk] == before[i]);
        lemma_first_of_folder_push(t0, c, kk);
    }
    assert forall|kk: int| 0 <= kk < t1.len() implies plans_folder(before, (#[trigger] t1[kk]).folder_id) by {
        if kk < t0.len() {
            assert(t1[kk] == t0[kk]);
        } else {
            assert(before[p].folder_id == t1[kk].folder_id);
        }
    }
}

pub proof fn lemma_plan_insert(
    before: Seq<FolderMembershipChange>,
    t0: Seq<FolderMembershipChange>,
    c: FolderMembershipChange,
    p: int,
    out: Seq<FolderMembershipChange>,
)
    requires
        is_change_plan(before, t0),
        0 <= p <= before.len(),
        forall|i: int| 0 <= i < p ==> (#[trigger] before[i]).folder_id < c.folder_id,
        p < before.len() ==> before[p].folder_id > c.folder_id,
        out == before.insert(p, c),
    ensures
        is_change_plan(out, t0.push(c)),
{
    let t1 = t0.push(c);
    before.insert_ensures(p, c);
    assert forall|m: int| 0 <= m < t0.len() implies (#[trigger] t0[m]).folder_id != c.folder_id by {
        assert(plans_folder(before, t0[m].folder_id));
        let q = choose|q: int| 0 <= q < before.len() && before[q].folder_id == t0[m].folder_id;
        if q > p {
            assert(before[p].folder_id < before[q].folder_id);
        }
    }
    assert forall|i: int, j: int| 0 <= i < j < out.len() implies (#[trigger] out[i]).folder_id < (#[trigger] out[j]).folder_id by {
        if i > p {
            assert(out[i] == before[i - 1]);
        }
        if j > p {
            assert(out[j] == before[j - 1]);
        }
        if i < p && j > p && j - 1 >= p {
            assert(before[i].folder_id < before[j - 1].folder_id);
        }
        if i == p && j - 1 > p {
            assert(before[p].folder_id < before[j - 1].folder_id);
        }
    }
    assert forall|i: int| 0 <= i < out.len() implies exists|kk: int|
        0 <= kk < t1.len() && t1[kk] == #[trigger] out[i] && first_of_folder(t1, kk) by {
        if i == p {
            let kk = t0.len() as int;
            assert(t1[kk] == out[i]);
            assert forall|m: int| 0 <= m < kk implies (#[trigger] t1[m]).folder_id != t1[kk].folder_id by {
                assert(t1[m] == t0[m]);
            }
        } else {
            let oi = if i < p { i } else { i - 1 };
            assert(out[i] == before[oi]);
            let kk = choose|kk: int| 0 <= kk < t0.len() && t0[kk] == #[trigger] before[oi] && first_of_folder(t0, kk);
            assert(t1[kk] == out[i]);
            lemma_first_of_folder_push(t0, c, kk);
        }
    }
    assert forall|kk: int| 0 <= kk < t1.len() implies plans_folder(out, (#[trigger] t1[kk]).folder_id) by {
        if kk < t0.len() {
            assert(t1[kk] == t0[kk]);
            assert(plans_folder(before, t0[kk].folder_id));
            let q = choose|q: int| 0 <= q < before.len() && before[q].folder_id == t0[kk].folder_id;
            if q < p {
                assert(out[q] == before[q]);
            } else {
                assert(out[q + 1] == before[q]);
            }
        } else {
            assert(out[p].folder_id == t1[kk].folder_id);
        }
    }
}

/// Orders the changes by folder and keeps the first change of each folder.
pub fn plan_changes(changes: &Vec<FolderMembershipChange>) -> (r: Vec<FolderMembershipChange>)
    ensures
        is_change_plan(r@, changes@),
{
    let mut out: Vec<FolderMembershipChange> = Vec::new();
    let mut k: usize = 0;
    while k < changes.len()
        invariant
            k <= changes@.len(),
            is_change_plan(out@, changes@.take(k as int)),
        decreases changes@.len() - k,
    {
        let c = changes[k];
        let ghost before = out@;
        let ghost t0 = changes@.take(k as int);
        assert(changes@.take(k + 1) == t0.push(c));
        let mut p: usize = 0;
        while p < out.len() && out[p].folder_id < c.folder_id
            invariant
                p <= out@.len(),
                forall|i: int| 0 <= i < p ==> (#[trigger] out@[i]).folder_id < c.folder_id,
            decreases out@.len() - p,
        {
            p = p + 1;
        }
        if p < out.len() && out[p].folder_id == c.folder_id {
            proof {
                lemma_plan_keep(before, t0, c, p as int);
            }
        } else {
            out.insert(p, c);
            proof {
                lemma_plan_insert(before, t0, c, p as int, out@);
            }
        }
        k = k + 1;
    }
    assert(changes@.take(k as int) == changes@);
    out
}

/// What a bulk folder change applies, or why it is refused.
pub open spec fn folder_changes_error(media_ids: Seq<i64>, changes: Seq<FolderMembershipChange>) -> Option<Seq<char>> {
    if media_ids.len() == 0 {
        Some("Select at least one media item."@)
    } else if changes.len() == 0 || exists|k: int| 0 <= k < changes.len() && (#[trigger] changes[k]).folder_id <= 0 {
        Some("Change at least one normal folder membership."@)
    } else {
        None
    }
}

/// Prepares a bulk folder change: the selected media without repeats, in
/// order, and the first change of each folder; refused without media, or
/// without changes, or when a change names something other than a normal
/// folder.
pub fn plan_media_folder_changes(media_ids: Vec<i64>, folder_changes: Vec<FolderMembershipChange>) -> (r: Result<
    (Vec<i64>, Vec<FolderMembershipChange>),
    String,
>)
    ensures
        r is Err <==> folder_changes_error(media_ids@, folder_changes@) is Some,
        r matches Err(e) ==> Some(e@) == folder_changes_error(media_ids@, folder_changes@),
        r matches Ok((m, c)) ==> crate::order::is_sorted_id_set(m@, media_ids@, false) && is_change_plan(c@, folder_changes@),
{
    let media = crate::order::sorted_id_set(&media_ids, false);
    let changes = plan_changes(&folder_changes);
    if media.len() == 0 {
        proof {
            if media_ids@.len() > 0 {
                assert(media_ids@.contains(media_ids@[0]));
            }
        }
        return Err(owned("Select at least one media item."));
    }
    proof {
        assert(media_ids@.contains(media@[0]));
    }
    let mut any_bad = false;
    let mut k: usize = 0;
    while k < folder_changes.len()
        invariant
            k <= folder_changes@.len(),
            any_bad <==> exists|j: int| 0 <= j < k && (#[trigger] folder_changes@[j]).folder_id <= 0,
        decreases folder_changes@.len() - k,
    {
        if folder_changes[k].folder_id <= 0 {
            any_bad = true;
        }
        k = k + 1;
    }
    if folder_changes.len() == 0 || any_bad {
        return Err(owned("Change at least one normal folder membership."));
    }
    Ok((media, changes))
}

/// Undoing a folder organisation needs something to restore.
pub fn check_restore_states(states: &Vec<MediaFolderState>) -> (r: Result<(), String>)
    ensures
        r is Ok <==> states@.len() > 0,
        r matches Err(e) ==> e@ == "No folder organization is available to undo."@,
{
    if states.len() == 0 {
        Err(owned("No folder organization is available to undo."))
    } else {
        Ok(())
    }
}

/// The two records hold the same field values.
pub open spec fn same_fields(a: MediaInput, b: MediaInput) -> bool {
    &&& a.title@ == b.title@
    &&& a.source_kind@ == b.source_kind@
    &&& a.media_type@ == b.media_type@
    &&& opt_view(a.remote_url) == opt_view(b.remote_url)
    &&& opt_view(a.external_url) == opt_view(b.external_url)
    &&& opt_view(a.storage_filename) == opt_view(b.storage_filename)
    &&& opt_view(a.original_filename) == opt_view(b.original_filename)
    &&& opt_view(a.file_hash) == opt_view(b.file_hash)
    &&& a.notes@ == b.notes@
    &&& a.folder_names.deep_view() == b.folder_names.deep_view()
    &&& a.folder_ids@ == b.folder_ids@
    &&& a.tag_names.deep_view() == b.tag_names.deep_view()
    &&& a.alias_names.deep_view() == b.alias_names.deep_view()
}

proof fn lemma_opt_trimmed_fixed(o: Option<String>, p: Option<String>)
    requires
        opt_view(p) == opt_trimmed(o),
    ensures
        opt_trimmed(p) == opt_view(p),
{
    match o {
        Some(s) => {
            crate::text::lemma_trimmed_idempotent(s@);
        },
        None => {},
    }
}

/// Normalising a normalised record changes nothing: it is accepted again,
/// and every field comes back as it was.
pub proof fn lemma_normalize_idempotent(input: MediaInput, out: MediaInput, again: MediaInput)
    requires
        normalize_error(input) is None,
        normalized_from(out, input),
    ensures
        normalize_error(out) is None,
        normalized_from(again, out) ==> same_fields(again, out),
{
    crate::text::lemma_trimmed_idempotent(input.title@);
    crate::text::lemma_trimmed_idempotent(input.media_type@);
    crate::text::lemma_trimmed_idempotent(input.notes@);
    crate::text::lemma_lower_trimmed(trimmed(input.media_type@));
    crate::text::lemma_lower_idempotent(trimmed(input.media_type@));
    lemma_opt_trimmed_fixed(input.remote_url, out.remote_url);
    lemma_opt_trimmed_fixed(input.external_url, out.external_url);
    lemma_opt_trimmed_fixed(input.storage_filename, out.storage_filename);
    lemma_opt_trimmed_fixed(input.original_filename, out.original_filename);
    lemma_opt_trimmed_fixed(input.file_hash, out.file_hash);
    assert(opt_trimmed_view(opt_view(out.remote_url)) == opt_trimmed(out.remote_url));
    assert(opt_trimmed_view(opt_view(out.external_url)) == opt_trimmed(out.external_url));
    assert(opt_trimmed_view(opt_view(out.storage_filename)) == opt_trimmed(out.storage_filename));
    assert(opt_trimmed_view(opt_view(input.remote_url)) == opt_trimmed(input.remote_url));
    assert(opt_trimmed_view(opt_view(input.external_url)) == opt_trimmed(input.external_url));
    assert(opt_trimmed_view(opt_view(input.storage_filename)) == opt_trimmed(input.storage_filename));
    if normalized_from(again, out) {
        crate::order::lemma_label_normal_form_idempotent(
            out.folder_names.deep_view(),
            input.folder_names.deep_view(),
            again.folder_names.deep_view(),
        );
        crate::order::lemma_label_normal_form_idempotent(
            out.tag_names.deep_view(),
            input.tag_names.deep_view(),
            again.tag_names.deep_view(),
        );
        crate::order::lemma_label_normal_form_idempotent(
            out.alias_names.deep_view(),
            input.alias_names.deep_view(),
            again.alias_names.deep_view(),
        );
        crate::order::lemma_id_normal_form_idempotent(out.folder_ids@, input.folder_ids@, again.folder_ids@);
    }
}

} // verus!
