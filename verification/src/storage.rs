//! Managed media storage: which bytes are accepted as images, how managed
//! files are named, and which MIME type a preview is served with.

use vstd::prelude::*;
use crate::media::{
    is_http_url, is_supported_media_type, normalize, normalize_error, opt_trimmed, opt_view, MediaInput,
};
use crate::order::{is_id_normal_form, is_label_normal_form};
use crate::paths::{extension_of, is_own_file_name, is_plain_name, spec_extension};
use crate::text::{
    decimal, ends_with, has_char, has_suffix, lemma_decimal_value, lemma_trimmed_nonempty, lower, owned, push_str,
    str_eq, to_lower, trim, trimmed,
};

verus! {

/// Largest media file the library imports: 50 MB.
pub const MAX_IMPORT_BYTES: usize = 52428800;

/// Largest uploaded preview: 10 MB.
pub const MAX_PREVIEW_BYTES: usize = 10485760;

/// A local file to import, as the front end sends it.
#[derive(Debug)]
pub struct LocalImportInput {
    pub title: String,
    pub original_filename: String,
    pub media_type: String,
    pub external_url: Option<String>,
    pub bytes: Vec<u8>,
    pub thumbnail_bytes: Vec<u8>,
    pub notes: String,
    pub folder_names: Vec<String>,
    pub folder_ids: Vec<i64>,
    pub tag_names: Vec<String>,
    pub alias_names: Vec<String>,
    pub import_anyway: bool,
}

/// Preview bytes with the MIME type they are served as.
#[derive(Debug)]
pub struct PreviewData {
    pub bytes: Vec<u8>,
    pub mime_type: String,
}

/// An uploaded replacement preview.
#[derive(Debug)]
pub struct ManualPreviewInput {
    pub media_type: String,
    pub bytes: Vec<u8>,
}

/// `bytes` begins with `prefix`.
pub open spec fn bytes_prefix(bytes: Seq<u8>, prefix: Seq<u8>) -> bool {
    prefix.len() <= bytes.len() && bytes.take(prefix.len() as int) == prefix
}

/// The file starts with the signature of the named image format:
/// `GIF87a`/`GIF89a`, the PNG signature, the JPEG SOI marker, or a RIFF
/// container whose form type is `WEBP`.
pub open spec fn signature_ok(media_type: Seq<char>, bytes: Seq<u8>) -> bool {
    if media_type == "gif"@ {
        bytes_prefix(bytes, seq![71u8, 73, 70, 56, 55, 97]) || bytes_prefix(bytes, seq![71u8, 73, 70, 56, 57, 97])
    } else if media_type == "png"@ {
        bytes_prefix(bytes, seq![0x89u8, 80, 78, 71, 0x0d, 0x0a, 0x1a, 0x0a])
    } else if media_type == "jpg"@ || media_type == "jpeg"@ {
        bytes_prefix(bytes, seq![0xffu8, 0xd8, 0xff])
    } else if media_type == "webp"@ {
        bytes.len() >= 12 && bytes.subrange(0, 4) == seq![82u8, 73, 70, 70] && bytes.subrange(8, 12) == seq![
            87u8,
            69,
            66,
            80,
        ]
    } else {
        false
    }
}

/// `bytes[at..at + prefix.len()] == prefix`.
pub fn bytes_match_at(bytes: &[u8], at: usize, prefix: &[u8]) -> (r: bool)
    ensures
        r == (at + prefix@.len() <= bytes@.len() && bytes@.subrange(at as int, at + prefix@.len()) == prefix@),
{
    let n = bytes.len();
    if at > n || prefix.len() > n - at {
        return false;
    }
    let mut k: usize = 0;
    while k < prefix.len()
        invariant
            k <= prefix@.len(),
            n == bytes@.len(),
            at + prefix@.len() <= n,
            forall|i: int| 0 <= i < k ==> bytes@[at + i] == prefix@[i],
        decreases prefix@.len() - k,
    {
        if bytes[at + k] != prefix[k] {
            assert(bytes@.subrange(at as int, at + prefix@.len())[k as int] != prefix@[k as int]);
            return false;
        }
        k = k + 1;
    }
    assert(bytes@.subrange(at as int, at + prefix@.len()) =~= prefix@);
    true
}

/// Checks that the bytes carry the signature of the declared image format.
pub fn validate_signature(media_type: &str, bytes: &[u8]) -> (r: Result<(), String>)
    ensures
        r is Ok <==> signature_ok(media_type@, bytes@),
        r matches Err(e) ==> e@ == "file contents do not match a supported image format"@,
{
    let gif87: [u8; 6] = [71u8, 73, 70, 56, 55, 97];
    let gif89: [u8; 6] = [71u8, 73, 70, 56, 57, 97];
    let png: [u8; 8] = [0x89u8, 80, 78, 71, 0x0d, 0x0a, 0x1a, 0x0a];
    let jpeg: [u8; 3] = [0xffu8, 0xd8, 0xff];
    let riff: [u8; 4] = [82u8, 73, 70, 70];
    let webp: [u8; 4] = [87u8, 69, 66, 80];
    assert(gif87@ == seq![71u8, 73, 70, 56, 55, 97]);
    assert(gif89@ == seq![71u8, 73, 70, 56, 57, 97]);
    assert(png@ == seq![0x89u8, 80, 78, 71, 0x0d, 0x0a, 0x1a, 0x0a]);
    assert(jpeg@ == seq![0xffu8, 0xd8, 0xff]);
    assert(riff@ == seq![82u8, 73, 70, 70]);
    assert(webp@ == seq![87u8, 69, 66, 80]);
    let valid = if str_eq(media_type, "gif") {
        bytes_match_at(bytes, 0, gif87.as_slice()) || bytes_match_at(bytes, 0, gif89.as_slice())
    } else if str_eq(media_type, "png") {
        bytes_match_at(bytes, 0, png.as_slice())
    } else if str_eq(media_type, "jpg") || str_eq(media_type, "jpeg") {
        bytes_match_at(bytes, 0, jpeg.as_slice())
    } else if str_eq(media_type, "webp") {
        bytes.len() >= 12 && bytes_match_at(bytes, 0, riff.as_slice()) && bytes_match_at(bytes, 8, webp.as_slice())
    } else {
        false
    };
    proof {
        assert(bytes@.subrange(0, bytes@.len() as int) == bytes@);
        assert(forall|p: Seq<u8>| p.len() <= bytes@.len() ==> bytes@.subrange(0, p.len() as int) == bytes@.take(p.len() as int));
    }
    if valid {
        Ok(())
    } else {
        Err(owned("file contents do not match a supported image format"))
    }
}

/// The MIME type served for a media type.
pub open spec fn spec_mime_for_media_type(t: Seq<char>) -> Seq<char> {
    if t == "gif"@ {
        "image/gif"@
    } else if t == "png"@ {
        "image/png"@
    } else if t == "jpg"@ || t == "jpeg"@ {
        "image/jpeg"@
    } else if t == "webp"@ {
        "image/webp"@
    } else {
        "application/octet-stream"@
    }
}

/// Every supported media type is served as an image of that type
/// (`image/gif`, `image/png`, `image/jpeg` for both `jpg` and `jpeg`,
/// `image/webp`); anything else as `application/octet-stream`.
pub proof fn lemma_supported_types_are_images(t: Seq<char>)
    ensures
        is_supported_media_type(t) ==> spec_mime_for_media_type(t) == "image/"@ + (if t == "jpg"@ {
            "jpeg"@
        } else {
            t
        }),
        !is_supported_media_type(t) ==> spec_mime_for_media_type(t) == "application/octet-stream"@,
{
    reveal_strlit("image/");
    reveal_strlit("image/gif");
    reveal_strlit("image/png");
    reveal_strlit("image/jpeg");
    reveal_strlit("image/webp");
    reveal_strlit("gif");
    reveal_strlit("png");
    reveal_strlit("jpg");
    reveal_strlit("jpeg");
    reveal_strlit("webp");
    if t == "gif"@ {
        assert("image/gif"@ =~= "image/"@ + "gif"@);
        assert(t != "jpg"@) by {
            assert(t[0] != "jpg"@[0]);
        }
    } else if t == "png"@ {
        assert("image/png"@ =~= "image/"@ + "png"@);
        assert(t != "jpg"@) by {
            assert(t[0] != "jpg"@[0]);
        }
    } else if t == "jpg"@ {
        assert("image/jpeg"@ =~= "image/"@ + "jpeg"@);
    } else if t == "jpeg"@ {
        assert("image/jpeg"@ =~= "image/"@ + "jpeg"@);
        assert(t != "jpg"@) by {
            assert(t.len() != "jpg"@.len());
        }
    } else if t == "webp"@ {
        assert("image/webp"@ =~= "image/"@ + "webp"@);
    }
}

pub fn mime_for_media_type(media_type: &str) -> (r: String)
    ensures
        r@ == spec_mime_for_media_type(media_type@),
        is_supported_media_type(media_type@) ==> r@ == "image/"@ + (if media_type@ == "jpg"@ {
            "jpeg"@
        } else {
            media_type@
        }),
        !is_supported_media_type(media_type@) ==> r@ == "application/octet-stream"@,
{
    proof {
        lemma_supported_types_are_images(media_type@);
    }
    if str_eq(media_type, "gif") {
        owned("image/gif")
    } else if str_eq(media_type, "png") {
        owned("image/png")
    } else if str_eq(media_type, "jpg") || str_eq(media_type, "jpeg") {
        owned("image/jpeg")
    } else if str_eq(media_type, "webp") {
        owned("image/webp")
    } else {
        owned("application/octet-stream")
    }
}

/// The MIME type served for a managed file: generated previews are WebP;
/// other files go by their (lower-cased) extension.
pub fn mime_for_filename(filename: &str) -> (r: String)
    ensures
        has_suffix(filename@, ".thumb.webp"@) ==> r@ == "image/webp"@,
        !has_suffix(filename@, ".thumb.webp"@) && is_plain_name(filename@) ==> r@ == spec_mime_for_media_type(
            match spec_extension(filename@) {
                Some(e) => lower(e),
                None => Seq::empty(),
            },
        ),
{
    if ends_with(filename, ".thumb.webp") {
        owned("image/webp")
    } else {
        let extension = match extension_of(filename) {
            Some(e) => to_lower(e.as_str()),
            None => String::new(),
        };
        mime_for_media_type(extension.as_str())
    }
}

/// The MIME type of a stored preview: that of the preview file when there
/// is one, else that of the media type.
pub fn preview_mime(media_type: &str, thumbnail_filename: &Option<String>) -> (r: String)
    ensures
        thumbnail_filename is None ==> r@ == spec_mime_for_media_type(media_type@),
        thumbnail_filename is Some && has_suffix(thumbnail_filename->0@, ".thumb.webp"@) ==> r@ == "image/webp"@,
{
    match thumbnail_filename {
        Some(t) => mime_for_filename(t.as_str()),
        None => mime_for_media_type(media_type),
    }
}

/// A name for the lower-case hexadecimal SHA-256 digest of some bytes.
pub uninterp spec fn sha256_hex(bytes: Seq<u8>) -> Seq<char>;

/// A lower-case hexadecimal digit.
pub open spec fn is_lower_hex(c: char) -> bool {
    ('0' <= c && c <= '9') || ('a' <= c && c <= 'f')
}

/// The SHA-256 digest of the bytes in lower-case hexadecimal, computed by
/// `sha2::Sha256::digest` and formatted with `{:x}` (generic-array's
/// `LowerHex`: two digits from `0-9a-f` per byte of the 32-byte digest).
/// The contract names the digest and states that shape; the digest itself
/// is not stated.
#[verifier::external_body]
pub(crate) fn file_hash_of(bytes: &[u8]) -> (r: String)
    ensures
        r@ == sha256_hex(bytes@),
        r@.len() == 64,
        forall|i: int| 0 <= i < 64 ==> is_lower_hex(#[trigger] r@[i]),
{
    format!("{:x}", <sha2::Sha256 as sha2::Digest>::digest(bytes))
}

/// The extension of a managed file for a media type: `jpeg` files are
/// stored as `.jpg`.
pub open spec fn managed_extension(media_type: Seq<char>) -> Seq<char> {
    if media_type == "jpeg"@ {
        "jpg"@
    } else {
        media_type
    }
}

/// Decimal text of a `u128` (the nanosecond tokens in managed names).
pub fn u128_text(n: u128) -> (r: String)
    ensures
        r@ == decimal(n as nat),
    decreases n,
{
    let mut r = if n >= 10 {
        u128_text(n / 10)
    } else {
        String::new()
    };
    let d: u8 = (n % 10) as u8;
    r.push((48u8 + d) as char);
    assert(decimal(n as nat) == if n < 10 { seq![crate::text::digit_char(n as nat)] } else { decimal((n / 10) as nat).push(crate::text::digit_char((n % 10) as nat)) });
    r
}

/// `{token}.{extension}` for a media type.
pub fn managed_file_name(token: u128, media_type: &str, tail: &str) -> (r: String)
    ensures
        r@ == decimal(token as nat) + tail@ + managed_extension(media_type@),
{
    let mut name = u128_text(token);
    push_str(&mut name, tail);
    if str_eq(media_type, "jpeg") {
        push_str(&mut name, "jpg");
    } else {
        push_str(&mut name, media_type);
    }
    name
}

/// Why importing these bytes as a local file is refused, if it is.
pub open spec fn local_import_error(media_type: Seq<char>, bytes: Seq<u8>) -> Option<Seq<char>> {
    if bytes.len() == 0 || bytes.len() > MAX_IMPORT_BYTES {
        Some("file must be between 1 byte and 50 MB"@)
    } else if !signature_ok(lower(trimmed(media_type)), bytes) {
        Some("file contents do not match a supported image format"@)
    } else {
        None
    }
}

/// First step of a local import: checks the size and signature of the
/// file and returns its normalised media type and content hash.
pub fn check_local_import(input: &LocalImportInput) -> (r: Result<(String, String), String>)
    ensures
        r is Err <==> local_import_error(input.media_type@, input.bytes@) is Some,
        r matches Err(e) ==> Some(e@) == local_import_error(input.media_type@, input.bytes@),
        r matches Ok((t, h)) ==> t@ == lower(trimmed(input.media_type@)) && h@ == sha256_hex(input.bytes@),
{
    if input.bytes.len() == 0 || input.bytes.len() > MAX_IMPORT_BYTES {
        return Err(owned("file must be between 1 byte and 50 MB"));
    }
    let media_type = to_lower(trim(input.media_type.as_str()).as_str());
    match validate_signature(media_type.as_str(), input.bytes.as_slice()) {
        Ok(()) => {},
        Err(e) => {
            return Err(e);
        },
    }
    let hash = file_hash_of(input.bytes.as_slice());
    Ok((media_type, hash))
}

/// The error a local import reports when the library already holds a file
/// with the same hash.
pub fn duplicate_file_error(existing_title: &str) -> (r: String)
    ensures
        r@ == "DUPLICATE_FILE:"@ + existing_title@,
{
    let mut e = owned("DUPLICATE_FILE:");
    push_str(&mut e, existing_title);
    e
}

/// The managed names and the normalised record of a local import.
#[derive(Debug)]
pub struct LocalImportPlan {
    pub input: MediaInput,
    pub storage_filename: String,
    pub thumbnail_filename: String,
}

/// Why the record of a local import fails normalisation, if it does: its
/// title, media type or external link (the managed file name and the
/// absent remote link always pass).
pub open spec fn local_record_error(title: Seq<char>, media_type: Seq<char>, external: Option<String>) -> Option<Seq<char>> {
    let ext = opt_trimmed(external);
    if trimmed(title).len() == 0 {
        Some("title cannot be empty"@)
    } else if !is_supported_media_type(lower(trimmed(media_type))) {
        Some("unsupported media type; expected GIF, PNG, JPG/JPEG, or WEBP"@)
    } else if ext is Some && !is_http_url(ext->0) {
        Some("externalUrl must use http:// or https://"@)
    } else {
        None
    }
}

/// Second step of a local import: names the managed files after the
/// token and normalises the record that will point at them.
pub fn plan_local_import(input: LocalImportInput, media_type: String, file_hash: String, token: u128) -> (r: Result<
    LocalImportPlan,
    String,
>)
    ensures
        r is Err <==> local_record_error(input.title@, media_type@, input.external_url) is Some,
        r matches Err(e) ==> Some(e@) == local_record_error(input.title@, media_type@, input.external_url),
        r matches Ok(plan) ==> {
            &&& plan.storage_filename@ == decimal(token as nat) + "."@ + managed_extension(media_type@)
            &&& plan.thumbnail_filename@ == decimal(token as nat) + ".thumb.webp"@
            &&& plan.input.source_kind@ == "local_file"@
            &&& plan.input.title@ == trimmed(input.title@)
            &&& plan.input.media_type@ == lower(trimmed(media_type@))
            &&& plan.input.remote_url is None
            &&& opt_view(plan.input.storage_filename) == opt_trimmed(Some(plan.storage_filename))
            &&& opt_view(plan.input.file_hash) == opt_trimmed(Some(file_hash))
            &&& opt_view(plan.input.external_url) == opt_trimmed(input.external_url)
            &&& opt_view(plan.input.original_filename) == opt_trimmed(Some(input.original_filename))
            &&& plan.input.notes@ == trimmed(input.notes@)
            &&& is_label_normal_form(plan.input.folder_names.deep_view(), input.folder_names.deep_view())
            &&& is_id_normal_form(plan.input.folder_ids@, input.folder_ids@)
            &&& is_label_normal_form(plan.input.tag_names.deep_view(), input.tag_names.deep_view())
            &&& is_label_normal_form(plan.input.alias_names.deep_view(), input.alias_names.deep_view())
        },
{
    let storage_filename = managed_file_name(token, media_type.as_str(), ".");
    let mut thumbnail_filename = u128_text(token);
    push_str(&mut thumbnail_filename, ".thumb.webp");
    proof {
        lemma_decimal_value(token as nat);
        let d = decimal(token as nat);
        assert(storage_filename@[0] == d[0]);
        lemma_trimmed_nonempty(storage_filename@, 0);
        reveal_strlit("local_file");
        reveal_strlit("remote_url");
    }
    let record = MediaInput {
        title: input.title,
        source_kind: owned("local_file"),
        remote_url: None,
        external_url: input.external_url,
        storage_filename: Some(storage_filename.clone()),
        original_filename: Some(input.original_filename),
        media_type,
        file_hash: Some(file_hash),
        notes: input.notes,
        folder_names: input.folder_names,
        folder_ids: input.folder_ids,
        tag_names: input.tag_names,
        alias_names: input.alias_names,
    };
    let ghost m = record;
    proof {
        assert(m.source_kind@ == "local_file"@);
        reveal_strlit("local_file");
        reveal_strlit("remote_url");
        assert(("local_file"@)[0] != ("remote_url"@)[0]);
        assert("local_file"@ != "remote_url"@);
        assert(opt_trimmed(m.remote_url) is None);
        assert(opt_trimmed(m.storage_filename) is Some);
        assert(normalize_error(m) == local_record_error(input.title@, media_type@, input.external_url));
    }
    match normalize(record) {
        Ok(normalized) => Ok(LocalImportPlan { input: normalized, storage_filename, thumbnail_filename }),
        Err(e) => Err(e),
    }
}

/// Checks an uploaded preview and names the managed file it is stored as.
pub fn manual_preview_filename(input: &ManualPreviewInput, token: u128) -> (r: Result<String, String>)
    ensures
        input.bytes@.len() == 0 || input.bytes@.len() > MAX_PREVIEW_BYTES ==> (r matches Err(e) && e@
            == "preview file must be between 1 byte and 10 MB"@),
        0 < input.bytes@.len() <= MAX_PREVIEW_BYTES && !signature_ok(lower(trimmed(input.media_type@)), input.bytes@)
            ==> (r matches Err(e) && e@ == "file contents do not match a supported image format"@),
        0 < input.bytes@.len() <= MAX_PREVIEW_BYTES && signature_ok(lower(trimmed(input.media_type@)), input.bytes@)
            ==> (r matches Ok(name) && name@ == manual_preview_name(token, lower(trimmed(input.media_type@)))),
{
    if input.bytes.len() == 0 || input.bytes.len() > MAX_PREVIEW_BYTES {
        return Err(owned("preview file must be between 1 byte and 10 MB"));
    }
    let media_type = to_lower(trim(input.media_type.as_str()).as_str());
    match validate_signature(media_type.as_str(), input.bytes.as_slice()) {
        Ok(()) => {},
        Err(e) => {
            return Err(e);
        },
    }
    Ok(managed_file_name(token, media_type.as_str(), ".manual-preview."))
}

/// Which stored preview a "clear preview" request may remove: only an
/// uploaded manual preview.
pub fn check_clear_manual_preview(previous: Option<String>) -> (r: Result<String, String>)
    ensures
        previous is None ==> (r matches Err(e) && e@ == "This media item does not have an uploaded preview."@),
        previous is Some && has_suffix(previous->0@, ".thumb.webp"@) ==> (r matches Err(e) && e@
            == "Only uploaded manual previews can be cleared."@),
        previous is Some && is_plain_name(previous->0@) && !has_suffix(previous->0@, ".thumb.webp"@) ==> (r matches Ok(
            name,
        ) && name@ == previous->0@),
        r matches Ok(name) ==> previous matches Some(p) && name@ == p@ && !has_suffix(p@, ".thumb.webp"@) && p@.len()
            > 0 && !has_char(p@, '/') && p@ != seq!['.'] && p@ != seq!['.', '.'],
{
    match previous {
        None => Err(owned("This media item does not have an uploaded preview.")),
        Some(p) => {
            if !crate::media::is_manual_preview_name(p.as_str()) {
                Err(owned("Only uploaded manual previews can be cleared."))
            } else {
                Ok(p)
            }
        },
    }
}

/// A managed file name is a single path component; anything else is
/// refused before it is joined to the media folder.
pub fn check_managed_filename(filename: &str) -> (r: Result<(), String>)
    ensures
        is_plain_name(filename@) ==> r is Ok,
        r is Ok ==> filename@.len() > 0 && !has_char(filename@, '/') && filename@ != seq!['.'] && filename@
            != seq!['.', '.'],
        r matches Err(e) ==> e@ == "invalid managed filename"@,
{
    if is_own_file_name(filename) {
        Ok(())
    } else {
        Err(owned("invalid managed filename"))
    }
}

/// `std::path::PathBuf`, carried through as an opaque value.
#[verifier::external_type_specification]
#[verifier::external_body]
pub struct ExPathBuf(std::path::PathBuf);

/// `Path::join`: the media folder with the file name appended. How the
/// path is spelled depends on the platform and is left unsaid.
#[verifier::external_body]
fn join_path(directory: &std::path::PathBuf, filename: &str) -> std::path::PathBuf {
    directory.join(filename)
}

/// The path of a managed file inside the media folder, refused unless the
/// name is a single path component.
pub fn safe_managed_path(media_dir: &std::path::PathBuf, filename: &str) -> (r: Result<std::path::PathBuf, String>)
    ensures
        is_plain_name(filename@) ==> r is Ok,
        r is Ok ==> filename@.len() > 0 && !has_char(filename@, '/') && filename@ != seq!['.'] && filename@
            != seq!['.', '.'],
        r matches Err(e) ==> e@ == "invalid managed filename"@,
{
    match check_managed_filename(filename) {
        Ok(()) => Ok(join_path(media_dir, filename)),
        Err(e) => Err(e),
    }
}

/// The little-endian bytes of UTF-16 code units.
pub open spec fn utf16_le(units: Seq<u16>) -> Seq<u8>
    decreases units.len(),
{
    if units.len() == 0 {
        Seq::empty()
    } else {
        utf16_le(units.drop_last()) + seq![(units.last() % 256) as u8, (units.last() / 256) as u8]
    }
}

/// The `CF_HDROP` clipboard block for one file: a `DROPFILES` header
/// (file list at offset 20, no point, wide characters) followed by the
/// path in UTF-16 and the two terminating zero units.
pub open spec fn drop_files_block(path_wide: Seq<u16>) -> Seq<u8> {
    seq![20u8, 0, 0, 0, 0, 0, 0, 0, 0, 0, 0, 0, 0, 0, 0, 0, 1, 0, 0, 0] + utf16_le(path_wide + seq![0u16, 0u16])
}

/// Builds the `CF_HDROP` block that puts one file on the clipboard.
pub fn drop_files_payload(path_wide: &Vec<u16>) -> (r: Vec<u8>)
    ensures
        r@ == drop_files_block(path_wide@),
{
    let mut out: Vec<u8> = Vec::new();
    out.push(20u8);
    let mut k: usize = 0;
    while k < 15
        invariant
            k <= 15,
            out@ == seq![20u8] + Seq::new(k as nat, |i: int| 0u8),
        decreases 15 - k,
    {
        out.push(0u8);
        assert(out@ =~= seq![20u8] + Seq::new((k + 1) as nat, |i: int| 0u8));
        k = k + 1;
    }
    out.push(1u8);
    out.push(0u8);
    out.push(0u8);
    out.push(0u8);
    let ghost header = out@;
    assert(header =~= seq![20u8, 0, 0, 0, 0, 0, 0, 0, 0, 0, 0, 0, 0, 0, 0, 0, 1, 0, 0, 0]);
    let mut units: Vec<u16> = path_wide.clone();
    units.push(0u16);
    units.push(0u16);
    assert(units@ =~= path_wide@ + seq![0u16, 0u16]);
    let mut j: usize = 0;
    while j < units.len()
        invariant
            j <= units@.len(),
            out@ == header + utf16_le(units@.take(j as int)),
        decreases units@.len() - j,
    {
        let w = units[j];
        out.push((w % 256) as u8);
        out.push((w / 256) as u8);
        proof {
            let t = units@.take(j + 1);
            assert(t.drop_last() == units@.take(j as int));
            assert(t.last() == w);
            assert(out@ =~= header + utf16_le(t));
        }
        j = j + 1;
    }
    assert(units@.take(j as int) == units@);
    out
}

/// A step of placing a file on the clipboard.
#[derive(Debug, Clone, Copy, PartialEq, Eq, Structural)]
pub enum ClipboardStep {
    Open,
    Empty,
    Allocate,
    Lock,
    SetData,
}

/// The message reported when a clipboard step fails, with the operating
/// system's error text where the step has one.
pub open spec fn clipboard_failure_text(step: ClipboardStep, os_error: Seq<char>) -> Seq<char> {
    match step {
        ClipboardStep::Open => "could not open the clipboard: "@ + os_error,
        ClipboardStep::Empty => "could not clear the clipboard: "@ + os_error,
        ClipboardStep::Allocate => "could not allocate clipboard memory"@,
        ClipboardStep::Lock => "could not lock clipboard memory"@,
        ClipboardStep::SetData => "could not copy the file: "@ + os_error,
    }
}

pub fn clipboard_failure(step: ClipboardStep, os_error: &str) -> (r: String)
    ensures
        r@ == clipboard_failure_text(step, os_error@),
{
    match step {
        ClipboardStep::Open => {
            let mut m = owned("could not open the clipboard: ");
            push_str(&mut m, os_error);
            m
        },
        ClipboardStep::Empty => {
            let mut m = owned("could not clear the clipboard: ");
            push_str(&mut m, os_error);
            m
        },
        ClipboardStep::Allocate => owned("could not allocate clipboard memory"),
        ClipboardStep::Lock => owned("could not lock clipboard memory"),
        ClipboardStep::SetData => {
            let mut m = owned("could not copy the file: ");
            push_str(&mut m, os_error);
            m
        },
    }
}

/// After a failed step, the allocated block must be freed (it was
/// allocated but never handed to the clipboard).
pub fn frees_block_after(step: ClipboardStep) -> (r: bool)
    ensures
        r == (step == ClipboardStep::Lock || step == ClipboardStep::SetData),
{
    match step {
        ClipboardStep::Lock => true,
        ClipboardStep::SetData => true,
        _ => false,
    }
}

/// What the caller does next while placing a file on the clipboard.
#[derive(Debug)]
pub enum ClipboardCommand {
    /// Run this step (for `SetData`: copy the block into the locked
    /// memory, unlock it, and hand it to the clipboard).
    Run(ClipboardStep),
    /// Stop with this error, after freeing the allocated block and closing
    /// the clipboard where asked.
    Abort { free_block: bool, close: bool, message: String },
    /// Close the clipboard: the file is on it.
    Done,
}

/// The step that follows a step that succeeded.
pub open spec fn next_step(step: ClipboardStep) -> Option<ClipboardStep> {
    match step {
        ClipboardStep::Open => Some(ClipboardStep::Empty),
        ClipboardStep::Empty => Some(ClipboardStep::Allocate),
        ClipboardStep::Allocate => Some(ClipboardStep::Lock),
        ClipboardStep::Lock => Some(ClipboardStep::SetData),
        ClipboardStep::SetData => None,
    }
}

/// Drives the copy of a file to the clipboard, one step at a time: given
/// the step that just ran (`None` before the first) and whether it
/// succeeded, says what to do next. The steps run in the order open,
/// empty, allocate, lock, set data. A failure stops the copy with that
/// step's message; the clipboard is closed after every failure but a
/// failed open, and the block is freed exactly when it was allocated and
/// not handed to the clipboard.
pub fn copy_file_to_clipboard(last: Option<ClipboardStep>, succeeded: bool, os_error: &str) -> (r: ClipboardCommand)
    ensures
        last is None ==> r == ClipboardCommand::Run(ClipboardStep::Open),
        last is Some && succeeded ==> match next_step(last->0) {
            Some(n) => r == ClipboardCommand::Run(n),
            None => r is Done,
        },
        last is Some && !succeeded ==> (r matches ClipboardCommand::Abort { free_block, close, message }
            && free_block == (last->0 == ClipboardStep::Lock || last->0 == ClipboardStep::SetData)
            && close == (last->0 != ClipboardStep::Open)
            && message@ == clipboard_failure_text(last->0, os_error@)),
{
    match last {
        None => ClipboardCommand::Run(ClipboardStep::Open),
        Some(step) => {
            if succeeded {
                match step {
                    ClipboardStep::Open => ClipboardCommand::Run(ClipboardStep::Empty),
                    ClipboardStep::Empty => ClipboardCommand::Run(ClipboardStep::Allocate),
                    ClipboardStep::Allocate => ClipboardCommand::Run(ClipboardStep::Lock),
                    ClipboardStep::Lock => ClipboardCommand::Run(ClipboardStep::SetData),
                    ClipboardStep::SetData => ClipboardCommand::Done,
                }
            } else {
                let close = match step {
                    ClipboardStep::Open => false,
                    _ => true,
                };
                ClipboardCommand::Abort {
                    free_block: frees_block_after(step),
                    close,
                    message: clipboard_failure(step, os_error),
                }
            }
        },
    }
}

/// The managed name of an uploaded preview.
pub open spec fn manual_preview_name(token: u128, media_type: Seq<char>) -> Seq<char> {
    decimal(token as nat) + ".manual-preview."@ + managed_extension(media_type)
}

/// An uploaded preview is never mistaken for a generated one: for every
/// accepted upload, its managed name is a plain file name that does not
/// end in `.thumb.webp`. So the static-preview cleanup and the wipe leave
/// it alone, and clearing a preview accepts it.
pub proof fn lemma_manual_preview_names_are_not_generated(token: u128, media_type: Seq<char>, bytes: Seq<u8>)
    requires
        signature_ok(media_type, bytes),
    ensures
        !has_suffix(manual_preview_name(token, media_type), ".thumb.webp"@),
        is_plain_name(manual_preview_name(token, media_type)),
{
    reveal_strlit(".manual-preview.");
    reveal_strlit(".thumb.webp");
    reveal_strlit("gif");
    reveal_strlit("png");
    reveal_strlit("jpg");
    reveal_strlit("jpeg");
    reveal_strlit("webp");
    crate::text::lemma_decimal_value(token as nat);
    let d = decimal(token as nat);
    let ext = managed_extension(media_type);
    let name = manual_preview_name(token, media_type);
    let mid = ".manual-preview."@;
    assert(ext == "gif"@ || ext == "png"@ || ext == "jpg"@ || ext == "webp"@);
    assert(name.len() == d.len() + 16 + ext.len());
    let tail = ".thumb.webp"@;
    if has_suffix(name, tail) {
        let off = name.len() - 11;
        assert(name.skip(off) == tail);
        assert(name.last() == tail.last());
        assert(name.last() == ext.last());
        assert(ext == "webp"@);
        assert(name[off] == mid[9]);
        assert(name.skip(off)[0] == name[off]);
    }
    assert forall|i: int| 0 <= i < name.len() implies name[i] != '/' && name[i] != '\\' && name[i] != ':' by {
        if i < d.len() {
            assert(name[i] == d[i]);
            assert('0' <= d[i] <= '9');
        } else if i < d.len() + 16 {
            assert(name[i] == mid[i - d.len()]);
        } else {
            assert(name[i] == ext[i - d.len() - 16]);
        }
    }
    assert(name[name.len() - 1] != '.');
    assert(name != seq!['.']);
    assert(name != seq!['.', '.']) by {
        if name.len() == 2 {
            assert(false);
        }
    }
}

} // verus!
