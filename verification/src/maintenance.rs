//! Library maintenance: which generated previews a cleanup may delete,
//! what a library wipe requires and reports, and how the uninstall
//! action tells a development build.

use vstd::prelude::*;
use crate::paths::{is_own_file_name, is_plain_name};
use crate::text::{ends_with, eq_ignore_case, has_char, has_suffix, lower, owned, push_str, str_eq};

verus! {

/// What a library wipe could not clean up.
#[derive(Debug)]
pub struct WipeResult {
    pub cleanup_failures: Vec<String>,
}

/// How many static-image previews a cleanup removed, and how many of their
/// files could not be deleted.
#[derive(Debug)]
pub struct PurgeResult {
    pub purged: usize,
    pub cleanup_failures: usize,
}

/// A preview the library generated itself: a bare `*.thumb.webp` name.
pub fn is_generated_thumbnail_name(name: &str) -> (r: bool)
    ensures
        r ==> has_suffix(name@, ".thumb.webp"@) && !has_char(name@, '/') && name@ != seq!['.', '.'],
        is_plain_name(name@) && has_suffix(name@, ".thumb.webp"@) ==> r,
        !has_suffix(name@, ".thumb.webp"@) ==> !r,
{
    is_own_file_name(name) && ends_with(name, ".thumb.webp")
}

/// The bytes hold the `acTL` chunk type anywhere: the mark of an animated
/// PNG.
pub open spec fn has_actl(bytes: Seq<u8>) -> bool {
    exists|i: int| 0 <= i && i + 4 <= bytes.len() && #[trigger] bytes.subrange(i, i + 4) == seq![97u8, 99, 84, 76]
}

/// Finds an `acTL` chunk in PNG bytes.
pub fn png_has_actl(bytes: &[u8]) -> (r: bool)
    ensures
        r == has_actl(bytes@),
{
    let n = bytes.len();
    if n < 4 {
        proof {
            assert forall|i: int| 0 <= i && i + 4 <= bytes@.len() implies #[trigger] bytes@.subrange(i, i + 4) != seq![
                97u8,
                99,
                84,
                76,
            ] by {}
        }
        return false;
    }
    let mut i: usize = 0;
    while i <= n - 4
        invariant
            n == bytes@.len(),
            n >= 4,
            i <= n - 3,
            forall|j: int| 0 <= j < i ==> #[trigger] bytes@.subrange(j, j + 4) != seq![97u8, 99, 84, 76],
        decreases n - i,
    {
        if bytes[i] == 97u8 && bytes[i + 1] == 99u8 && bytes[i + 2] == 84u8 && bytes[i + 3] == 76u8 {
            assert(bytes@.subrange(i as int, i + 4) =~= seq![97u8, 99, 84, 76]);
            return true;
        }
        assert(bytes@.subrange(i as int, i + 4) != seq![97u8, 99, 84, 76]) by {
            if bytes@.subrange(i as int, i + 4) == seq![97u8, 99, 84, 76] {
                assert(bytes@.subrange(i as int, i + 4)[0] == bytes@[i as int]);
                assert(bytes@.subrange(i as int, i + 4)[1] == bytes@[i + 1]);
                assert(bytes@.subrange(i as int, i + 4)[2] == bytes@[i + 2]);
                assert(bytes@.subrange(i as int, i + 4)[3] == bytes@[i + 3]);
            }
        }
        i = i + 1;
    }
    false
}

/// Whether the static-image preview of a local record may be removed: only
/// a preview the library generated, and for a PNG only when its original
/// could be read (`original` is `None` otherwise) and is not animated.
pub fn thumbnail_purgeable(media_type: &str, thumbnail_filename: &str, original: Option<&[u8]>) -> (r: bool)
    ensures
        r ==> has_suffix(thumbnail_filename@, ".thumb.webp"@) && !has_char(thumbnail_filename@, '/')
            && thumbnail_filename@ != seq!['.', '.'],
        r && media_type@ == "png"@ ==> (original matches Some(b) && !has_actl(b@)),
        !has_suffix(thumbnail_filename@, ".thumb.webp"@) ==> !r,
        is_plain_name(thumbnail_filename@) && has_suffix(thumbnail_filename@, ".thumb.webp"@) ==> r == if media_type@
            == "png"@ {
            match original {
                Some(b) => !has_actl(b@),
                None => false,
            }
        } else {
            true
        },
{
    if !is_generated_thumbnail_name(thumbnail_filename) {
        return false;
    }
    if str_eq(media_type, "png") {
        match original {
            Some(b) => !png_has_actl(b),
            None => false,
        }
    } else {
        true
    }
}

/// The PNG original has to be read before its preview can be judged.
pub fn thumbnail_needs_original(media_type: &str, thumbnail_filename: &str) -> (r: bool)
    ensures
        r ==> media_type@ == "png"@ && has_suffix(thumbnail_filename@, ".thumb.webp"@),
        media_type@ == "png"@ && is_plain_name(thumbnail_filename@) && has_suffix(thumbnail_filename@, ".thumb.webp"@)
            ==> r,
{
    str_eq(media_type, "png") && is_generated_thumbnail_name(thumbnail_filename)
}

/// A library wipe needs the word `Reset`, typed exactly.
pub fn check_wipe_confirmation(confirmation: &str) -> (r: Result<(), String>)
    ensures
        r is Ok <==> confirmation@ == "Reset"@,
        r matches Err(e) ==> e@ == "Type Reset exactly to permanently wipe the library."@,
{
    if str_eq(confirmation, "Reset") {
        Ok(())
    } else {
        Err(owned("Type Reset exactly to permanently wipe the library."))
    }
}

/// A file in the media folder that a wipe deletes: a generated preview.
pub fn is_generated_preview_file(file_name: &str) -> (r: bool)
    ensures
        r == has_suffix(file_name@, ".thumb.webp"@),
{
    ends_with(file_name, ".thumb.webp")
}

/// The wipe report line for a generated preview that could not be
/// deleted.
pub fn preview_cleanup_failure(file_name: Option<&str>) -> (r: String)
    ensures
        r@ == "could not delete generated preview "@ + match file_name {
            Some(n) => n@,
            None => "(unknown)"@,
        },
{
    let mut m = owned("could not delete generated preview ");
    match file_name {
        Some(n) => push_str(&mut m, n),
        None => push_str(&mut m, "(unknown)"),
    }
    m
}

/// A build runs from a `target` folder (in any letter case) when it was
/// built for development rather than installed.
pub fn is_development_build(components: &Vec<String>) -> (r: bool)
    ensures
        r == exists|i: int| 0 <= i < components@.len() && lower(#[trigger] components@[i]@) == lower("target"@),
{
    let mut k: usize = 0;
    while k < components.len()
        invariant
            k <= components@.len(),
            forall|i: int| 0 <= i < k ==> lower(#[trigger] components@[i]@) != lower("target"@),
        decreases components@.len() - k,
    {
        if eq_ignore_case(components[k].as_str(), "target") {
            return true;
        }
        k = k + 1;
    }
    false
}

/// What the uninstall action tells the user: development builds are
/// removed by hand, installed ones through Windows Installed Apps.
pub fn uninstall_message(development: bool) -> (r: String)
    ensures
        development ==> r@
            == "Uninstaller is only available in installed builds. You can remove the development build manually."@,
        !development ==> r@ == "Opened Windows Installed Apps. Select this app there to uninstall it."@,
{
    if development {
        owned("Uninstaller is only available in installed builds. You can remove the development build manually.")
    } else {
        owned("Opened Windows Installed Apps. Select this app there to uninstall it.")
    }
}

} // verus!
