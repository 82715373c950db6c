//! Naming and validation rules for writing exports to the configured folder.

use vstd::prelude::*;
use crate::paths::{file_name_of, is_plain_name};
use crate::text::{has_char, chars_of, decimal, owned, push_decimal, push_str, str_eq, string_from_range, trimmed, trim, is_whitespace};

verus! {

/// What the settings screen shows about the export folder.
#[derive(Debug)]
pub struct ExportSettingsView {
    pub directory: Option<String>,
    pub folder_name: Option<String>,
    pub exists: bool,
}

/// The folder and file an export was written to.
#[derive(Debug)]
pub struct ExportWriteResult {
    pub folder_name: String,
    pub filename: String,
}

/// Characters that `sanitize_filename` replaces: those Windows forbids in
/// file names, and control characters.
pub open spec fn is_reserved_filename_char(c: char) -> bool {
    ||| c == '<' || c == '>' || c == ':' || c == '"' || c == '/' || c == '\\' || c == '|'
        || c == '?' || c == '*'
    ||| c <= '\u{1f}'
    ||| ('\u{7f}' <= c && c <= '\u{9f}')
}

pub open spec fn replace_reserved(s: Seq<char>) -> Seq<char> {
    s.map_values(|c: char| if is_reserved_filename_char(c) { '_' } else { c })
}

pub open spec fn trim_dots_start(s: Seq<char>) -> Seq<char>
    decreases s.len(),
{
    if s.len() > 0 && s[0] == '.' {
        trim_dots_start(s.drop_first())
    } else {
        s
    }
}

pub open spec fn trim_dots_end(s: Seq<char>) -> Seq<char>
    decreases s.len(),
{
    if s.len() > 0 && s.last() == '.' {
        trim_dots_end(s.drop_last())
    } else {
        s
    }
}

/// `str::trim_matches('.')`.
pub open spec fn trim_dots(s: Seq<char>) -> Seq<char> {
    trim_dots_end(trim_dots_start(s))
}

/// A folder name made safe for use inside a file name: reserved
/// characters become `_`, then surrounding whitespace and dots go.
pub open spec fn spec_sanitize_filename(s: Seq<char>) -> Seq<char> {
    trimmed(trim_dots(trimmed(replace_reserved(s))))
}

/// The file-name prefix of an export of the given kind.
pub open spec fn export_prefix(kind: Seq<char>) -> Seq<char> {
    if kind == "aliases"@ {
        "gif-alias-export"@
    } else {
        "gif-library-export"@
    }
}

/// Base name (without extension) of an export file.
pub open spec fn spec_export_filename_base(
    kind: Seq<char>,
    folder_name: Option<Seq<char>>,
    date: Seq<char>,
) -> Seq<char> {
    match folder_name {
        Some(name) if spec_sanitize_filename(name).len() > 0 => export_prefix(kind) + "-"@
            + spec_sanitize_filename(name) + "-"@ + date,
        _ => export_prefix(kind) + "-"@ + date,
    }
}

/// Export names, for every kind: the kind's prefix (`gif-alias-export` for
/// alias lists, `gif-library-export` otherwise), then the sanitised folder
/// name when it is not empty, then the date, joined by `-`.
pub proof fn lemma_export_name_parts(kind: Seq<char>, folder_name: Option<Seq<char>>, date: Seq<char>)
    ensures
        folder_name is Some && spec_sanitize_filename(folder_name->0).len() > 0 ==> spec_export_filename_base(kind, folder_name, date)
            == (if kind == "aliases"@ {
            "gif-alias-export"@
        } else {
            "gif-library-export"@
        }) + "-"@ + spec_sanitize_filename(folder_name->0) + "-"@ + date,
        (folder_name is None || spec_sanitize_filename(folder_name->0).len() == 0) ==> spec_export_filename_base(
            kind,
            folder_name,
            date,
        ) == (if kind == "aliases"@ {
            "gif-alias-export"@
        } else {
            "gif-library-export"@
        }) + "-"@ + date,
{
}

/// The file name tried at attempt `suffix` when choosing an unused name.
pub open spec fn export_candidate(base: Seq<char>, suffix: nat) -> Seq<char> {
    if suffix == 0 {
        base + ".json"@
    } else {
        base + "("@ + decimal(suffix) + ").json"@
    }
}

/// How many file names `available_export_path` tries.
pub const EXPORT_NAME_ATTEMPTS: u64 = 10000;

/// A date in the form `YYYY-MM-DD` (digits, with dashes at positions 4 and 7).
pub open spec fn spec_valid_date(s: Seq<char>) -> bool {
    &&& s.len() == 10
    &&& forall|i: int|
        0 <= i < 10 ==> if i == 4 || i == 7 {
            #[trigger] s[i] == '-'
        } else {
            '0' <= s[i] <= '9'
        }
}

pub fn is_reserved_filename_char_exec(c: char) -> (r: bool)
    ensures
        r == is_reserved_filename_char(c),
{
    c == '<' || c == '>' || c == ':' || c == '"' || c == '/' || c == '\\' || c == '|' || c == '?'
        || c == '*' || c <= '\u{1f}' || ('\u{7f}' <= c && c <= '\u{9f}')
}

/// Removes leading and trailing `.` characters (`str::trim_matches('.')`).
#[verifier::spinoff_prover]
#[verifier::rlimit(40)]
pub fn trim_dot_chars(s: &str) -> (r: String)
    ensures
        r@ == trim_dots(s@),
{
    let v = chars_of(s);
    let n = v.len();
    let mut i: usize = 0;
    assert(s@.skip(0) == s@);
    while i < n && v[i] == '.'
        invariant
            i <= n,
            n == v@.len(),
            v@ == s@,
            trim_dots_start(s@) == trim_dots_start(s@.skip(i as int)),
        decreases n - i,
    {
        assert(s@.skip(i as int).drop_first() == s@.skip(i + 1));
        i = i + 1;
    }
    assert(trim_dots_start(s@) == s@.subrange(i as int, n as int)) by {
        assert(s@.skip(i as int) == s@.subrange(i as int, n as int));
    }
    let mut j: usize = n;
    while j > i && v[j - 1] == '.'
        invariant
            i <= j <= n,
            n == v@.len(),
            v@ == s@,
            trim_dots(s@) == trim_dots_end(s@.subrange(i as int, j as int)),
        decreases j - i,
    {
        assert(s@.subrange(i as int, j as int).drop_last() == s@.subrange(i as int, j - 1));
        j = j - 1;
    }
    string_from_range(&v, i, j)
}

/// Makes a folder name usable inside a file name.
pub fn sanitize_filename(value: &str) -> (r: String)
    ensures
        r@ == spec_sanitize_filename(value@),
{
    let v = chars_of(value);
    let mut cleaned = String::new();
    let mut k: usize = 0;
    while k < v.len()
        invariant
            k <= v@.len(),
            v@ == value@,
            cleaned@ == replace_reserved(value@.take(k as int)),
        decreases v@.len() - k,
    {
        let c = v[k];
        let mapped = if is_reserved_filename_char_exec(c) { '_' } else { c };
        cleaned.push(mapped);
        assert(replace_reserved(value@.take(k + 1)) == replace_reserved(value@.take(k as int)).push(mapped));
        k = k + 1;
    }
    assert(value@.take(k as int) == value@);
    let first = trim(cleaned.as_str());
    let second = trim_dot_chars(first.as_str());
    trim(second.as_str())
}

/// The base name of an export file, such as `gif-library-export-JJK-2026-07-12`.
pub fn export_filename_base(kind: &str, folder_name: Option<&str>, date: &str) -> (r: String)
    ensures
        r@ == spec_export_filename_base(kind@, match folder_name { Some(n) => Some(n@), None => None }, date@),
        folder_name is Some && spec_sanitize_filename(folder_name->0@).len() > 0 ==> r@ == (if kind@ == "aliases"@ {
            "gif-alias-export"@
        } else {
            "gif-library-export"@
        }) + "-"@ + spec_sanitize_filename(folder_name->0@) + "-"@ + date@,
        (folder_name is None || spec_sanitize_filename(folder_name->0@).len() == 0) ==> r@ == (if kind@ == "aliases"@ {
            "gif-alias-export"@
        } else {
            "gif-library-export"@
        }) + "-"@ + date@,
{
    proof {
        match folder_name {
            Some(n) => lemma_export_name_parts(kind@, Some(n@), date@),
            None => lemma_export_name_parts(kind@, None, date@),
        }
    }
    let mut r = if str_eq(kind, "aliases") {
        owned("gif-alias-export")
    } else {
        owned("gif-library-export")
    };
    let folder = match folder_name {
        Some(name) => {
            let cleaned = sanitize_filename(name);
            if cleaned.as_str().unicode_len() > 0 {
                Some(cleaned)
            } else {
                None
            }
        },
        None => None,
    };
    push_str(&mut r, "-");
    match folder {
        Some(folder) => {
            push_str(&mut r, folder.as_str());
            push_str(&mut r, "-");
        },
        None => {},
    }
    push_str(&mut r, date);
    r
}

/// The file name tried at attempt `suffix`: `base.json`, then `base(1).json`, ...
pub fn export_candidate_filename(base: &str, suffix: u64) -> (r: String)
    ensures
        r@ == export_candidate(base@, suffix as nat),
{
    let mut r = owned(base);
    if suffix == 0 {
        push_str(&mut r, ".json");
    } else {
        push_str(&mut r, "(");
        push_decimal(&mut r, suffix);
        push_str(&mut r, ").json");
    }
    r
}

/// `taken` was asked about a file name with these characters and answered `answer`.
pub open spec fn reported<F: Fn(&str) -> bool>(taken: F, name: Seq<char>, answer: bool) -> bool {
    exists|probe: &str| probe@ == name && #[trigger] taken.ensures((probe,), answer)
}

/// Chooses the first export file name, among `EXPORT_NAME_ATTEMPTS`
/// candidates, that `taken` reports free.
pub fn available_export_path<F: Fn(&str) -> bool>(base: &str, taken: F) -> (r: Result<String, String>)
    requires
        forall|name: &str| taken.requires((name,)),
    ensures
        match r {
            Ok(name) => exists|k: nat|
                k < EXPORT_NAME_ATTEMPTS && name@ == #[trigger] export_candidate(base@, k)
                    && reported(taken, name@, false) && forall|j: nat|
                    j < k ==> reported(taken, #[trigger] export_candidate(base@, j), true),
            Err(message) => message@ == "Could not choose an unused export filename."@
                && forall|j: nat|
                j < EXPORT_NAME_ATTEMPTS ==> reported(taken, #[trigger] export_candidate(base@, j), true),
        },
{
    let mut suffix: u64 = 0;
    while suffix < EXPORT_NAME_ATTEMPTS
        invariant
            suffix <= EXPORT_NAME_ATTEMPTS,
            forall|name: &str| taken.requires((name,)),
            forall|j: nat| j < suffix ==> reported(taken, #[trigger] export_candidate(base@, j), true),
        decreases EXPORT_NAME_ATTEMPTS - suffix,
    {
        let filename = export_candidate_filename(base, suffix);
        let probe = filename.as_str();
        let used = taken(probe);
        if !used {
            assert(reported(taken, filename@, false));
            assert(export_candidate(base@, suffix as nat) == filename@);
            return Ok(filename);
        }
        assert(reported(taken, export_candidate(base@, suffix as nat), true));
        suffix = suffix + 1;
    }
    Err(owned("Could not choose an unused export filename."))
}

/// The name shown for the export folder: its last path component, or the
/// whole path when that is empty.
pub fn display_folder_name(path: &str) -> (r: String)
    ensures
        is_plain_name(path@) ==> r@ == path@,
        r@ == path@ || (r@.len() > 0 && !has_char(r@, '/')),
{
    match file_name_of(path) {
        Some(name) => {
            if name.as_str().unicode_len() > 0 {
                name
            } else {
                owned(path)
            }
        },
        None => owned(path),
    }
}

/// `value` is a date in the form `YYYY-MM-DD`.
pub fn valid_date(value: &str) -> (r: bool)
    ensures
        r == spec_valid_date(value@),
{
    let v = chars_of(value);
    if v.len() != 10 {
        return false;
    }
    let mut k: usize = 0;
    while k < 10
        invariant
            k <= 10,
            v@.len() == 10,
            v@ == value@,
            forall|i: int|
                0 <= i < k ==> if i == 4 || i == 7 {
                    #[trigger] value@[i] == '-'
                } else {
                    '0' <= value@[i] <= '9'
                },
        decreases 10 - k,
    {
        let c = v[k];
        let ok = if k == 4 || k == 7 { c == '-' } else { '0' <= c && c <= '9' };
        if !ok {
            return false;
        }
        k = k + 1;
    }
    true
}


/// Builds the settings view from the stored directory and whether it is
/// currently an accessible folder.
pub fn read_view(directory: Option<String>, directory_is_dir: bool) -> (r: ExportSettingsView)
    ensures
        r.directory == directory,
        r.exists == (directory is None || directory_is_dir),
        r.folder_name is Some <==> directory is Some,
        match directory {
            Some(d) => is_plain_name(d@) ==> (r.folder_name matches Some(n) && n@ == d@),
            None => true,
        },
{
    let folder_name = match &directory {
        Some(d) => Some(display_folder_name(d.as_str())),
        None => None,
    };
    let exists = match &directory {
        Some(_) => directory_is_dir,
        None => true,
    };
    ExportSettingsView { directory, folder_name, exists }
}

/// Checks the kind and date of a request to export into the configured folder.
pub fn check_export_request(kind: &str, date: &str) -> (r: Result<(), String>)
    ensures
        !(kind@ == "library"@ || kind@ == "aliases"@) ==> (r matches Err(e) && e@ == "invalid export kind"@),
        (kind@ == "library"@ || kind@ == "aliases"@) && !spec_valid_date(date@) ==> (r matches Err(e)
            && e@ == "invalid export date"@),
        r is Ok <==> (kind@ == "library"@ || kind@ == "aliases"@) && spec_valid_date(date@),
{
    if !(str_eq(kind, "library") || str_eq(kind, "aliases")) {
        return Err(owned("invalid export kind"));
    }
    if !valid_date(date) {
        return Err(owned("invalid export date"));
    }
    Ok(())
}

} // verus!
