//! Folder rules: valid names, the name a new or moved folder gets among
//! its siblings, and the deletion modes.

use vstd::prelude::*;
use vstd::set_lib::*;
use crate::text::{
    decimal, eq_ignore_case, lemma_decimal_injective, lemma_decimal_value, lower, lower_char, owned, push_decimal,
    push_str, str_eq, trim, trimmed,
};

verus! {

/// A folder with its path from the root (`Parent / Child`).
#[derive(Debug)]
pub struct FolderRecord {
    pub id: i64,
    pub name: String,
    pub parent_id: Option<i64>,
    pub path: String,
}

/// What deleting a folder would touch: its descendant folders and the
/// distinct media filed in it or below it.
#[derive(Debug)]
pub struct FolderDeleteImpact {
    pub child_folder_count: i64,
    pub media_count: i64,
}

/// The length in bytes of the UTF-8 text of `s`, as `str::len` reports it.
pub open spec fn utf8_len(s: Seq<char>) -> usize {
    vstd::utf8::encode_utf8(s).len() as usize
}

/// Longest folder name, in bytes.
pub const MAX_FOLDER_NAME_BYTES: usize = 80;

/// Why a folder name is refused, if it is.
pub open spec fn folder_name_error(name: Seq<char>) -> Option<Seq<char>> {
    if trimmed(name).len() == 0 {
        Some("folder name cannot be empty"@)
    } else if utf8_len(trimmed(name)) > MAX_FOLDER_NAME_BYTES {
        Some("folder name cannot exceed 80 characters"@)
    } else {
        None
    }
}

/// A folder name is trimmed and must be non-empty and at most 80 bytes.
pub fn validate_name(name: &str) -> (r: Result<String, String>)
    ensures
        r is Err <==> folder_name_error(name@) is Some,
        r matches Err(e) ==> Some(e@) == folder_name_error(name@),
        r matches Ok(n) ==> n@ == trimmed(name@),
{
    let t = trim(name);
    if t.as_str().unicode_len() == 0 {
        return Err(owned("folder name cannot be empty"));
    }
    if t.as_str().len() > MAX_FOLDER_NAME_BYTES {
        return Err(owned("folder name cannot exceed 80 characters"));
    }
    Ok(t)
}

/// The name tried at attempt `k`: the base, then `base(1)`, `base(2)`, ...
pub open spec fn name_candidate(base: Seq<char>, k: nat) -> Seq<char> {
    if k == 0 {
        base
    } else {
        base + "("@ + decimal(k) + ")"@
    }
}

/// Some sibling has this name, compared as SQLite's `NOCASE` compares
/// (ASCII letters case-insensitively).
pub open spec fn name_taken(siblings: Seq<Seq<char>>, name: Seq<char>) -> bool {
    exists|i: int| 0 <= i < siblings.len() && lower(#[trigger] siblings[i]) == lower(name)
}

/// The name a folder gets among its siblings: the first candidate no
/// sibling has.
pub open spec fn is_available_name(siblings: Seq<Seq<char>>, base: Seq<char>, r: Seq<char>) -> bool {
    exists|k: nat| {
        &&& r == name_candidate(base, k)
        &&& !name_taken(siblings, r)
        &&& forall|j: nat| j < k ==> name_taken(siblings, #[trigger] name_candidate(base, j))
    }
}

pub proof fn lemma_lower_concat(a: Seq<char>, b: Seq<char>)
    ensures
        lower(a + b) == lower(a) + lower(b),
{
    assert(lower(a + b) =~= lower(a) + lower(b));
}

pub proof fn lemma_lower_decimal(n: nat)
    ensures
        lower(decimal(n)) == decimal(n),
{
    lemma_decimal_value(n);
    assert forall|i: int| 0 <= i < decimal(n).len() implies #[trigger] lower_char(decimal(n)[i]) == decimal(n)[i] by {
        assert('0' <= decimal(n)[i] <= '9');
    }
    assert(lower(decimal(n)) =~= decimal(n));
}

/// The lower-cased candidate: the lower-cased base with the suffix as is.
pub proof fn lemma_lower_candidate(base: Seq<char>, k: nat)
    ensures
        k > 0 ==> lower(name_candidate(base, k)) == lower(base) + "("@ + decimal(k) + ")"@,
        k == 0 ==> lower(name_candidate(base, k)) == lower(base),
{
    if k > 0 {
        reveal_strlit("(");
        reveal_strlit(")");
        lemma_lower_concat(base + "("@ + decimal(k), ")"@);
        lemma_lower_concat(base + "("@, decimal(k));
        lemma_lower_concat(base, "("@);
        lemma_lower_decimal(k);
        assert(lower("("@) =~= "("@);
        assert(lower(")"@) =~= ")"@);
    }
}

/// Distinct attempts never compare equal, even ignoring case.
pub proof fn lemma_candidates_distinct(base: Seq<char>, j: nat, k: nat)
    requires
        j != k,
    ensures
        lower(name_candidate(base, j)) != lower(name_candidate(base, k)),
{
    lemma_lower_candidate(base, j);
    lemma_lower_candidate(base, k);
    reveal_strlit("(");
    reveal_strlit(")");
    lemma_decimal_value(j);
    lemma_decimal_value(k);
    if j > 0 && k > 0 {
        let p = lower(base) + "("@;
        let a = p + decimal(j) + ")"@;
        let b = p + decimal(k) + ")"@;
        if a == b {
            assert(a.len() == b.len());
            assert(decimal(j).len() == decimal(k).len());
            assert(a.subrange(p.len() as int, (p.len() + decimal(j).len()) as int) =~= decimal(j));
            assert(b.subrange(p.len() as int, (p.len() + decimal(k).len()) as int) =~= decimal(k));
            lemma_decimal_injective(j, k);
        }
    }
}

/// The lower-cased first `k` candidates, as a set.
pub open spec fn tried_set(base: Seq<char>, k: nat) -> Set<Seq<char>> {
    Set::new(|x: Seq<char>| exists|j: nat| j < k && x == lower(#[trigger] name_candidate(base, j)))
}

pub proof fn lemma_tried_set_len(base: Seq<char>, k: nat)
    ensures
        tried_set(base, k).finite(),
        tried_set(base, k).len() == k,
    decreases k,
{
    if k == 0 {
        assert(tried_set(base, 0) =~= Set::empty());
    } else {
        let prev = tried_set(base, (k - 1) as nat);
        lemma_tried_set_len(base, (k - 1) as nat);
        let x = lower(name_candidate(base, (k - 1) as nat));
        assert(tried_set(base, k) =~= prev.insert(x));
        if prev.contains(x) {
            let j = choose|j: nat| j < k - 1 && x == lower(#[trigger] name_candidate(base, j));
            lemma_candidates_distinct(base, j, (k - 1) as nat);
        }
    }
}

/// If the first `k` candidates are all taken, there are at least `k`
/// siblings.
pub proof fn lemma_taken_bound(siblings: Seq<Seq<char>>, base: Seq<char>, k: nat)
    requires
        forall|j: nat| j < k ==> name_taken(siblings, #[trigger] name_candidate(base, j)),
    ensures
        k <= siblings.len(),
{
    let lowered = siblings.map_values(|s: Seq<char>| lower(s));
    lemma_tried_set_len(base, k);
    assert(tried_set(base, k).subset_of(lowered.to_set())) by {
        assert forall|x: Seq<char>| tried_set(base, k).contains(x) implies lowered.to_set().contains(x) by {
            let j = choose|j: nat| j < k && x == lower(#[trigger] name_candidate(base, j));
            assert(name_taken(siblings, name_candidate(base, j)));
            let i = choose|i: int| 0 <= i < siblings.len() && lower(#[trigger] siblings[i]) == lower(name_candidate(base, j));
            assert(lowered[i] == x);
        }
    }
    lowered.lemma_cardinality_of_set();
    lemma_len_subset(tried_set(base, k), lowered.to_set());
}

/// `name_taken` for executable code.
pub fn is_taken(siblings: &Vec<String>, name: &str) -> (r: bool)
    ensures
        r == name_taken(siblings.deep_view(), name@),
{
    let mut i: usize = 0;
    while i < siblings.len()
        invariant
            i <= siblings@.len(),
            forall|j: int| 0 <= j < i ==> lower(#[trigger] siblings.deep_view()[j]) != lower(name@),
        decreases siblings@.len() - i,
    {
        if eq_ignore_case(siblings[i].as_str(), name) {
            assert(siblings.deep_view()[i as int] == siblings@[i as int]@);
            return true;
        }
        assert(siblings.deep_view()[i as int] == siblings@[i as int]@);
        i = i + 1;
    }
    false
}

/// The name a folder gets among its siblings (the other folders with the
/// same parent): the base if free, else the first free `base(n)`.
pub fn available_name(base: &str, siblings: &Vec<String>) -> (r: String)
    ensures
        is_available_name(siblings.deep_view(), base@, r@),
{
    let ghost sib = siblings.deep_view();
    let mut candidate = owned(base);
    let mut k: u64 = 0;
    let n = siblings.len();
    proof {
        assert(candidate@ == name_candidate(base@, 0));
    }
    while is_taken(siblings, candidate.as_str())
        invariant
            sib == siblings.deep_view(),
            n == siblings@.len(),
            k <= n,
            candidate@ == name_candidate(base@, k as nat),
            forall|j: nat| j < k ==> name_taken(sib, #[trigger] name_candidate(base@, j)),
        decreases n - k,
    {
        proof {
            assert forall|j: nat| j < k + 1 implies name_taken(sib, #[trigger] name_candidate(base@, j)) by {}
            lemma_taken_bound(sib, base@, (k + 1) as nat);
            assert(sib.len() == n);
        }
        k = k + 1;
        let mut next = owned(base);
        push_str(&mut next, "(");
        push_decimal(&mut next, k);
        push_str(&mut next, ")");
        candidate = next;
    }
    proof {
        assert(candidate@ == name_candidate(base@, k as nat) && !name_taken(sib, candidate@) && forall|j: nat|
            j < k ==> name_taken(sib, #[trigger] name_candidate(base@, j)));
    }
    candidate
}

/// The two ways to delete a folder.
pub fn check_delete_mode(mode: &str) -> (r: Result<(), String>)
    ensures
        r is Ok <==> (mode@ == "delete_subtree"@ || mode@ == "reparent"@),
        r matches Err(e) ==> e@ == "invalid folder deletion mode"@,
{
    if str_eq(mode, "delete_subtree") || str_eq(mode, "reparent") {
        Ok(())
    } else {
        Err(owned("invalid folder deletion mode"))
    }
}

} // verus!
