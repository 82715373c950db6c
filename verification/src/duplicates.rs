//! Duplicate detection inside folder scopes: which memberships or records
//! a duplicate purge removes, and which record of each group it keeps.

use vstd::prelude::*;
use crate::media::{
    DeletedMediaSnapshot, MediaFolderState, match_text, normalize_match_text, opt_view, spec_strong_identity, strong_identity, MediaRecord,
};
use crate::order::{holds, insert_sorted_unique, strictly_sorted, chars_eq, less, lemma_lt_asymmetric, lemma_lt_irreflexive, lemma_lt_total, lemma_lt_transitive, seq_lt};
use crate::text::{chars_of, i64_text, owned, push_str, string_from_range, signed_decimal};

verus! {

/// `a` is preferred over `b` as the copy to keep: more uses, then more
/// recent use (a use beats none), then earlier creation, then lower id.
pub open spec fn record_before(a: MediaRecord, b: MediaRecord) -> bool {
    if a.use_count != b.use_count {
        a.use_count > b.use_count
    } else if opt_view(a.last_used_at) != opt_view(b.last_used_at) {
        match (opt_view(a.last_used_at), opt_view(b.last_used_at)) {
            (Some(x), Some(y)) => seq_lt(y, x),
            (Some(_), None) => true,
            _ => false,
        }
    } else if a.created_at@ != b.created_at@ {
        seq_lt(a.created_at@, b.created_at@)
    } else {
        a.id < b.id
    }
}

pub proof fn lemma_before_strict(a: MediaRecord, b: MediaRecord)
    ensures
        !(record_before(a, b) && record_before(b, a)),
        a.id != b.id ==> record_before(a, b) || record_before(b, a),
{
    match (opt_view(a.last_used_at), opt_view(b.last_used_at)) {
        (Some(x), Some(y)) => {
            lemma_lt_asymmetric(x, y);
            lemma_lt_total(x, y);
        },
        _ => {},
    }
    lemma_lt_asymmetric(a.created_at@, b.created_at@);
    lemma_lt_total(a.created_at@, b.created_at@);
}

/// Which copy a purge keeps, as the documented preference: more uses
/// always wins; with equal uses a recent use beats an older one and any
/// use beats none; with equal uses and equal last use the record created
/// first wins (timestamps compare as text, which orders ISO times); with
/// everything equal the lower id wins.
pub proof fn lemma_keep_preference(a: MediaRecord, b: MediaRecord)
    ensures
        a.use_count > b.use_count ==> record_before(a, b) && !record_before(b, a),
        a.use_count == b.use_count && a.last_used_at is Some && b.last_used_at is None ==> record_before(a, b),
        a.use_count == b.use_count && opt_view(a.last_used_at) == opt_view(b.last_used_at) && seq_lt(
            a.created_at@,
            b.created_at@,
        ) ==> record_before(a, b) && !record_before(b, a),
        a.use_count == b.use_count && opt_view(a.last_used_at) == opt_view(b.last_used_at) && a.created_at@
            == b.created_at@ && a.id < b.id ==> record_before(a, b),
{
    if a.use_count == b.use_count && opt_view(a.last_used_at) == opt_view(b.last_used_at) && seq_lt(a.created_at@, b.created_at@) {
        lemma_lt_irreflexive(a.created_at@);
        lemma_lt_asymmetric(a.created_at@, b.created_at@);
    }
}

pub proof fn lemma_before_transitive(a: MediaRecord, b: MediaRecord, c: MediaRecord)
    requires
        record_before(a, b),
        record_before(b, c),
    ensures
        record_before(a, c),
{
    match (opt_view(a.last_used_at), opt_view(b.last_used_at), opt_view(c.last_used_at)) {
        (Some(x), Some(y), Some(z)) => {
            if seq_lt(y, x) && seq_lt(z, y) {
                lemma_lt_transitive(z, y, x);
            }
            lemma_lt_irreflexive(x);
            lemma_lt_asymmetric(x, y);
            lemma_lt_asymmetric(y, z);
            lemma_lt_asymmetric(x, z);
        },
        _ => {},
    }
    if seq_lt(a.created_at@, b.created_at@) && seq_lt(b.created_at@, c.created_at@) {
        lemma_lt_transitive(a.created_at@, b.created_at@, c.created_at@);
    }
    lemma_lt_irreflexive(a.created_at@);
    lemma_lt_asymmetric(a.created_at@, b.created_at@);
    lemma_lt_asymmetric(b.created_at@, c.created_at@);
}

/// `record_before` for executable code.
pub fn is_before(a: &MediaRecord, b: &MediaRecord) -> (r: bool)
    ensures
        r == record_before(*a, *b),
{
    if a.use_count != b.use_count {
        return a.use_count > b.use_count;
    }
    let last_differs = match (&a.last_used_at, &b.last_used_at) {
        (Some(x), Some(y)) => {
            let vx = chars_of(x.as_str());
            let vy = chars_of(y.as_str());
            if !chars_eq(&vx, &vy) {
                return less(&vy, &vx);
            }
            false
        },
        (Some(_), None) => true,
        (None, Some(_)) => false,
        (None, None) => false,
    };
    if last_differs {
        return true;
    }
    if a.last_used_at.is_none() && b.last_used_at.is_some() {
        return false;
    }
    let ca = chars_of(a.created_at.as_str());
    let cb = chars_of(b.created_at.as_str());
    if !chars_eq(&ca, &cb) {
        return less(&ca, &cb);
    }
    a.id < b.id
}

/// Which of two records a duplicate purge prefers to keep.
pub fn best_record_order(a: &MediaRecord, b: &MediaRecord) -> (r: std::cmp::Ordering)
    ensures
        (r == std::cmp::Ordering::Less) == record_before(*a, *b),
        (r == std::cmp::Ordering::Greater) == record_before(*b, *a),
{
    proof {
        lemma_before_strict(*a, *b);
    }
    if is_before(a, b) {
        std::cmp::Ordering::Less
    } else if is_before(b, a) {
        std::cmp::Ordering::Greater
    } else {
        std::cmp::Ordering::Equal
    }
}


/// The aliases and then the tags of a record.
pub open spec fn label_sources(r: MediaRecord) -> Seq<Seq<char>> {
    r.alias_names.deep_view() + r.tag_names.deep_view()
}

/// `l` is one of the record's duplicate-matching labels: a non-empty
/// normalised alias or tag.
pub open spec fn is_dup_label(r: MediaRecord, l: Seq<char>) -> bool {
    l.len() > 0 && exists|j: int| 0 <= j < label_sources(r).len() && match_text(#[trigger] label_sources(r)[j]) == l
}

/// The record's normalised aliases and tags, sorted, without repeats.
pub fn duplicate_label_chars(record: &MediaRecord) -> (r: Vec<Vec<char>>)
    ensures
        strictly_sorted(r@),
        forall|l: Seq<char>| holds(r@, l) <==> is_dup_label(*record, l),
{
    let ghost src = label_sources(*record);
    let mut set: Vec<Vec<char>> = Vec::new();
    let na = record.alias_names.len();
    let mut k: usize = 0;
    while k < na
        invariant
            k <= na,
            na == record.alias_names@.len(),
            src == label_sources(*record),
            strictly_sorted(set@),
            forall|l: Seq<char>| holds(set@, l) <==> (l.len() > 0 && exists|j: int| 0 <= j < k && match_text(#[trigger] src[j]) == l),
        decreases na - k,
    {
        assert(record.alias_names@[k as int]@ == src[k as int]);
        let text = normalize_match_text(record.alias_names[k].as_str());
        let v = chars_of(text.as_str());
        if v.len() > 0 {
            insert_sorted_unique(&mut set, v);
        }
        assert forall|l: Seq<char>| holds(set@, l) <==> (l.len() > 0 && exists|j: int| 0 <= j < k + 1 && match_text(#[trigger] src[j]) == l) by {
            if l.len() > 0 && exists|j: int| 0 <= j < k + 1 && match_text(#[trigger] src[j]) == l {
                let j = choose|j: int| 0 <= j < k + 1 && match_text(#[trigger] src[j]) == l;
            }
        }
        k = k + 1;
    }
    let nt = record.tag_names.len();
    let mut t: usize = 0;
    while t < nt
        invariant
            t <= nt,
            na == record.alias_names@.len(),
            nt == record.tag_names@.len(),
            src == label_sources(*record),
            src.len() == na + nt,
            strictly_sorted(set@),
            forall|l: Seq<char>| holds(set@, l) <==> (l.len() > 0 && exists|j: int| 0 <= j < na + t && match_text(#[trigger] src[j]) == l),
        decreases nt - t,
    {
        assert(record.tag_names@[t as int]@ == src[na + t]);
        let text = normalize_match_text(record.tag_names[t].as_str());
        let v = chars_of(text.as_str());
        if v.len() > 0 {
            insert_sorted_unique(&mut set, v);
        }
        assert forall|l: Seq<char>| holds(set@, l) <==> (l.len() > 0 && exists|j: int| 0 <= j < na + t + 1 && match_text(#[trigger] src[j]) == l) by {
            if l.len() > 0 && exists|j: int| 0 <= j < na + t + 1 && match_text(#[trigger] src[j]) == l {
                let j = choose|j: int| 0 <= j < na + t + 1 && match_text(#[trigger] src[j]) == l;
            }
        }
        t = t + 1;
    }
    set
}

/// The record's duplicate-matching labels as strings.
pub fn duplicate_labels(record: &MediaRecord) -> (r: Vec<String>)
    ensures
        forall|i: int, j: int| 0 <= i < j < r@.len() ==> seq_lt((#[trigger] r@[i])@, (#[trigger] r@[j])@),
        forall|l: Seq<char>| (exists|i: int| 0 <= i < r@.len() && (#[trigger] r@[i])@ == l) <==> is_dup_label(*record, l),
{
    let set = duplicate_label_chars(record);
    let mut out: Vec<String> = Vec::new();
    let mut k: usize = 0;
    while k < set.len()
        invariant
            k <= set@.len(),
            out@.len() == k,
            forall|i: int| 0 <= i < k ==> (#[trigger] out@[i])@ == set@[i]@,
        decreases set@.len() - k,
    {
        out.push(string_from_range(&set[k], 0, set[k].len()));
        assert(set@[k as int]@.subrange(0, set@[k as int]@.len() as int) == set@[k as int]@);
        k = k + 1;
    }
    assert forall|l: Seq<char>| (exists|i: int| 0 <= i < out@.len() && (#[trigger] out@[i])@ == l) <==> holds(set@, l) by {
        if holds(set@, l) {
            let i = choose|i: int| 0 <= i < set@.len() && (#[trigger] set@[i])@ == l;
            assert(out@[i]@ == l);
        }
    }
    out
}


/// Some entry of `s` equals `g`.
pub open spec fn occurs(s: Seq<usize>, g: int) -> bool {
    exists|t: int| 0 <= t < s.len() && s[t] == g
}

/// Numbers the distinct keys in order of first appearance: entries get the
/// same number exactly when their keys are equal.
pub fn assign_groups(keys: &Vec<Vec<char>>) -> (r: (Vec<usize>, usize))
    ensures
        r.0@.len() == keys@.len(),
        forall|t: int| 0 <= t < keys@.len() ==> (#[trigger] r.0@[t]) < r.1,
        forall|t1: int, t2: int|
            0 <= t1 < keys@.len() && 0 <= t2 < keys@.len() ==> ((#[trigger] r.0@[t1] == #[trigger] r.0@[t2]) <==> keys@[t1]@
                == keys@[t2]@),
        forall|g: int| 0 <= g < r.1 ==> #[trigger] occurs(r.0@, g),
{
    let mut gkeys: Vec<Vec<char>> = Vec::new();
    let mut assign: Vec<usize> = Vec::new();
    let mut t: usize = 0;
    while t < keys.len()
        invariant
            t <= keys@.len(),
            assign@.len() == t,
            forall|u: int| 0 <= u < t ==> (#[trigger] assign@[u]) < gkeys@.len() && gkeys@[assign@[u] as int]@ == keys@[u]@,
            forall|g1: int, g2: int| 0 <= g1 < gkeys@.len() && 0 <= g2 < gkeys@.len() && g1 != g2 ==> (#[trigger] gkeys@[g1])@ != (#[trigger] gkeys@[g2])@,
            forall|g: int| 0 <= g < gkeys@.len() ==> #[trigger] occurs(assign@, g),
        decreases keys@.len() - t,
    {
        let mut g: usize = 0;
        while g < gkeys.len() && !chars_eq(&gkeys[g], &keys[t])
            invariant
                g <= gkeys@.len(),
                t < keys@.len(),
                forall|h: int| 0 <= h < g ==> (#[trigger] gkeys@[h])@ != keys@[t as int]@,
            decreases gkeys@.len() - g,
        {
            g = g + 1;
        }
        let ghost old_assign = assign@;
        if g == gkeys.len() {
            let k = keys[t].clone();
            gkeys.push(k);
        }
        assign.push(g);
        proof {
            assert(assign@[t as int] == g);
            assert forall|h: int| 0 <= h < gkeys@.len() implies #[trigger] occurs(assign@, h) by {
                if h != g {
                    assert(occurs(old_assign, h));
                    let u = choose|u: int| 0 <= u < old_assign.len() && old_assign[u] == h;
                    assert(assign@[u] == old_assign[u]);
                } else {
                    assert(assign@[t as int] == h);
                }
            }
        }
        t = t + 1;
    }
    proof {
        assert forall|t1: int, t2: int|
            0 <= t1 < keys@.len() && 0 <= t2 < keys@.len() implies ((#[trigger] assign@[t1] == #[trigger] assign@[t2]) <==> keys@[t1]@
                == keys@[t2]@) by {
            if keys@[t1]@ == keys@[t2]@ && assign@[t1] != assign@[t2] {
                assert(gkeys@[assign@[t1] as int]@ == gkeys@[assign@[t2] as int]@);
            }
        }
    }
    (assign, gkeys.len())
}


/// Ids are unique and each record lists a folder at most once, as the
/// database guarantees.
pub open spec fn valid_records(records: Seq<MediaRecord>) -> bool {
    &&& forall|i: int, j: int| 0 <= i < records.len() && 0 <= j < records.len() && i != j ==> (#[trigger] records[i]).id != (#[trigger] records[j]).id
    &&& forall|i: int| 0 <= i < records.len() ==> (#[trigger] records[i]).folder_ids@.no_duplicates()
}

/// Orders member positions so that each is preferred over the ones after it.
#[verifier::spinoff_prover]
#[verifier::rlimit(40)]
pub fn sort_best(records: &Vec<MediaRecord>, members: &Vec<usize>, idx: &Vec<usize>) -> (r: Vec<usize>)
    requires
        valid_records(records@),
        members@.no_duplicates(),
        forall|p: int| 0 <= p < members@.len() ==> (#[trigger] members@[p]) < records@.len(),
        idx@.no_duplicates(),
        forall|k: int| 0 <= k < idx@.len() ==> (#[trigger] idx@[k]) < members@.len(),
    ensures
        r@.len() == idx@.len(),
        r@.no_duplicates(),
        forall|x: usize| r@.contains(x) <==> idx@.contains(x),
        forall|a: int, b: int| 0 <= a < b < r@.len() ==> record_before(records@[members@[(#[trigger] r@[a]) as int] as int], records@[members@[(#[trigger] r@[b]) as int] as int]),
{
    let mut out: Vec<usize> = Vec::new();
    let mut k: usize = 0;
    while k < idx.len()
        invariant
            k <= idx@.len(),
            valid_records(records@),
            members@.no_duplicates(),
            forall|p: int| 0 <= p < members@.len() ==> (#[trigger] members@[p]) < records@.len(),
            idx@.no_duplicates(),
            forall|m: int| 0 <= m < idx@.len() ==> (#[trigger] idx@[m]) < members@.len(),
            out@.len() == k,
            out@.no_duplicates(),
            forall|m: int| 0 <= m < out@.len() ==> (#[trigger] out@[m]) < members@.len(),
            forall|x: usize| out@.contains(x) <==> idx@.take(k as int).contains(x),
            forall|a: int, b: int| 0 <= a < b < out@.len() ==> record_before(records@[members@[(#[trigger] out@[a]) as int] as int], records@[members@[(#[trigger] out@[b]) as int] as int]),
        decreases idx@.len() - k,
    {
        let x = idx[k];
        let mut p: usize = 0;
        while p < out.len() && is_before(&records[members[out[p]]], &records[members[x]])
            invariant
                p <= out@.len(),
                x < members@.len(),
                forall|q: int| 0 <= q < members@.len() ==> (#[trigger] members@[q]) < records@.len(),
                forall|m: int| 0 <= m < out@.len() ==> (#[trigger] out@[m]) < members@.len(),
                forall|m: int| 0 <= m < p ==> record_before(records@[members@[(#[trigger] out@[m]) as int] as int], records@[members@[x as int] as int]),
            decreases out@.len() - p,
        {
            p = p + 1;
        }
        let ghost old_out = out@;
        let ghost t0 = idx@.take(k as int);
        let ghost t1 = idx@.take(k + 1);
        proof {
            assert(t1 == t0.push(x));
            assert(!t0.contains(x)) by {
                if t0.contains(x) {
                    let m = choose|m: int| 0 <= m < t0.len() && t0[m] == x;
                    assert(idx@[m] == idx@[k as int]);
                }
            }
            if p < old_out.len() {
                assert(old_out.contains(old_out[p as int]));
                assert(old_out[p as int] != x);
                assert(members@[old_out[p as int] as int] != members@[x as int]);
                lemma_before_strict(records@[members@[old_out[p as int] as int] as int], records@[members@[x as int] as int]);
            }
        }
        out.insert(p, x);
        proof {
            old_out.insert_ensures(p as int, x);
            assert forall|y: usize| out@.contains(y) <==> t1.contains(y) by {
                assert(old_out.contains(y) <==> t0.contains(y));
                if t0.contains(y) {
                    let m = choose|m: int| 0 <= m < t0.len() && t0[m] == y;
                    assert(t1[m] == y);
                }
                if t1.contains(y) {
                    let m = choose|m: int| 0 <= m < t1.len() && t1[m] == y;
                    if m < k {
                        assert(t0[m] == y);
                    }
                }
                if out@.contains(y) {
                    let m = choose|m: int| 0 <= m < out@.len() && out@[m] == y;
                    if m < p {
                        assert(old_out.contains(y));
                    } else if m > p {
                        assert(out@[m] == old_out[m - 1]);
                        assert(old_out.contains(y));
                    } else {
                        assert(t1[k as int] == y);
                    }
                }
                if old_out.contains(y) {
                    let m = choose|m: int| 0 <= m < old_out.len() && old_out[m] == y;
                    if m < p {
                        assert(out@[m] == y);
                    } else {
                        assert(out@[m + 1] == y);
                    }
                }
                if y == x {
                    assert(out@[p as int] == y);
                }
            }
            assert forall|a: int, b: int| 0 <= a < out@.len() && 0 <= b < out@.len() && a != b implies out@[a] != out@[b] by {
                if a != p && b != p {
                    let oa = if a < p { a } else { a - 1 };
                    let ob = if b < p { b } else { b - 1 };
                    assert(out@[a] == old_out[oa]);
                    assert(out@[b] == old_out[ob]);
                } else if a == p {
                    let ob = if b < p { b } else { b - 1 };
                    assert(out@[b] == old_out[ob]);
                    assert(old_out.contains(old_out[ob]));
                } else {
                    let oa = if a < p { a } else { a - 1 };
                    assert(out@[a] == old_out[oa]);
                    assert(old_out.contains(old_out[oa]));
                }
            }
            assert forall|a: int, b: int| 0 <= a < b < out@.len() implies record_before(records@[members@[(#[trigger] out@[a]) as int] as int], records@[members@[(#[trigger] out@[b]) as int] as int]) by {
                if b < p {
                } else if b == p {
                } else if a < p {
                    assert(out@[b] == old_out[b - 1]);
                } else if a == p {
                    assert(out@[b] == old_out[b - 1]);
                    if b - 1 > p {
                        lemma_before_transitive(records@[members@[x as int] as int], records@[members@[old_out[p as int] as int] as int], records@[members@[old_out[b - 1] as int] as int]);
                    }
                } else {
                    assert(out@[a] == old_out[a - 1]);
                    assert(out@[b] == old_out[b - 1]);
                }
            }
        }
        k = k + 1;
    }
    assert(idx@.take(k as int) == idx@);
    out
}


/// One membership (or, in Uncategorized and for single-folder records, the
/// whole record) that a duplicate purge removes, and the record kept in its
/// place.
#[derive(Debug)]
pub struct DuplicateRemoval {
    pub scope_id: i64,
    pub media_id: i64,
    pub remove_record: bool,
    pub kept_id: i64,
}

/// What a duplicate purge would do.
#[derive(Debug)]
pub struct DuplicatePlan {
    pub duplicate_groups: usize,
    pub scopes_scanned: usize,
    pub title_only_groups_skipped: usize,
    pub group_reasons: Vec<String>,
    pub removals: Vec<DuplicateRemoval>,
}

/// A record belongs to scope `s`: the folder `s` when it is in folders,
/// and the Uncategorized scope 0 when it is in none.
pub open spec fn in_scope(r: MediaRecord, s: i64) -> bool {
    if r.folder_ids@.len() == 0 {
        s == 0
    } else {
        r.folder_ids@.contains(s)
    }
}

pub open spec fn strong_key(r: MediaRecord) -> Option<Seq<char>> {
    match spec_strong_identity(r) {
        Some((k, _)) => Some(k),
        None => None,
    }
}

/// Both records have the same strong identity (hash, link or managed file).
pub open spec fn strong_dup(a: MediaRecord, b: MediaRecord) -> bool {
    strong_key(a) is Some && strong_key(a) == strong_key(b)
}

/// The medium-strength matching key for one label of a record: its
/// normalised title, source kind, media type and the label.
pub open spec fn medium_key(r: MediaRecord, l: Seq<char>) -> Seq<char> {
    "medium:"@ + match_text(r.title@) + ":"@ + r.source_kind@ + ":"@ + r.media_type@ + ":"@ + l
}

pub open spec fn has_medium_key(r: MediaRecord, k: Seq<char>) -> bool {
    match_text(r.title@).len() > 0 && exists|l: Seq<char>| is_dup_label(r, l) && #[trigger] medium_key(r, l) == k
}

/// Same normalised title, kind and type, with an overlapping alias or tag.
pub open spec fn medium_dup(a: MediaRecord, b: MediaRecord) -> bool {
    exists|k: Seq<char>| #[trigger] has_medium_key(a, k) && has_medium_key(b, k)
}

pub open spec fn is_duplicate_of(kept: MediaRecord, r: MediaRecord) -> bool {
    strong_dup(kept, r) || medium_dup(kept, r)
}

/// The plan removes the record with this id from scope `s`.
pub open spec fn removed_in(removals: Seq<DuplicateRemoval>, s: i64, id: i64) -> bool {
    exists|q: int| 0 <= q < removals.len() && (#[trigger] removals[q]).scope_id == s && removals[q].media_id == id
}

/// A removal names a record of its scope and a different, preferred
/// duplicate of it in the same scope.
pub open spec fn removal_sound(records: Seq<MediaRecord>, rm: DuplicateRemoval) -> bool {
    exists|i: int, j: int|
        0 <= i < records.len() && 0 <= j < records.len() && i != j && (#[trigger] records[i]).id == rm.media_id
            && (#[trigger] records[j]).id == rm.kept_id && in_scope(records[i], rm.scope_id) && in_scope(
            records[j],
            rm.scope_id,
        ) && rm.remove_record == (rm.scope_id == 0 || records[i].folder_ids@.len() <= 1) && is_duplicate_of(
            records[j],
            records[i],
        ) && record_before(records[j], records[i])
}

/// Every removal is sound, every kept record stays in its scope, and no
/// membership is removed twice.
pub open spec fn plan_sound(records: Seq<MediaRecord>, removals: Seq<DuplicateRemoval>) -> bool {
    &&& forall|q: int| 0 <= q < removals.len() ==> removal_sound(records, #[trigger] removals[q])
    &&& forall|q: int| 0 <= q < removals.len() ==> !removed_in(removals, (#[trigger] removals[q]).scope_id, removals[q].kept_id)
    &&& forall|q1: int, q2: int|
        0 <= q1 < removals.len() && 0 <= q2 < removals.len() && q1 != q2 ==> !((#[trigger] removals[q1]).scope_id
            == (#[trigger] removals[q2]).scope_id && removals[q1].media_id == removals[q2].media_id)
}

/// The positions of `members` (record indices of scope `s`).
pub open spec fn scope_members_ok(records: Seq<MediaRecord>, members: Seq<usize>, s: i64) -> bool {
    &&& members.no_duplicates()
    &&& forall|p: int| 0 <= p < members.len() ==> (#[trigger] members[p]) < records.len() && in_scope(records[members[p] as int], s)
}

/// Some claimed member of the scope has this id.
pub open spec fn claimed_id(records: Seq<MediaRecord>, members: Seq<usize>, claimed: Seq<bool>, id: i64) -> bool {
    exists|p: int| 0 <= p < members.len() && #[trigger] claimed[p] && records[members[p] as int].id == id
}

/// Every removal of scope `s` so far names claimed members.
pub open spec fn claims_cover(
    records: Seq<MediaRecord>,
    members: Seq<usize>,
    claimed: Seq<bool>,
    removals: Seq<DuplicateRemoval>,
    s: i64,
) -> bool {
    forall|q: int|
        0 <= q < removals.len() && (#[trigger] removals[q]).scope_id == s ==> claimed_id(records, members, claimed, removals[q].media_id)
            && claimed_id(records, members, claimed, removals[q].kept_id)
}

pub proof fn lemma_unclaimed_id(records: Seq<MediaRecord>, members: Seq<usize>, claimed: Seq<bool>, p0: int, s: i64)
    requires
        valid_records(records),
        scope_members_ok(records, members, s),
        claimed.len() == members.len(),
        0 <= p0 < members.len(),
        !claimed[p0],
    ensures
        !claimed_id(records, members, claimed, records[members[p0] as int].id),
{
    if claimed_id(records, members, claimed, records[members[p0] as int].id) {
        let p = choose|p: int| 0 <= p < members.len() && #[trigger] claimed[p] && records[members[p] as int].id == records[members[p0] as int].id;
        assert(members[p] == members[p0]);
    }
}

/// The plan keeps the record with this id in scope `s` in place of some
/// removed duplicate.
pub open spec fn kept_in(removals: Seq<DuplicateRemoval>, s: i64, id: i64) -> bool {
    exists|q: int| 0 <= q < removals.len() && (#[trigger] removals[q]).scope_id == s && removals[q].kept_id == id
}

/// The record takes part in a duplicate group of scope `s`.
pub open spec fn involved(removals: Seq<DuplicateRemoval>, s: i64, id: i64) -> bool {
    removed_in(removals, s, id) || kept_in(removals, s, id)
}

/// Every claimed member of scope `s` takes part in one of its groups.
pub open spec fn claims_involved(
    records: Seq<MediaRecord>,
    members: Seq<usize>,
    claimed: Seq<bool>,
    removals: Seq<DuplicateRemoval>,
    s: i64,
) -> bool {
    forall|p: int| 0 <= p < members.len() && #[trigger] claimed[p] ==> involved(removals, s, records[members[p] as int].id)
}

pub proof fn lemma_involved_extends(old_r: Seq<DuplicateRemoval>, new_r: Seq<DuplicateRemoval>, s: i64, id: i64)
    requires
        old_r.len() <= new_r.len(),
        forall|q: int| 0 <= q < old_r.len() ==> #[trigger] new_r[q] == old_r[q],
        involved(old_r, s, id),
    ensures
        involved(new_r, s, id),
{
    if removed_in(old_r, s, id) {
        lemma_removed_extends(old_r, new_r, s, id);
    } else {
        let q = choose|q: int| 0 <= q < old_r.len() && (#[trigger] old_r[q]).scope_id == s && old_r[q].kept_id == id;
        assert(new_r[q] == old_r[q]);
    }
}

/// How a group reason names its scope.
pub open spec fn scope_label(s: i64) -> Seq<char> {
    if s == 0 {
        "Uncategorized"@
    } else {
        "folder "@ + signed_decimal(s as int)
    }
}

/// `#id` for each id, joined by `, `.
pub open spec fn id_list(ids: Seq<i64>) -> Seq<char>
    decreases ids.len(),
{
    if ids.len() == 0 {
        Seq::empty()
    } else if ids.len() == 1 {
        "#"@ + signed_decimal(ids[0] as int)
    } else {
        id_list(ids.drop_last()) + ", "@ + "#"@ + signed_decimal(ids.last() as int)
    }
}

/// The line that reports one duplicate group.
pub open spec fn group_reason(s: i64, reason: Seq<char>, kept: i64, removed: Seq<i64>) -> Seq<char> {
    scope_label(s) + ": "@ + reason + "; kept #"@ + signed_decimal(kept as int) + "; remove "@ + id_list(removed)
}

/// Builds the report line of a duplicate group.
pub fn group_reason_text(s: i64, reason: &str, kept: i64, removed: &Vec<i64>) -> (r: String)
    ensures
        r@ == group_reason(s, reason@, kept, removed@),
{
    let mut out = if s == 0 {
        owned("Uncategorized")
    } else {
        let mut l = owned("folder ");
        let d = i64_text(s);
        push_str(&mut l, d.as_str());
        l
    };
    push_str(&mut out, ": ");
    push_str(&mut out, reason);
    push_str(&mut out, "; kept #");
    let k = i64_text(kept);
    push_str(&mut out, k.as_str());
    push_str(&mut out, "; remove ");
    let ghost head = out@;
    let mut x: usize = 0;
    while x < removed.len()
        invariant
            x <= removed@.len(),
            out@ == head + id_list(removed@.take(x as int)),
        decreases removed@.len() - x,
    {
        if x > 0 {
            push_str(&mut out, ", ");
        }
        push_str(&mut out, "#");
        let d = i64_text(removed[x]);
        push_str(&mut out, d.as_str());
        proof {
            let t1 = removed@.take(x + 1);
            assert(t1.drop_last() == removed@.take(x as int));
            assert(t1.last() == removed@[x as int]);
            if x == 0 {
                assert(id_list(t1) == "#"@ + signed_decimal(removed@[0] as int));
            }
        }
        x = x + 1;
    }
    assert(removed@.take(x as int) == removed@);
    out
}

/// The ids a sorted group removes: all but its first member's.
pub open spec fn group_removed_ids(records: Seq<MediaRecord>, members: Seq<usize>, group: Seq<usize>) -> Seq<i64> {
    Seq::new((group.len() - 1) as nat, |y: int| records[members[group[y + 1] as int] as int].id)
}

/// The number of duplicate groups a list of removals describes: one per
/// scope and kept record.
pub open spec fn group_count(removals: Seq<DuplicateRemoval>) -> nat
    decreases removals.len(),
{
    if removals.len() == 0 {
        0
    } else {
        let rest = removals.drop_last();
        group_count(rest) + if kept_in(rest, removals.last().scope_id, removals.last().kept_id) {
            0nat
        } else {
            1nat
        }
    }
}

/// The plan removes the record `id` from scope `s`, keeping `kept` in its
/// place.
pub open spec fn removed_under(removals: Seq<DuplicateRemoval>, s: i64, id: i64, kept: i64) -> bool {
    exists|q: int|
        0 <= q < removals.len() && (#[trigger] removals[q]).scope_id == s && removals[q].media_id == id && removals[q].kept_id
            == kept
}

/// A report line describes a group of scope `s`: its reason, the kept
/// record and the removed ids, each of which the plan removes from `s`
/// with that kept record in its place.
pub open spec fn reason_backed(line: Seq<char>, removals: Seq<DuplicateRemoval>) -> bool {
    exists|s: i64, reason: Seq<char>, kept: i64, ids: Seq<i64>|
        #[trigger] group_reason(s, reason, kept, ids) == line && ids.len() > 0 && forall|i: int|
            0 <= i < ids.len() ==> removed_under(removals, s, #[trigger] ids[i], kept)
}

/// The reason of a medium-strength group.
pub open spec fn medium_reason() -> Seq<char> {
    "title + overlapping aliases/tags"@
}

/// A report line of the strong step in scope `s`: its reason is the kind
/// of strong identity (file hash, URL or local path) of the kept record.
pub open spec fn strong_line(records: Seq<MediaRecord>, s: i64, line: Seq<char>) -> bool {
    exists|i: int, ids: Seq<i64>|
        0 <= i < records.len() && spec_strong_identity(records[i]) is Some && #[trigger] group_reason(
            s,
            (spec_strong_identity(records[i])->0).1,
            records[i].id,
            ids,
        ) == line
}

/// A report line of some scope, from the strong or the medium step.
pub open spec fn plan_line(records: Seq<MediaRecord>, line: Seq<char>) -> bool {
    exists|s: i64|
        #![trigger strong_line(records, s, line)]
        #![trigger medium_line(s, line)]
        strong_line(records, s, line) || medium_line(s, line)
}

/// A report line of the medium step in scope `s`.
pub open spec fn medium_line(s: i64, line: Seq<char>) -> bool {
    exists|kept: i64, ids: Seq<i64>| #[trigger] group_reason(s, medium_reason(), kept, ids) == line
}

/// The report lines match the removals: one line per group (per scope
/// and kept record), so no more lines than removals and at least one line
/// when anything is removed, and every line describes removals of the
/// plan.
pub open spec fn reports_match(reasons: Seq<String>, removals: Seq<DuplicateRemoval>) -> bool {
    &&& reasons.len() == group_count(removals)
    &&& reasons.len() <= removals.len()
    &&& removals.len() > 0 ==> reasons.len() > 0
    &&& forall|q: int| 0 <= q < reasons.len() ==> reason_backed((#[trigger] reasons[q])@, removals)
}

pub proof fn lemma_reports_extend(reasons: Seq<String>, old_r: Seq<DuplicateRemoval>, new_r: Seq<DuplicateRemoval>)
    requires
        old_r.len() <= new_r.len(),
        forall|q: int| 0 <= q < old_r.len() ==> #[trigger] new_r[q] == old_r[q],
        forall|q: int| 0 <= q < reasons.len() ==> reason_backed((#[trigger] reasons[q])@, old_r),
    ensures
        forall|q: int| 0 <= q < reasons.len() ==> reason_backed((#[trigger] reasons[q])@, new_r),
{
    assert forall|q: int| 0 <= q < reasons.len() implies reason_backed((#[trigger] reasons[q])@, new_r) by {
        let line = reasons[q]@;
        let (s, reason, kept, ids) = choose|s: i64, reason: Seq<char>, kept: i64, ids: Seq<i64>|
            #[trigger] group_reason(s, reason, kept, ids) == line && ids.len() > 0 && forall|i: int|
                0 <= i < ids.len() ==> removed_under(old_r, s, #[trigger] ids[i], kept);
        assert forall|i: int| 0 <= i < ids.len() implies removed_under(new_r, s, #[trigger] ids[i], kept) by {
            assert(removed_under(old_r, s, ids[i], kept));
            let w = choose|w: int|
                0 <= w < old_r.len() && (#[trigger] old_r[w]).scope_id == s && old_r[w].media_id == ids[i]
                    && old_r[w].kept_id == kept;
            assert(new_r[w] == old_r[w]);
        }
        assert(group_reason(s, reason, kept, ids) == line);
    }
}

/// Members `p1` (removed) and `p2` (kept) of a scope are the records of
/// a removal, with the same strong identity.
pub open spec fn strong_pair(records: Seq<MediaRecord>, members: Seq<usize>, rm: DuplicateRemoval, p1: int, p2: int) -> bool {
    &&& 0 <= p1 < members.len() && 0 <= p2 < members.len()
    &&& records[members[p1] as int].id == rm.media_id && records[members[p2] as int].id == rm.kept_id
    &&& strong_dup(records[members[p2] as int], records[members[p1] as int])
}

/// A removal of the strong step: its record and the kept one share a
/// strong identity.
pub open spec fn strong_removal(records: Seq<MediaRecord>, members: Seq<usize>, rm: DuplicateRemoval) -> bool {
    exists|p1: int, p2: int| #[trigger] strong_pair(records, members, rm, p1, p2)
}

/// Members `p1` (removed) and `p2` (kept) of a scope are the records of
/// a removal; neither was claimed in `claimed`, and they share a medium
/// key (normalised title, source kind, media type and an alias or tag).
pub open spec fn medium_pair(
    records: Seq<MediaRecord>,
    members: Seq<usize>,
    claimed: Seq<bool>,
    rm: DuplicateRemoval,
    p1: int,
    p2: int,
) -> bool {
    &&& 0 <= p1 < members.len() && 0 <= p2 < members.len()
    &&& records[members[p1] as int].id == rm.media_id && records[members[p2] as int].id == rm.kept_id
    &&& !claimed[p1] && !claimed[p2]
    &&& medium_dup(records[members[p2] as int], records[members[p1] as int])
}

/// A medium group of scope `s` with its kept record at member `p2`,
/// formed over `key` while the members in `snap` were claimed: the kept
/// record has the key, and every member that was unclaimed then and has
/// the key is in the group, as the kept record or removed in its place.
pub open spec fn medium_group_complete(
    records: Seq<MediaRecord>,
    members: Seq<usize>,
    removals: Seq<DuplicateRemoval>,
    s: i64,
    snap: Seq<bool>,
    p2: int,
    key: Seq<char>,
) -> bool {
    &&& 0 <= p2 < members.len()
    &&& has_medium_key(records[members[p2] as int], key)
    &&& forall|p: int|
        0 <= p < members.len() && !snap[p] && #[trigger] has_medium_key(records[members[p] as int], key) ==> p == p2
            || removed_under(removals, s, records[members[p] as int].id, records[members[p2] as int].id)
}

/// A removal of the medium step belongs to a complete group: one formed
/// over a key at a moment between `before` (the claims when the step
/// began) and `after` (the claims now).
pub open spec fn in_complete_group(
    records: Seq<MediaRecord>,
    members: Seq<usize>,
    removals: Seq<DuplicateRemoval>,
    s: i64,
    before: Seq<bool>,
    after: Seq<bool>,
    rm: DuplicateRemoval,
) -> bool {
    exists|p2: int, snap: Seq<bool>, key: Seq<char>|
        #[trigger] medium_group_complete(records, members, removals, s, snap, p2, key) && records[members[p2] as int].id
            == rm.kept_id && snap.len() == members.len() && (forall|p: int| 0 <= p < members.len() && before[p] ==> snap[p])
            && (forall|p: int| 0 <= p < members.len() && snap[p] ==> after[p])
}

pub proof fn lemma_complete_group_extends(
    records: Seq<MediaRecord>,
    members: Seq<usize>,
    old_r: Seq<DuplicateRemoval>,
    new_r: Seq<DuplicateRemoval>,
    s: i64,
    before: Seq<bool>,
    old_after: Seq<bool>,
    new_after: Seq<bool>,
    rm: DuplicateRemoval,
)
    requires
        old_r.len() <= new_r.len(),
        forall|q: int| 0 <= q < old_r.len() ==> #[trigger] new_r[q] == old_r[q],
        forall|p: int| 0 <= p < members.len() && #[trigger] old_after[p] ==> new_after[p],
        in_complete_group(records, members, old_r, s, before, old_after, rm),
    ensures
        in_complete_group(records, members, new_r, s, before, new_after, rm),
{
    let (p2, snap, key) = choose|p2: int, snap: Seq<bool>, key: Seq<char>|
        #[trigger] medium_group_complete(records, members, old_r, s, snap, p2, key) && records[members[p2] as int].id
            == rm.kept_id && snap.len() == members.len() && (forall|p: int| 0 <= p < members.len() && before[p] ==> snap[p])
            && (forall|p: int| 0 <= p < members.len() && snap[p] ==> old_after[p]);
    assert forall|p: int|
        0 <= p < members.len() && !snap[p] && #[trigger] has_medium_key(records[members[p] as int], key) implies p == p2
            || removed_under(new_r, s, records[members[p] as int].id, records[members[p2] as int].id) by {
        if p != p2 {
            let id = records[members[p] as int].id;
            let kept = records[members[p2] as int].id;
            assert(removed_under(old_r, s, id, kept));
            let w = choose|w: int|
                0 <= w < old_r.len() && (#[trigger] old_r[w]).scope_id == s && old_r[w].media_id == id && old_r[w].kept_id == kept;
            assert(new_r[w] == old_r[w]);
        }
    }
    assert(medium_group_complete(records, members, new_r, s, snap, p2, key));
    assert forall|p: int| 0 <= p < members.len() && snap[p] implies new_after[p] by {
        assert(old_after[p]);
    }
}

/// A medium group formed over the key of its kept record holds every
/// member that was unclaimed when it was formed and has that key.
pub proof fn lemma_medium_group_formed(
    records: Seq<MediaRecord>,
    members: Seq<usize>,
    s: i64,
    keys: Seq<Vec<char>>,
    vals: Seq<usize>,
    assign: Seq<usize>,
    g: int,
    start_claimed: Seq<bool>,
    claimed_before: Seq<bool>,
    group: Seq<usize>,
    sorted: Seq<usize>,
    before: Seq<DuplicateRemoval>,
    removals: Seq<DuplicateRemoval>,
)
    requires
        medium_entries_ok(records, members, start_claimed, keys, vals),
        assign.len() == vals.len(),
        forall|t1: int, t2: int|
            0 <= t1 < keys.len() && 0 <= t2 < keys.len() ==> ((#[trigger] assign[t1] == #[trigger] assign[t2]) <==> keys[t1]@
                == keys[t2]@),
        claimed_before.len() == members.len(),
        start_claimed.len() == members.len(),
        forall|p: int| 0 <= p < members.len() && #[trigger] start_claimed[p] ==> claimed_before[p],
        forall|x: int, k: Seq<char>|
            0 <= x < members.len() && !start_claimed[x] && #[trigger] has_medium_key(records[members[x] as int], k) ==> exists|t: int|
                0 <= t < vals.len() && vals[t] == x && (#[trigger] keys[t])@ == k,
        forall|t: int| 0 <= t < vals.len() && assign[t] == g && !claimed_before[vals[t] as int] ==> in_group(group, #[trigger] vals[t] as int),
        forall|z: int| 0 <= z < group.len() ==> from_group(assign, vals, g, #[trigger] group[z]),
        sorted.len() >= 2,
        forall|x: usize| sorted.contains(x) <==> group.contains(x),
        removals.len() == before.len() + sorted.len() - 1,
        forall|q: int| before.len() <= q < removals.len() ==> (#[trigger] removals[q]).scope_id == s && removals[q].media_id
            == records[members[sorted[q - before.len() + 1] as int] as int].id && removals[q].kept_id == records[members[sorted[0] as int] as int].id,
    ensures
        exists|t0: int|
            0 <= t0 < vals.len() && assign[t0] == g && vals[t0] == sorted[0] && #[trigger] medium_group_complete(
                records,
                members,
                removals,
                s,
                claimed_before,
                sorted[0] as int,
                keys[t0]@,
            ),
{
    let p2 = sorted[0];
    assert(sorted.contains(p2));
    assert(group.contains(p2));
    let z0 = choose|z: int| 0 <= z < group.len() && group[z] == p2;
    assert(from_group(assign, vals, g, group[z0]));
    let t0 = choose|t: int| 0 <= t < vals.len() && assign[t] == g && vals[t] == p2;
    let key = keys[t0]@;
    assert(has_medium_key(records[members[p2 as int] as int], key));
    assert forall|p: int|
        0 <= p < members.len() && !claimed_before[p] && #[trigger] has_medium_key(records[members[p] as int], key) implies p
            == p2 as int || removed_under(removals, s, records[members[p] as int].id, records[members[p2 as int] as int].id) by {
        assert(!start_claimed[p]);
        let t = choose|t: int| 0 <= t < vals.len() && vals[t] == p && (#[trigger] keys[t])@ == key;
        assert(assign[t] == assign[t0]);
        assert(in_group(group, vals[t] as int));
        let z = choose|z: int| 0 <= z < group.len() && group[z] as int == p;
        assert(group.contains(group[z]));
        assert(sorted.contains(group[z]));
        let y = choose|y: int| 0 <= y < sorted.len() && sorted[y] == group[z];
        if y != 0 {
            let q = before.len() + y - 1;
            assert(removals[q].scope_id == s);
            assert(removed_under(removals, s, records[members[p] as int].id, records[members[p2 as int] as int].id));
        }
    }
    assert(medium_group_complete(records, members, removals, s, claimed_before, p2 as int, key));
}

/// A removal of the medium step: both records were unclaimed before it and
/// share a medium key.
pub open spec fn medium_removal(records: Seq<MediaRecord>, members: Seq<usize>, claimed: Seq<bool>, rm: DuplicateRemoval) -> bool {
    exists|p1: int, p2: int| #[trigger] medium_pair(records, members, claimed, rm, p1, p2)
}

/// Some entry of `g` is the position `p`.
pub open spec fn in_group(g: Seq<usize>, p: int) -> bool {
    exists|z: int| 0 <= z < g.len() && g[z] as int == p
}

/// Records the removals of one duplicate group (all but its first, most
/// preferred, member) and claims its members.
pub fn add_group(
    records: &Vec<MediaRecord>,
    members: &Vec<usize>,
    s: i64,
    group: &Vec<usize>,
    reason: &str,
    claimed: &mut Vec<bool>,
    removals: &mut Vec<DuplicateRemoval>,
    reasons: &mut Vec<String>,
)
    requires
        valid_records(records@),
        scope_members_ok(records@, members@, s),
        old(claimed)@.len() == members@.len(),
        group@.len() >= 2,
        group@.no_duplicates(),
        forall|x: int| 0 <= x < group@.len() ==> (#[trigger] group@[x]) < members@.len() && !old(claimed)@[group@[x] as int],
        forall|a: int, b: int| 0 <= a < b < group@.len() ==> record_before(
            records@[members@[(#[trigger] group@[a]) as int] as int],
            records@[members@[(#[trigger] group@[b]) as int] as int],
        ),
        forall|x: int| 1 <= x < group@.len() ==> is_duplicate_of(
            records@[members@[group@[0] as int] as int],
            records@[members@[(#[trigger] group@[x]) as int] as int],
        ),
        plan_sound(records@, old(removals)@),
        claims_cover(records@, members@, old(claimed)@, old(removals)@, s),
        claims_involved(records@, members@, old(claimed)@, old(removals)@, s),
        reports_match(old(reasons)@, old(removals)@),
    ensures
        reports_match(final(reasons)@, final(removals)@),
        plan_sound(records@, final(removals)@),
        claims_cover(records@, members@, final(claimed)@, final(removals)@, s),
        claims_involved(records@, members@, final(claimed)@, final(removals)@, s),
        final(reasons)@.len() == old(reasons)@.len() + 1,
        forall|q: int| 0 <= q < old(reasons)@.len() ==> #[trigger] final(reasons)@[q] == old(reasons)@[q],
        final(reasons)@.last()@ == group_reason(
            s,
            reason@,
            records@[members@[group@[0] as int] as int].id,
            group_removed_ids(records@, members@, group@),
        ),
        final(claimed)@.len() == members@.len(),
        forall|p: int| 0 <= p < members@.len() ==> (#[trigger] final(claimed)@[p]) == (old(claimed)@[p] || in_group(group@, p)),
        final(removals)@.len() == old(removals)@.len() + group@.len() - 1,
        forall|q: int| 0 <= q < old(removals)@.len() ==> #[trigger] final(removals)@[q] == old(removals)@[q],
        forall|q: int| old(removals)@.len() <= q < final(removals)@.len() ==> (#[trigger] final(removals)@[q]).scope_id == s,
        forall|x: int| 1 <= x < group@.len() ==> removed_in(final(removals)@, s, records@[members@[(#[trigger] group@[x]) as int] as int].id),
        forall|q: int| old(removals)@.len() <= q < final(removals)@.len() ==> (#[trigger] final(removals)@[q]).media_id
            == records@[members@[group@[q - old(removals)@.len() + 1] as int] as int].id && final(removals)@[q].kept_id
            == records@[members@[group@[0] as int] as int].id,
{
    let ghost old_removals = removals@;
    let ghost old_claimed = claimed@;
    let ghost base = removals@.len();
    let kept_pos = members[group[0]];
    let kept = records[kept_pos].id;
    proof {
        lemma_unclaimed_id(records@, members@, claimed@, group@[0] as int, s);
    }
    proof {
        if kept_in(old_removals, s, kept) {
            let q = choose|q: int| 0 <= q < old_removals.len() && (#[trigger] old_removals[q]).scope_id == s && old_removals[q].kept_id == kept;
            assert(claimed_id(records@, members@, claimed@, old_removals[q].kept_id));
        }
    }
    let mut removed_ids: Vec<i64> = Vec::new();
    let mut x: usize = 1;
    while x < group.len()
        invariant
            1 <= x <= group@.len(),
            valid_records(records@),
            scope_members_ok(records@, members@, s),
            claimed@ == old_claimed,
            claimed@.len() == members@.len(),
            group@.len() >= 2,
            group@.no_duplicates(),
            forall|y: int| 0 <= y < group@.len() ==> (#[trigger] group@[y]) < members@.len() && !claimed@[group@[y] as int],
            forall|a: int, b: int| 0 <= a < b < group@.len() ==> record_before(
                records@[members@[(#[trigger] group@[a]) as int] as int],
                records@[members@[(#[trigger] group@[b]) as int] as int],
            ),
            forall|y: int| 1 <= y < group@.len() ==> is_duplicate_of(
                records@[members@[group@[0] as int] as int],
                records@[members@[(#[trigger] group@[y]) as int] as int],
            ),
            kept_pos == members@[group@[0] as int],
            kept == records@[kept_pos as int].id,
            !claimed_id(records@, members@, claimed@, kept),
            removals@.len() == base + x - 1,
            base == old_removals.len(),
            forall|q: int| 0 <= q < base ==> #[trigger] removals@[q] == old_removals[q],
            forall|q: int| base <= q < removals@.len() ==> (#[trigger] removals@[q]).scope_id == s && removals@[q].kept_id == kept
                && removals@[q].media_id == records@[members@[group@[q - base + 1] as int] as int].id,
            plan_sound(records@, removals@),
            claims_cover(records@, members@, claimed@, old_removals, s),
            removed_ids@.len() == x - 1,
            forall|y: int| 0 <= y < x - 1 ==> #[trigger] removed_ids@[y] == records@[members@[group@[y + 1] as int] as int].id,
            !kept_in(old_removals, s, kept),
            group_count(removals@) == group_count(old_removals) + if x > 1 { 1nat } else { 0nat },
        decreases group@.len() - x,
    {
        let pos = members[group[x]];
        let rec = &records[pos];
        let remove_record = s == 0 || rec.folder_ids.len() <= 1;
        let ghost before_push = removals@;
        removed_ids.push(rec.id);
        removals.push(DuplicateRemoval { scope_id: s, media_id: rec.id, remove_record, kept_id: kept });
        proof {
            assert(removals@.drop_last() == before_push);
            if x > 1 {
                assert(before_push[base as int].scope_id == s && before_push[base as int].kept_id == kept);
                assert(kept_in(before_push, s, kept));
            } else {
                assert(before_push == old_removals);
            }
            let newq = before_push.len() as int;
            let i = pos as int;
            let j = kept_pos as int;
            assert(group@[x as int] != group@[0]);
            assert(members@[group@[x as int] as int] != members@[group@[0] as int]);
            assert(removal_sound(records@, removals@[newq]));
            lemma_unclaimed_id(records@, members@, claimed@, group@[x as int] as int, s);
            // the new removal's record is neither an earlier removal of s nor the keeper of one
            assert forall|q: int| 0 <= q < newq && (#[trigger] removals@[q]).scope_id == s implies removals@[q].media_id != rec.id && removals@[q].kept_id != rec.id by {
                if q < base {
                    assert(removals@[q] == old_removals[q]);
                } else {
                    let y = q - base + 1;
                    assert(group@[y] != group@[x as int]);
                    assert(members@[group@[y] as int] != members@[group@[x as int] as int]);
                }
            }
            // the keeper is not removed in s
            assert forall|q: int| 0 <= q < removals@.len() && (#[trigger] removals@[q]).scope_id == s implies removals@[q].media_id != kept by {
                if q < base {
                    assert(removals@[q] == old_removals[q]);
                } else {
                    let y = q - base + 1;
                    assert(group@[y] != group@[0]);
                    assert(members@[group@[y] as int] != members@[group@[0] as int]);
                }
            }
            assert forall|q: int| 0 <= q < removals@.len() implies !removed_in(removals@, (#[trigger] removals@[q]).scope_id, removals@[q].kept_id) by {
                if q < newq {
                    assert(!removed_in(before_push, before_push[q].scope_id, before_push[q].kept_id));
                    if removed_in(removals@, removals@[q].scope_id, removals@[q].kept_id) {
                        let q2 = choose|q2: int| 0 <= q2 < removals@.len() && (#[trigger] removals@[q2]).scope_id == removals@[q].scope_id && removals@[q2].media_id == removals@[q].kept_id;
                        if q2 < newq {
                            assert(before_push[q2] == removals@[q2]);
                        }
                    }
                }
            }
            assert forall|q: int| 0 <= q < removals@.len() implies removal_sound(records@, #[trigger] removals@[q]) by {
                if q < newq {
                    assert(removals@[q] == before_push[q]);
                }
            }
            assert forall|q1: int, q2: int|
                0 <= q1 < removals@.len() && 0 <= q2 < removals@.len() && q1 != q2 implies !((#[trigger] removals@[q1]).scope_id
                    == (#[trigger] removals@[q2]).scope_id && removals@[q1].media_id == removals@[q2].media_id) by {
                if q1 < newq && q2 < newq {
                    assert(removals@[q1] == before_push[q1]);
                    assert(removals@[q2] == before_push[q2]);
                }
            }
            assert forall|q: int| base <= q < removals@.len() implies (#[trigger] removals@[q]).scope_id == s && removals@[q].kept_id == kept
                && removals@[q].media_id == records@[members@[group@[q - base + 1] as int] as int].id by {
                if q < newq {
                    assert(removals@[q] == before_push[q]);
                }
            }
        }
        x = x + 1;
    }
    let ghost removals_done = removals@;
    let mut y: usize = 0;
    while y < group.len()
        invariant
            y <= group@.len(),
            claimed@.len() == members@.len(),
            forall|z: int| 0 <= z < group@.len() ==> (#[trigger] group@[z]) < members@.len(),
            forall|p: int| 0 <= p < members@.len() ==> (#[trigger] claimed@[p]) == (old_claimed[p] || in_group(group@.take(y as int), p)),
        decreases group@.len() - y,
    {
        let ghost before = claimed@;
        let ghost g0 = group@.take(y as int);
        let ghost g1 = group@.take(y + 1);
        claimed.set(group[y], true);
        assert forall|p: int| 0 <= p < members@.len() implies (#[trigger] claimed@[p]) == (old_claimed[p] || in_group(g1, p)) by {
            assert(g1 == g0.push(group@[y as int]));
            assert(before[p] == (old_claimed[p] || in_group(g0, p)));
            assert(claimed@[p] == (before[p] || p == group@[y as int] as int));
            if p == group@[y as int] as int {
                assert(g1[y as int] as int == p);
            }
            if in_group(g0, p) {
                let z = choose|z: int| 0 <= z < g0.len() && g0[z] as int == p;
                assert(g1[z] as int == p);
            }
            if in_group(g1, p) && p != group@[y as int] as int {
                let z = choose|z: int| 0 <= z < g1.len() && g1[z] as int == p;
                assert(g0[z] as int == p);
            }
        }
        y = y + 1;
    }
    proof {
        assert(group@.take(y as int) == group@);
        // claims cover the new removals and their keeper
        assert forall|q: int|
            0 <= q < removals@.len() && (#[trigger] removals@[q]).scope_id == s implies claimed_id(records@, members@, claimed@, removals@[q].media_id)
                && claimed_id(records@, members@, claimed@, removals@[q].kept_id) by {
            if q < base {
                assert(removals@[q] == old_removals[q]);
                let p1 = choose|p: int| 0 <= p < members@.len() && #[trigger] old_claimed[p] && records@[members@[p] as int].id == removals@[q].media_id;
                assert(claimed@[p1]);
                let p2 = choose|p: int| 0 <= p < members@.len() && #[trigger] old_claimed[p] && records@[members@[p] as int].id == removals@[q].kept_id;
                assert(claimed@[p2]);
            } else {
                let z = q - base + 1;
                let p1 = group@[z] as int;
                assert(in_group(group@, p1));
                assert(claimed@[p1]);
                let p2 = group@[0] as int;
                assert(in_group(group@, p2));
                assert(claimed@[p2]);
            }
        }
        assert forall|z: int| 1 <= z < group@.len() implies removed_in(removals@, s, records@[members@[(#[trigger] group@[z]) as int] as int].id) by {
            let q = base + z - 1;
            assert(removals@[q].scope_id == s);
        }
        assert forall|p: int| 0 <= p < members@.len() && #[trigger] claimed@[p] implies involved(removals@, s, records@[members@[p] as int].id) by {
            if old_claimed[p] {
                lemma_involved_extends(old_removals, removals@, s, records@[members@[p] as int].id);
            } else {
                let z = choose|z: int| 0 <= z < group@.len() && group@[z] as int == p;
                if z == 0 {
                    assert(removals@[base as int].scope_id == s && removals@[base as int].kept_id == kept);
                    assert(kept_in(removals@, s, kept));
                } else {
                    assert(removed_in(removals@, s, records@[members@[group@[z] as int] as int].id));
                }
            }
        }
        assert(removed_ids@ =~= group_removed_ids(records@, members@, group@));
        lemma_reports_extend(reasons@, old_removals, removals@);
    }
    let ghost old_reasons = reasons@;
    let line = group_reason_text(s, reason, kept, &removed_ids);
    reasons.push(line);
    proof {
        let ids = removed_ids@;
        assert forall|i: int| 0 <= i < ids.len() implies removed_under(removals@, s, #[trigger] ids[i], kept) by {
            let q = base + i;
            assert(removals@[q].scope_id == s);
        }
        assert(group_reason(s, reason@, kept, ids) == reasons@[old_reasons.len() as int]@);
        assert(reason_backed(reasons@[old_reasons.len() as int]@, removals@));
        assert forall|q: int| 0 <= q < reasons@.len() implies reason_backed((#[trigger] reasons@[q])@, removals@) by {
            if q < old_reasons.len() {
                assert(reasons@[q] == old_reasons[q]);
            }
        }
    }
}


/// `in_scope` for executable code.
pub fn record_in_scope(record: &MediaRecord, s: i64) -> (r: bool)
    ensures
        r == in_scope(*record, s),
{
    if record.folder_ids.len() == 0 {
        return s == 0;
    }
    let mut k: usize = 0;
    while k < record.folder_ids.len()
        invariant
            k <= record.folder_ids@.len(),
            forall|m: int| 0 <= m < k ==> record.folder_ids@[m] != s,
        decreases record.folder_ids@.len() - k,
    {
        if record.folder_ids[k] == s {
            return true;
        }
        k = k + 1;
    }
    false
}

/// Some entry numbered `g` has the position `x`.
pub open spec fn from_group(assign: Seq<usize>, vals: Seq<usize>, g: int, x: usize) -> bool {
    exists|t: int| 0 <= t < vals.len() && assign[t] == g && vals[t] == x
}

/// The positions `vals[t]` of the entries numbered `g` that are not claimed.
pub fn collect_group(assign: &Vec<usize>, vals: &Vec<usize>, g: usize, claimed: &Vec<bool>) -> (r: Vec<usize>)
    requires
        assign@.len() == vals@.len(),
        forall|t: int| 0 <= t < vals@.len() ==> (#[trigger] vals@[t]) < claimed@.len(),
        forall|t1: int, t2: int|
            0 <= t1 < vals@.len() && 0 <= t2 < vals@.len() && t1 != t2 && assign@[t1] == assign@[t2] ==> #[trigger] vals@[t1]
                != #[trigger] vals@[t2],
    ensures
        r@.no_duplicates(),
        forall|z: int| 0 <= z < r@.len() ==> from_group(assign@, vals@, g as int, #[trigger] r@[z]),
        forall|z: int| 0 <= z < r@.len() ==> (#[trigger] r@[z]) < claimed@.len() && !claimed@[r@[z] as int],
        forall|t: int| 0 <= t < vals@.len() && assign@[t] == g && !claimed@[vals@[t] as int] ==> in_group(r@, #[trigger] vals@[t] as int),
{
    let mut out: Vec<usize> = Vec::new();
    let ghost src: Seq<int> = Seq::empty();
    let mut t: usize = 0;
    while t < vals.len()
        invariant
            t <= vals@.len(),
            assign@.len() == vals@.len(),
            forall|u: int| 0 <= u < vals@.len() ==> (#[trigger] vals@[u]) < claimed@.len(),
            forall|t1: int, t2: int|
                0 <= t1 < vals@.len() && 0 <= t2 < vals@.len() && t1 != t2 && assign@[t1] == assign@[t2] ==> #[trigger] vals@[t1]
                    != #[trigger] vals@[t2],
            src.len() == out@.len(),
            forall|z: int| 0 <= z < out@.len() ==> 0 <= #[trigger] src[z] < t && assign@[src[z]] == g && vals@[src[z]] == out@[z],
            forall|z1: int, z2: int| 0 <= z1 < z2 < out@.len() ==> #[trigger] src[z1] < #[trigger] src[z2],
            forall|z: int| 0 <= z < out@.len() ==> (#[trigger] out@[z]) < claimed@.len() && !claimed@[out@[z] as int],
            forall|u: int| 0 <= u < t && assign@[u] == g && !claimed@[vals@[u] as int] ==> in_group(out@, #[trigger] vals@[u] as int),
        decreases vals@.len() - t,
    {
        if assign[t] == g && !claimed[vals[t]] {
            let ghost old_out = out@;
            out.push(vals[t]);
            proof {
                src = src.push(t as int);
                assert forall|u: int| 0 <= u < t + 1 && assign@[u] == g && !claimed@[vals@[u] as int] implies in_group(out@, #[trigger] vals@[u] as int) by {
                    if u == t {
                        assert(out@[out@.len() - 1] as int == vals@[u] as int);
                    } else {
                        assert(in_group(old_out, vals@[u] as int));
                        let z = choose|z: int| 0 <= z < old_out.len() && old_out[z] as int == vals@[u] as int;
                        assert(out@[z] == old_out[z]);
                    }
                }
            }
        }
        t = t + 1;
    }
    proof {
        assert forall|z1: int, z2: int| 0 <= z1 < out@.len() && 0 <= z2 < out@.len() && z1 != z2 implies out@[z1] != out@[z2] by {
            if z1 < z2 {
                assert(src[z1] < src[z2]);
            } else {
                assert(src[z2] < src[z1]);
            }
        }
        assert forall|z: int| 0 <= z < out@.len() implies from_group(assign@, vals@, g as int, #[trigger] out@[z]) by {
            let u = src[z];
            assert(0 <= u < t && assign@[u] == g && vals@[u] == out@[z]);
        }
    }
    out
}

/// Concatenation of two character vectors.
pub fn concat_chars(a: &Vec<char>, b: &Vec<char>) -> (r: Vec<char>)
    ensures
        r@ == a@ + b@,
{
    let mut r = a.clone();
    let mut k: usize = 0;
    assert(r@ == a@);
    while k < b.len()
        invariant
            k <= b@.len(),
            r@ == a@ + b@.take(k as int),
        decreases b@.len() - k,
    {
        r.push(b[k]);
        assert(b@.take(k + 1) == b@.take(k as int).push(b@[k as int]));
        k = k + 1;
    }
    assert(b@.take(k as int) == b@);
    r
}

/// The medium matching keys of a record, one per duplicate label; none when
/// its normalised title is empty.
pub fn medium_keys_of(record: &MediaRecord) -> (r: Vec<Vec<char>>)
    ensures
        forall|k: Seq<char>| holds(r@, k) <==> has_medium_key(*record, k),
        forall|a: int, b: int| 0 <= a < r@.len() && 0 <= b < r@.len() && a != b ==> (#[trigger] r@[a])@ != (#[trigger] r@[b])@,
{
    let title = normalize_match_text(record.title.as_str());
    let mut out: Vec<Vec<char>> = Vec::new();
    if title.as_str().unicode_len() == 0 {
        return out;
    }
    let mut prefix = owned("medium:");
    push_str(&mut prefix, title.as_str());
    push_str(&mut prefix, ":");
    push_str(&mut prefix, record.source_kind.as_str());
    push_str(&mut prefix, ":");
    push_str(&mut prefix, record.media_type.as_str());
    push_str(&mut prefix, ":");
    let pv = chars_of(prefix.as_str());
    let labels = duplicate_label_chars(record);
    let mut k: usize = 0;
    while k < labels.len()
        invariant
            k <= labels@.len(),
            out@.len() == k,
            match_text(record.title@).len() > 0,
            strictly_sorted(labels@),
            forall|l: Seq<char>| holds(labels@, l) <==> is_dup_label(*record, l),
            forall|m: int| 0 <= m < k ==> (#[trigger] out@[m])@ == medium_key(*record, labels@[m]@),
            pv@ == "medium:"@ + match_text(record.title@) + ":"@ + record.source_kind@ + ":"@ + record.media_type@ + ":"@,
        decreases labels@.len() - k,
    {
        let key = concat_chars(&pv, &labels[k]);
        out.push(key);
        k = k + 1;
    }
    proof {
        assert forall|key: Seq<char>| holds(out@, key) <==> has_medium_key(*record, key) by {
            if holds(out@, key) {
                let m = choose|m: int| 0 <= m < out@.len() && (#[trigger] out@[m])@ == key;
                assert(holds(labels@, labels@[m]@));
                assert(medium_key(*record, labels@[m]@) == key);
            }
            if has_medium_key(*record, key) {
                let l = choose|l: Seq<char>| is_dup_label(*record, l) && #[trigger] medium_key(*record, l) == key;
                assert(holds(labels@, l));
                let m = choose|m: int| 0 <= m < labels@.len() && (#[trigger] labels@[m])@ == l;
                assert(out@[m]@ == key);
            }
        }
        assert forall|a: int, b: int| 0 <= a < out@.len() && 0 <= b < out@.len() && a != b implies (#[trigger] out@[a])@ != (#[trigger] out@[b])@ by {
            let la = labels@[a]@;
            let lb = labels@[b]@;
            if a < b {
                lemma_lt_irreflexive(la);
                assert(seq_lt(la, lb));
            } else {
                lemma_lt_irreflexive(lb);
                assert(seq_lt(lb, la));
            }
            if out@[a]@ == out@[b]@ {
                assert((pv@ + la).skip(pv@.len() as int) == la);
                assert((pv@ + lb).skip(pv@.len() as int) == lb);
            }
        }
    }
    out
}

pub proof fn lemma_removed_extends(old_r: Seq<DuplicateRemoval>, new_r: Seq<DuplicateRemoval>, s: i64, id: i64)
    requires
        old_r.len() <= new_r.len(),
        forall|q: int| 0 <= q < old_r.len() ==> #[trigger] new_r[q] == old_r[q],
        removed_in(old_r, s, id),
    ensures
        removed_in(new_r, s, id),
{
    let q = choose|q: int| 0 <= q < old_r.len() && (#[trigger] old_r[q]).scope_id == s && old_r[q].media_id == id;
    assert(new_r[q] == old_r[q]);
}


/// The strong keys of the records, as character vectors.
pub open spec fn strong_keys_ok(records: Seq<MediaRecord>, keys: Seq<Option<Vec<char>>>) -> bool {
    &&& keys.len() == records.len()
    &&& forall|i: int| 0 <= i < records.len() ==> match strong_key(#[trigger] records[i]) {
        Some(k) => keys[i] is Some && keys[i]->0@ == k,
        None => keys[i] is None,
    }
}

/// No key occurs twice in `v`.
pub open spec fn distinct_keys(v: Seq<Vec<char>>) -> bool {
    forall|a: int, b: int| 0 <= a < v.len() && 0 <= b < v.len() && a != b ==> (#[trigger] v[a])@ != (#[trigger] v[b])@
}

/// `v` holds exactly the medium keys of `r`, each once.
pub open spec fn medium_keys_of_record(r: MediaRecord, v: Seq<Vec<char>>) -> bool {
    &&& forall|k: Seq<char>| holds(v, k) <==> has_medium_key(r, k)
    &&& distinct_keys(v)
}

/// The medium keys of the records.
pub open spec fn medium_keys_ok(records: Seq<MediaRecord>, keys: Seq<Vec<Vec<char>>>) -> bool {
    &&& keys.len() == records.len()
    &&& forall|i: int| 0 <= i < records.len() ==> medium_keys_of_record(#[trigger] records[i], keys[i]@)
}

/// Two distinct members of the scope with the same strong identity never
/// both stay.
pub open spec fn strong_pairs_resolved(
    records: Seq<MediaRecord>,
    members: Seq<usize>,
    removals: Seq<DuplicateRemoval>,
    s: i64,
) -> bool {
    forall|p1: int, p2: int|
        0 <= p1 < members.len() && 0 <= p2 < members.len() && p1 != p2 && strong_dup(
            records[(#[trigger] members[p1]) as int],
            records[(#[trigger] members[p2]) as int],
        ) ==> removed_in(removals, s, records[members[p1] as int].id) || removed_in(removals, s, records[members[p2] as int].id)
}

/// The state a scope's planning keeps between groups.
pub open spec fn scope_state_ok(
    records: Seq<MediaRecord>,
    members: Seq<usize>,
    claimed: Seq<bool>,
    old_removals: Seq<DuplicateRemoval>,
    removals: Seq<DuplicateRemoval>,
    s: i64,
) -> bool {
    &&& claimed.len() == members.len()
    &&& plan_sound(records, removals)
    &&& claims_cover(records, members, claimed, removals, s)
    &&& claims_involved(records, members, claimed, removals, s)
    &&& old_removals.len() <= removals.len()
    &&& forall|q: int| 0 <= q < old_removals.len() ==> #[trigger] removals[q] == old_removals[q]
    &&& forall|q: int| old_removals.len() <= q < removals.len() ==> (#[trigger] removals[q]).scope_id == s
}

/// `new` extends `old`.
pub open spec fn extends<T>(old: Seq<T>, new: Seq<T>) -> bool {
    old.len() <= new.len() && forall|q: int| 0 <= q < old.len() ==> #[trigger] new[q] == old[q]
}

/// Groups the members of scope `s` that share a strong identity (same file
/// hash, link or managed file), keeping the preferred one of each group.
#[verifier::rlimit(60)]
pub fn collect_duplicate_groups(
    records: &Vec<MediaRecord>,
    strong: &Vec<Option<Vec<char>>>,
    s: i64,
    members: &Vec<usize>,
    removals: &mut Vec<DuplicateRemoval>,
    reasons: &mut Vec<String>,
) -> (claimed: Vec<bool>)
    requires
        valid_records(records@),
        scope_members_ok(records@, members@, s),
        strong_keys_ok(records@, strong@),
        plan_sound(records@, old(removals)@),
        forall|q: int| 0 <= q < old(removals)@.len() ==> (#[trigger] old(removals)@[q]).scope_id != s,
        reports_match(old(reasons)@, old(removals)@),
    ensures
        reports_match(final(reasons)@, final(removals)@),
        scope_state_ok(records@, members@, claimed@, old(removals)@, final(removals)@, s),
        forall|q: int| old(removals)@.len() <= q < final(removals)@.len() ==> strong_removal(records@, members@, #[trigger] final(removals)@[q]),
        extends(old(reasons)@, final(reasons)@),
        forall|q: int| old(reasons)@.len() <= q < final(reasons)@.len() ==> strong_line(records@, s, (#[trigger] final(reasons)@[q])@),
        strong_pairs_resolved(records@, members@, final(removals)@, s),
        extends(old(reasons)@, final(reasons)@),
{
    let ghost start = removals@;
    let ghost start_reasons = reasons@;
    let mut claimed: Vec<bool> = Vec::new();
    let mut p: usize = 0;
    while p < members.len()
        invariant
            p <= members@.len(),
            claimed@.len() == p,
            forall|x: int| 0 <= x < p ==> !(#[trigger] claimed@[x]),
        decreases members@.len() - p,
    {
        claimed.push(false);
        p = p + 1;
    }
    proof {
        assert forall|q: int| 0 <= q < removals@.len() && (#[trigger] removals@[q]).scope_id == s implies claimed_id(records@, members@, claimed@, removals@[q].media_id)
            && claimed_id(records@, members@, claimed@, removals@[q].kept_id) by {
        }
    }
    // strong phase: group the members by strong identity
    let mut keys: Vec<Vec<char>> = Vec::new();
    let mut vals: Vec<usize> = Vec::new();
    let mut p: usize = 0;
    while p < members.len()
        invariant
            p <= members@.len(),
            scope_members_ok(records@, members@, s),
            strong_keys_ok(records@, strong@),
            keys@.len() == vals@.len(),
            forall|t: int| 0 <= t < vals@.len() ==> (#[trigger] vals@[t]) < p && strong_key(records@[members@[vals@[t] as int] as int]) == Some(keys@[t]@),
            forall|t1: int, t2: int| 0 <= t1 < t2 < vals@.len() ==> #[trigger] vals@[t1] < #[trigger] vals@[t2],
            forall|x: int| 0 <= x < p && strong_key(records@[(#[trigger] members@[x]) as int]) is Some ==> exists|t: int| 0 <= t < vals@.len() && vals@[t] == x,
        decreases members@.len() - p,
    {
        let m = members[p];
        let ghost old_vals = vals@;
        match &strong[m] {
            Some(k) => {
                keys.push(k.clone());
                vals.push(p);
                assert(strong_key(records@[m as int]) == Some(k@));
            },
            None => {},
        }
        proof {
            assert forall|x: int| 0 <= x < p + 1 && strong_key(records@[(#[trigger] members@[x]) as int]) is Some implies exists|t: int| 0 <= t < vals@.len() && vals@[t] == x by {
                if x == p {
                    assert(vals@[vals@.len() - 1] == x);
                } else {
                    let t = choose|t: int| 0 <= t < old_vals.len() && old_vals[t] == x;
                    assert(vals@[t] == old_vals[t]);
                }
            }
        }
        p = p + 1;
    }
    let (assign, count) = assign_groups(&keys);
    proof {
        assert forall|t1: int, t2: int|
            0 <= t1 < vals@.len() && 0 <= t2 < vals@.len() && t1 != t2 && assign@[t1] == assign@[t2] implies #[trigger] vals@[t1]
                != #[trigger] vals@[t2] by {
            if t1 < t2 {
            } else {
            }
        }
    }
    let mut g: usize = 0;
    while g < count
        invariant
            g <= count,
            reports_match(reasons@, removals@),
            valid_records(records@),
            scope_members_ok(records@, members@, s),
            strong_keys_ok(records@, strong@),
            keys@.len() == vals@.len(),
            assign@.len() == vals@.len(),
            forall|t: int| 0 <= t < vals@.len() ==> (#[trigger] vals@[t]) < members@.len() && strong_key(records@[members@[vals@[t] as int] as int]) == Some(keys@[t]@),
            forall|t1: int, t2: int| 0 <= t1 < t2 < vals@.len() ==> #[trigger] vals@[t1] < #[trigger] vals@[t2],
            forall|t1: int, t2: int|
                0 <= t1 < vals@.len() && 0 <= t2 < vals@.len() && t1 != t2 && assign@[t1] == assign@[t2] ==> #[trigger] vals@[t1]
                    != #[trigger] vals@[t2],
            forall|t: int| 0 <= t < keys@.len() ==> (#[trigger] assign@[t]) < count,
            forall|t1: int, t2: int|
                0 <= t1 < keys@.len() && 0 <= t2 < keys@.len() ==> ((#[trigger] assign@[t1] == #[trigger] assign@[t2]) <==> keys@[t1]@
                    == keys@[t2]@),
            scope_state_ok(records@, members@, claimed@, start, removals@, s),
            extends(start_reasons, reasons@),
            forall|x: int| 0 <= x < members@.len() && #[trigger] claimed@[x] ==> exists|t: int| 0 <= t < vals@.len() && vals@[t] == x && assign@[t] < g,
            forall|q: int| start.len() <= q < removals@.len() ==> strong_removal(records@, members@, #[trigger] removals@[q]),
            forall|q: int| start_reasons.len() <= q < reasons@.len() ==> strong_line(records@, s, (#[trigger] reasons@[q])@),
            forall|t1: int, t2: int|
                0 <= t1 < vals@.len() && 0 <= t2 < vals@.len() && t1 != t2 && assign@[t1] == assign@[t2] && assign@[t1] < g
                    ==> removed_in(removals@, s, records@[members@[(#[trigger] vals@[t1]) as int] as int].id) || removed_in(
                    removals@,
                    s,
                    records@[members@[(#[trigger] vals@[t2]) as int] as int].id,
                ),
        decreases count - g,
    {
        let group = collect_group(&assign, &vals, g, &claimed);
        let ghost before = removals@;
        let ghost claimed_before = claimed@;
        if group.len() >= 2 {
            let sorted = sort_best(records, members, &group);
            proof {
                assert forall|x: int| 0 <= x < sorted@.len() implies (#[trigger] sorted@[x]) < members@.len() && !claimed@[sorted@[x] as int] by {
                    assert(sorted@.contains(sorted@[x]));
                    assert(group@.contains(sorted@[x]));
                }
                assert forall|x: int| 1 <= x < sorted@.len() implies is_duplicate_of(
                    records@[members@[sorted@[0] as int] as int],
                    records@[members@[(#[trigger] sorted@[x]) as int] as int],
                ) by {
                    assert(sorted@.contains(sorted@[0]));
                    assert(sorted@.contains(sorted@[x]));
                    assert(group@.contains(sorted@[0]));
                    assert(group@.contains(sorted@[x]));
                    let z0 = choose|z: int| 0 <= z < group@.len() && group@[z] == sorted@[0];
                    let zx = choose|z: int| 0 <= z < group@.len() && group@[z] == sorted@[x];
                    assert(from_group(assign@, vals@, g as int, group@[z0]));
                    assert(from_group(assign@, vals@, g as int, group@[zx]));
                    let t0 = choose|t: int| 0 <= t < vals@.len() && assign@[t] == g && vals@[t] == group@[z0];
                    let tx = choose|t: int| 0 <= t < vals@.len() && assign@[t] == g && vals@[t] == group@[zx];
                    assert(keys@[t0]@ == keys@[tx]@);
                }
            }
            proof {
                assert forall|x: int| 1 <= x < sorted@.len() implies strong_dup(
                    records@[members@[sorted@[0] as int] as int],
                    records@[members@[(#[trigger] sorted@[x]) as int] as int],
                ) by {
                    assert(sorted@.contains(sorted@[0]));
                    assert(sorted@.contains(sorted@[x]));
                    assert(group@.contains(sorted@[0]));
                    assert(group@.contains(sorted@[x]));
                    let z0 = choose|z: int| 0 <= z < group@.len() && group@[z] == sorted@[0];
                    let zx = choose|z: int| 0 <= z < group@.len() && group@[z] == sorted@[x];
                    assert(from_group(assign@, vals@, g as int, group@[z0]));
                    assert(from_group(assign@, vals@, g as int, group@[zx]));
                    let t0 = choose|t: int| 0 <= t < vals@.len() && assign@[t] == g && vals@[t] == group@[z0];
                    let tx = choose|t: int| 0 <= t < vals@.len() && assign@[t] == g && vals@[t] == group@[zx];
                    assert(keys@[t0]@ == keys@[tx]@);
                }
            }
            let ident = strong_identity(&records[members[sorted[0]]]);
            let ghost gident = crate::media::pair_view(ident);
            let why = match ident {
                Some(pair) => pair.1,
                None => String::new(),
            };
            let ghost before_reasons = reasons@;
            proof {
                assert(strong_dup(records@[members@[sorted@[0] as int] as int], records@[members@[sorted@[1] as int] as int]));
                assert(gident is Some);
                assert(why@ == (gident->0).1);
            }
            add_group(records, members, s, &sorted, why.as_str(), &mut claimed, removals, reasons);
            proof {
                assert forall|q: int| start_reasons.len() <= q < reasons@.len() implies strong_line(records@, s, (#[trigger] reasons@[q])@) by {
                    if q < before_reasons.len() {
                        assert(reasons@[q] == before_reasons[q]);
                    } else {
                        let i = members@[sorted@[0] as int] as int;
                        let ids = group_removed_ids(records@, members@, sorted@);
                        assert(group_reason(s, (spec_strong_identity(records@[i])->0).1, records@[i].id, ids) == reasons@[q]@);
                    }
                }
                assert forall|q: int| start.len() <= q < removals@.len() implies strong_removal(records@, members@, #[trigger] removals@[q]) by {
                    if q < before.len() {
                        assert(removals@[q] == before[q]);
                    } else {
                        let x = q - before.len() + 1;
                        let p1 = sorted@[x] as int;
                        let p2 = sorted@[0] as int;
                        assert(strong_dup(records@[members@[p2] as int], records@[members@[p1] as int]));
                        assert(strong_pair(records@, members@, removals@[q], p1, p2));
                    }
                }
                assert forall|x: int| 0 <= x < members@.len() && #[trigger] claimed@[x] implies exists|t: int| 0 <= t < vals@.len() && vals@[t] == x && assign@[t] < g + 1 by {
                    if !claimed_before[x] {
                        assert(in_group(sorted@, x));
                        let z = choose|z: int| 0 <= z < sorted@.len() && sorted@[z] as int == x;
                        assert(sorted@.contains(sorted@[z]));
                        assert(group@.contains(sorted@[z]));
                        let z2 = choose|z2: int| 0 <= z2 < group@.len() && group@[z2] == sorted@[z];
                        assert(from_group(assign@, vals@, g as int, group@[z2]));
                    }
                }
                assert forall|t1: int, t2: int|
                    0 <= t1 < vals@.len() && 0 <= t2 < vals@.len() && t1 != t2 && assign@[t1] == assign@[t2] && assign@[t1] < g + 1
                        implies removed_in(removals@, s, records@[members@[(#[trigger] vals@[t1]) as int] as int].id) || removed_in(
                        removals@,
                        s,
                        records@[members@[(#[trigger] vals@[t2]) as int] as int].id,
                    ) by {
                    if assign@[t1] < g {
                        if removed_in(before, s, records@[members@[vals@[t1] as int] as int].id) {
                            lemma_removed_extends(before, removals@, s, records@[members@[vals@[t1] as int] as int].id);
                        } else {
                            lemma_removed_extends(before, removals@, s, records@[members@[vals@[t2] as int] as int].id);
                        }
                    } else {
                        // both are unclaimed members of this group
                        assert(!claimed_before[vals@[t1] as int]) by {
                            if claimed_before[vals@[t1] as int] {
                                let t = choose|t: int| 0 <= t < vals@.len() && vals@[t] == vals@[t1] && assign@[t] < g;
                            }
                        }
                        assert(!claimed_before[vals@[t2] as int]) by {
                            if claimed_before[vals@[t2] as int] {
                                let t = choose|t: int| 0 <= t < vals@.len() && vals@[t] == vals@[t2] && assign@[t] < g;
                            }
                        }
                        assert(in_group(group@, vals@[t1] as int));
                        assert(in_group(group@, vals@[t2] as int));
                        let z1 = choose|z: int| 0 <= z < group@.len() && group@[z] as int == vals@[t1] as int;
                        let z2 = choose|z: int| 0 <= z < group@.len() && group@[z] as int == vals@[t2] as int;
                        assert(group@.contains(group@[z1]));
                        assert(group@.contains(group@[z2]));
                        assert(sorted@.contains(vals@[t1]));
                        assert(sorted@.contains(vals@[t2]));
                        let y1 = choose|y: int| 0 <= y < sorted@.len() && sorted@[y] == vals@[t1];
                        let y2 = choose|y: int| 0 <= y < sorted@.len() && sorted@[y] == vals@[t2];
                        if y1 >= 1 {
                            assert(removed_in(removals@, s, records@[members@[sorted@[y1] as int] as int].id));
                        } else {
                            assert(removed_in(removals@, s, records@[members@[sorted@[y2] as int] as int].id));
                        }
                    }
                }
            }
        } else {
            proof {
                assert forall|x: int| 0 <= x < members@.len() && #[trigger] claimed@[x] implies exists|t: int| 0 <= t < vals@.len() && vals@[t] == x && assign@[t] < g + 1 by {
                    let t = choose|t: int| 0 <= t < vals@.len() && vals@[t] == x && assign@[t] < g;
                }
                assert forall|t1: int, t2: int|
                    0 <= t1 < vals@.len() && 0 <= t2 < vals@.len() && t1 != t2 && assign@[t1] == assign@[t2] && assign@[t1] < g + 1
                        implies removed_in(removals@, s, records@[members@[(#[trigger] vals@[t1]) as int] as int].id) || removed_in(
                        removals@,
                        s,
                        records@[members@[(#[trigger] vals@[t2]) as int] as int].id,
                    ) by {
                    if assign@[t1] == g {
                        assert(!claimed@[vals@[t1] as int]) by {
                            if claimed@[vals@[t1] as int] {
                                let t = choose|t: int| 0 <= t < vals@.len() && vals@[t] == vals@[t1] && assign@[t] < g;
                            }
                        }
                        assert(!claimed@[vals@[t2] as int]) by {
                            if claimed@[vals@[t2] as int] {
                                let t = choose|t: int| 0 <= t < vals@.len() && vals@[t] == vals@[t2] && assign@[t] < g;
                            }
                        }
                        assert(in_group(group@, vals@[t1] as int));
                        assert(in_group(group@, vals@[t2] as int));
                        let z1 = choose|z: int| 0 <= z < group@.len() && group@[z] as int == vals@[t1] as int;
                        let z2 = choose|z: int| 0 <= z < group@.len() && group@[z] as int == vals@[t2] as int;
                        assert(z1 != z2);
                    }
                }
            }
        }
        g = g + 1;
    }
    proof {
        assert forall|p1: int, p2: int|
            0 <= p1 < members@.len() && 0 <= p2 < members@.len() && p1 != p2 && strong_dup(
                records@[(#[trigger] members@[p1]) as int],
                records@[(#[trigger] members@[p2]) as int],
            ) implies removed_in(removals@, s, records@[members@[p1] as int].id) || removed_in(removals@, s, records@[members@[p2] as int].id) by {
            let t1 = choose|t: int| 0 <= t < vals@.len() && vals@[t] == p1;
            let t2 = choose|t: int| 0 <= t < vals@.len() && vals@[t] == p2;
            assert(keys@[t1]@ == keys@[t2]@);
            assert(assign@[t1] == assign@[t2]);
        }
    }
    claimed
}

/// The medium keys of the unclaimed members of a scope, one entry per key:
/// `keys[t]` is a key of the member at position `vals[t]`.
pub open spec fn medium_entries_ok(
    records: Seq<MediaRecord>,
    members: Seq<usize>,
    claimed: Seq<bool>,
    keys: Seq<Vec<char>>,
    vals: Seq<usize>,
) -> bool {
    &&& keys.len() == vals.len()
    &&& forall|t: int| 0 <= t < vals.len() ==> (#[trigger] vals[t]) < members.len() && has_medium_key(records[members[vals[t] as int] as int], keys[t]@)
        && !claimed[vals[t] as int]
    &&& forall|t1: int, t2: int|
        0 <= t1 < vals.len() && 0 <= t2 < vals.len() && t1 != t2 && vals[t1] == vals[t2] ==> (#[trigger] keys[t1])@ != (#[trigger] keys[t2])@
}

/// Lists the medium keys of every unclaimed member of a scope.
pub fn medium_entries(
    records: &Vec<MediaRecord>,
    medium: &Vec<Vec<Vec<char>>>,
    members: &Vec<usize>,
    claimed: &Vec<bool>,
) -> (r: (Vec<Vec<char>>, Vec<usize>))
    requires
        medium_keys_ok(records@, medium@),
        claimed@.len() == members@.len(),
        forall|p: int| 0 <= p < members@.len() ==> (#[trigger] members@[p]) < records@.len(),
    ensures
        medium_entries_ok(records@, members@, claimed@, r.0@, r.1@),
        forall|x: int, k: Seq<char>|
            0 <= x < members@.len() && !claimed@[x] && #[trigger] has_medium_key(records@[members@[x] as int], k) ==> exists|t: int|
                0 <= t < r.1@.len() && r.1@[t] == x && (#[trigger] r.0@[t])@ == k,
{
    let mut keys: Vec<Vec<char>> = Vec::new();
    let mut vals: Vec<usize> = Vec::new();
    let mut p: usize = 0;
    while p < members.len()
        invariant
            p <= members@.len(),
            medium_keys_ok(records@, medium@),
            claimed@.len() == members@.len(),
            forall|q: int| 0 <= q < members@.len() ==> (#[trigger] members@[q]) < records@.len(),
            medium_entries_ok(records@, members@, claimed@, keys@, vals@),
            forall|t: int| 0 <= t < vals@.len() ==> (#[trigger] vals@[t]) < p,
            forall|x: int, k: Seq<char>|
                0 <= x < p && !claimed@[x] && #[trigger] has_medium_key(records@[members@[x] as int], k) ==> exists|t: int|
                    0 <= t < vals@.len() && vals@[t] == x && (#[trigger] keys@[t])@ == k,
        decreases members@.len() - p,
    {
        if !claimed[p] {
            let m = members[p];
            let ks = &medium[m];
            let ghost base = vals@.len();
            let ghost keys0 = keys@;
            let ghost vals0 = vals@;
            assert(medium_keys_of_record(records@[m as int], medium@[m as int]@));
            let mut j: usize = 0;
            while j < ks.len()
                invariant
                    j <= ks@.len(),
                    m < medium@.len(),
                    ks@ == medium@[m as int]@,
                    m == members@[p as int],
                    vals0.len() == base,
                    keys0.len() == base,
                    p < members@.len(),
                    medium_keys_of_record(records@[m as int], ks@),
                    claimed@.len() == members@.len(),
                    !claimed@[p as int],
                    forall|q: int| 0 <= q < members@.len() ==> (#[trigger] members@[q]) < records@.len(),
                    keys@.len() == vals@.len(),
                    vals@.len() == base + j,
                    forall|t: int| 0 <= t < base ==> #[trigger] vals@[t] == vals0[t] && keys@[t] == keys0[t],
                    forall|t: int| base <= t < vals@.len() ==> #[trigger] vals@[t] == p && keys@[t]@ == ks@[t - base]@,
                    medium_entries_ok(records@, members@, claimed@, keys0, vals0),
                    forall|t: int| 0 <= t < base ==> (#[trigger] vals0[t]) < p,
                decreases ks@.len() - j,
            {
                let k = ks[j].clone();
                assert(k@ == ks@[j as int]@);
                keys.push(k);
                vals.push(p);
                assert(keys@[base + j]@ == ks@[j as int]@);
                j = j + 1;
            }
            proof {
                assert forall|t: int| 0 <= t < vals@.len() implies (#[trigger] vals@[t]) < members@.len() && has_medium_key(records@[members@[vals@[t] as int] as int], keys@[t]@)
                    && !claimed@[vals@[t] as int] by {
                    if t >= base {
                        assert(holds(ks@, ks@[t - base]@));
                    } else {
                        assert(vals0[t] == vals@[t]);
                    }
                }
                assert forall|t1: int, t2: int|
                    0 <= t1 < vals@.len() && 0 <= t2 < vals@.len() && t1 != t2 && vals@[t1] == vals@[t2] implies (#[trigger] keys@[t1])@ != (#[trigger] keys@[t2])@ by {
                    if t1 >= base && t2 >= base {
                        assert(distinct_keys(ks@));
                        assert(ks@[t1 - base]@ != ks@[t2 - base]@);
                    } else if t1 < base && t2 < base {
                        assert(vals0[t1] == vals0[t2]);
                    } else if t1 < base {
                        assert(vals0[t1] < p);
                    } else {
                        assert(vals0[t2] < p);
                    }
                }
                assert forall|x: int, k: Seq<char>|
                    0 <= x < p + 1 && !claimed@[x] && #[trigger] has_medium_key(records@[members@[x] as int], k) implies exists|t: int|
                        0 <= t < vals@.len() && vals@[t] == x && (#[trigger] keys@[t])@ == k by {
                    if x == p {
                        assert(holds(ks@, k));
                        let i = choose|i: int| 0 <= i < ks@.len() && (#[trigger] ks@[i])@ == k;
                        assert(vals@.len() == base + ks@.len());
                        assert(base <= base + i < vals@.len());
                        assert(vals@[base + i] == p);
                        assert(keys@[base + i]@ == ks@[base + i - base]@);
                        assert(vals@[base + i] == x && keys@[base + i]@ == k);
                    } else {
                        assert(x < p);
                        assert(exists|t: int| 0 <= t < vals0.len() && vals0[t] == x && (#[trigger] keys0[t])@ == k);
                        let t = choose|t: int| 0 <= t < vals0.len() && vals0[t] == x && (#[trigger] keys0[t])@ == k;
                        assert(vals@[t] == vals0[t]);
                        assert(keys@[t] == keys0[t]);
                        assert(vals@[t] == x && keys@[t]@ == k);
                    }
                }
            }
        }
        p = p + 1;
    }
    (keys, vals)
}

/// Groups the members of scope `s` that no strong group claimed and that
/// share their normalised title, source kind, media type and an alias or
/// tag, keeping the preferred one of each group.
#[verifier::rlimit(80)]
pub fn collect_medium_duplicate_groups(
    records: &Vec<MediaRecord>,
    medium: &Vec<Vec<Vec<char>>>,
    s: i64,
    members: &Vec<usize>,
    claimed: &mut Vec<bool>,
    removals: &mut Vec<DuplicateRemoval>,
    reasons: &mut Vec<String>,
)
    requires
        valid_records(records@),
        scope_members_ok(records@, members@, s),
        medium_keys_ok(records@, medium@),
        scope_state_ok(records@, members@, old(claimed)@, old(removals)@, old(removals)@, s),
        reports_match(old(reasons)@, old(removals)@),
    ensures
        reports_match(final(reasons)@, final(removals)@),
        scope_state_ok(records@, members@, final(claimed)@, old(removals)@, final(removals)@, s),
        forall|q: int| old(removals)@.len() <= q < final(removals)@.len() ==> medium_removal(
            records@,
            members@,
            old(claimed)@,
            #[trigger] final(removals)@[q],
        ),
        forall|q: int| old(reasons)@.len() <= q < final(reasons)@.len() ==> medium_line(s, (#[trigger] final(reasons)@[q])@),
        forall|p: int| 0 <= p < members@.len() && #[trigger] old(claimed)@[p] ==> final(claimed)@[p],
        forall|q: int| old(removals)@.len() <= q < final(removals)@.len() ==> in_complete_group(
            records@,
            members@,
            final(removals)@,
            s,
            old(claimed)@,
            final(claimed)@,
            #[trigger] final(removals)@[q],
        ),
        forall|p1: int, p2: int|
            0 <= p1 < members@.len() && 0 <= p2 < members@.len() && p1 != p2 && medium_dup(
                records@[(#[trigger] members@[p1]) as int],
                records@[(#[trigger] members@[p2]) as int],
            ) ==> final(claimed)@[p1] || final(claimed)@[p2],
        extends(old(reasons)@, final(reasons)@),
{
    let ghost start = removals@;
    let ghost start_reasons = reasons@;
    let ghost start_claimed = claimed@;
    let (keys, vals) = medium_entries(records, medium, members, claimed);
    let (assign, count) = assign_groups(&keys);
    proof {
        assert forall|t1: int, t2: int|
            0 <= t1 < vals@.len() && 0 <= t2 < vals@.len() && t1 != t2 && assign@[t1] == assign@[t2] implies #[trigger] vals@[t1]
                != #[trigger] vals@[t2] by {
            assert(keys@[t1]@ == keys@[t2]@);
        }
    }
    let mut g: usize = 0;
    while g < count
        invariant
            g <= count,
            reports_match(reasons@, removals@),
            valid_records(records@),
            scope_members_ok(records@, members@, s),
            medium_entries_ok(records@, members@, start_claimed, keys@, vals@),
            assign@.len() == vals@.len(),
            forall|t1: int, t2: int|
                0 <= t1 < vals@.len() && 0 <= t2 < vals@.len() && t1 != t2 && assign@[t1] == assign@[t2] ==> #[trigger] vals@[t1]
                    != #[trigger] vals@[t2],
            forall|t: int| 0 <= t < keys@.len() ==> (#[trigger] assign@[t]) < count,
            forall|t1: int, t2: int|
                0 <= t1 < keys@.len() && 0 <= t2 < keys@.len() ==> ((#[trigger] assign@[t1] == #[trigger] assign@[t2]) <==> keys@[t1]@
                    == keys@[t2]@),
            scope_state_ok(records@, members@, claimed@, start, removals@, s),
            start_claimed.len() == members@.len(),
            forall|p: int| 0 <= p < members@.len() && #[trigger] start_claimed[p] ==> claimed@[p],
            extends(start_reasons, reasons@),
            forall|q: int| start.len() <= q < removals@.len() ==> medium_removal(records@, members@, start_claimed, #[trigger] removals@[q]),
            forall|q: int| start_reasons.len() <= q < reasons@.len() ==> medium_line(s, (#[trigger] reasons@[q])@),
            forall|t1: int, t2: int|
                0 <= t1 < vals@.len() && 0 <= t2 < vals@.len() && t1 != t2 && assign@[t1] == assign@[t2] && assign@[t1] < g
                    ==> claimed@[(#[trigger] vals@[t1]) as int] || claimed@[(#[trigger] vals@[t2]) as int],
            forall|q: int| start.len() <= q < removals@.len() ==> in_complete_group(
                records@,
                members@,
                removals@,
                s,
                start_claimed,
                claimed@,
                #[trigger] removals@[q],
            ),
            forall|x: int, k: Seq<char>|
                0 <= x < members@.len() && !start_claimed[x] && #[trigger] has_medium_key(records@[members@[x] as int], k) ==> exists|t: int|
                    0 <= t < vals@.len() && vals@[t] == x && (#[trigger] keys@[t])@ == k,
        decreases count - g,
    {
        let group = collect_group(&assign, &vals, g, &claimed);
        let ghost claimed_before = claimed@;
        let ghost before = removals@;
        let ghost before_reasons = reasons@;
        if group.len() >= 2 {
            let sorted = sort_best(records, members, &group);
            proof {
                assert forall|x: int| 0 <= x < sorted@.len() implies (#[trigger] sorted@[x]) < members@.len() && !claimed@[sorted@[x] as int] by {
                    assert(sorted@.contains(sorted@[x]));
                    assert(group@.contains(sorted@[x]));
                }
                assert forall|x: int| 1 <= x < sorted@.len() implies medium_dup(
                    records@[members@[sorted@[0] as int] as int],
                    records@[members@[(#[trigger] sorted@[x]) as int] as int],
                ) by {
                    assert(sorted@.contains(sorted@[0]));
                    assert(sorted@.contains(sorted@[x]));
                    assert(group@.contains(sorted@[0]));
                    assert(group@.contains(sorted@[x]));
                    let z0 = choose|z: int| 0 <= z < group@.len() && group@[z] == sorted@[0];
                    let zx = choose|z: int| 0 <= z < group@.len() && group@[z] == sorted@[x];
                    assert(from_group(assign@, vals@, g as int, group@[z0]));
                    assert(from_group(assign@, vals@, g as int, group@[zx]));
                    let t0 = choose|t: int| 0 <= t < vals@.len() && assign@[t] == g && vals@[t] == group@[z0];
                    let tx = choose|t: int| 0 <= t < vals@.len() && assign@[t] == g && vals@[t] == group@[zx];
                    assert(keys@[t0]@ == keys@[tx]@);
                    let k = keys@[t0]@;
                    assert(has_medium_key(records@[members@[sorted@[0] as int] as int], k));
                    assert(has_medium_key(records@[members@[sorted@[x] as int] as int], k));
                }
            }
            add_group(records, members, s, &sorted, "title + overlapping aliases/tags", claimed, removals, reasons);
            proof {
                assert forall|q: int| start.len() <= q < removals@.len() implies in_complete_group(
                    records@,
                    members@,
                    removals@,
                    s,
                    start_claimed,
                    claimed@,
                    #[trigger] removals@[q],
                ) by {
                    if q < before.len() {
                        assert(removals@[q] == before[q]);
                        lemma_complete_group_extends(records@, members@, before, removals@, s, start_claimed, claimed_before, claimed@, before[q]);
                    } else {
                        lemma_medium_group_formed(records@, members@, s, keys@, vals@, assign@, g as int, start_claimed, claimed_before, group@, sorted@, before, removals@);
                        let p2 = sorted@[0] as int;
                        assert(in_group(sorted@, p2));
                        assert forall|p: int| 0 <= p < members@.len() && claimed_before[p] implies claimed@[p] by {
                        }
                        let t0 = choose|t: int|
                            0 <= t < vals@.len() && assign@[t] == g && vals@[t] == sorted@[0] && #[trigger] medium_group_complete(
                                records@,
                                members@,
                                removals@,
                                s,
                                claimed_before,
                                sorted@[0] as int,
                                keys@[t]@,
                            );
                        assert(medium_group_complete(records@, members@, removals@, s, claimed_before, p2, keys@[t0]@));
                    }
                }
                assert forall|q: int| start_reasons.len() <= q < reasons@.len() implies medium_line(s, (#[trigger] reasons@[q])@) by {
                    if q < before_reasons.len() {
                        assert(reasons@[q] == before_reasons[q]);
                    } else {
                        let kept = records@[members@[sorted@[0] as int] as int].id;
                        let ids = group_removed_ids(records@, members@, sorted@);
                        assert(group_reason(s, medium_reason(), kept, ids) == reasons@[q]@);
                    }
                }
                assert forall|q: int| start.len() <= q < removals@.len() implies medium_removal(records@, members@, start_claimed, #[trigger] removals@[q]) by {
                    if q < before.len() {
                        assert(removals@[q] == before[q]);
                    } else {
                        let x = q - before.len() + 1;
                        let p1 = sorted@[x] as int;
                        let p2 = sorted@[0] as int;
                        assert(medium_dup(records@[members@[p2] as int], records@[members@[p1] as int]));
                        assert(!claimed_before[p1] && !claimed_before[p2]);
                        assert(medium_pair(records@, members@, start_claimed, removals@[q], p1, p2));
                    }
                }
                assert forall|t1: int, t2: int|
                    0 <= t1 < vals@.len() && 0 <= t2 < vals@.len() && t1 != t2 && assign@[t1] == assign@[t2] && assign@[t1] < g + 1
                        implies claimed@[(#[trigger] vals@[t1]) as int] || claimed@[(#[trigger] vals@[t2]) as int] by {
                    if assign@[t1] < g {
                        if claimed_before[vals@[t1] as int] {
                        } else {
                        }
                    } else if !claimed_before[vals@[t1] as int] {
                        assert(in_group(group@, vals@[t1] as int));
                        let z1 = choose|z: int| 0 <= z < group@.len() && group@[z] as int == vals@[t1] as int;
                        assert(group@.contains(group@[z1]));
                        assert(sorted@.contains(vals@[t1]));
                        let y1 = choose|y: int| 0 <= y < sorted@.len() && sorted@[y] == vals@[t1];
                        assert(in_group(sorted@, vals@[t1] as int));
                    }
                }
            }
        } else {
            proof {
                assert forall|t1: int, t2: int|
                    0 <= t1 < vals@.len() && 0 <= t2 < vals@.len() && t1 != t2 && assign@[t1] == assign@[t2] && assign@[t1] < g + 1
                        implies claimed@[(#[trigger] vals@[t1]) as int] || claimed@[(#[trigger] vals@[t2]) as int] by {
                    if assign@[t1] == g && !claimed@[vals@[t1] as int] && !claimed@[vals@[t2] as int] {
                        assert(in_group(group@, vals@[t1] as int));
                        assert(in_group(group@, vals@[t2] as int));
                        let z1 = choose|z: int| 0 <= z < group@.len() && group@[z] as int == vals@[t1] as int;
                        let z2 = choose|z: int| 0 <= z < group@.len() && group@[z] as int == vals@[t2] as int;
                        assert(z1 != z2);
                    }
                }
            }
        }
        g = g + 1;
    }
    proof {
        assert forall|p1: int, p2: int|
            0 <= p1 < members@.len() && 0 <= p2 < members@.len() && p1 != p2 && medium_dup(
                records@[(#[trigger] members@[p1]) as int],
                records@[(#[trigger] members@[p2]) as int],
            ) implies claimed@[p1] || claimed@[p2] by {
            if !start_claimed[p1] && !start_claimed[p2] {
                let k = choose|k: Seq<char>| #[trigger] has_medium_key(records@[members@[p1] as int], k) && has_medium_key(records@[members@[p2] as int], k);
                let t1 = choose|t: int| 0 <= t < vals@.len() && vals@[t] == p1 && (#[trigger] keys@[t])@ == k;
                let t2 = choose|t: int| 0 <= t < vals@.len() && vals@[t] == p2 && (#[trigger] keys@[t])@ == k;
                assert(assign@[t1] == assign@[t2]);
            }
        }
    }
}

/// The positions of the records of scope `s`, in order.
pub fn scope_member_positions(records: &Vec<MediaRecord>, s: i64) -> (r: Vec<usize>)
    ensures
        scope_members_ok(records@, r@, s),
        forall|i: int| 0 <= i < records@.len() && #[trigger] in_scope(records@[i], s) ==> exists|p: int| 0 <= p < r@.len() && r@[p] == i,
{
    let mut out: Vec<usize> = Vec::new();
    let mut i: usize = 0;
    while i < records.len()
        invariant
            i <= records@.len(),
            forall|p: int| 0 <= p < out@.len() ==> (#[trigger] out@[p]) < i && in_scope(records@[out@[p] as int], s),
            forall|p1: int, p2: int| 0 <= p1 < p2 < out@.len() ==> #[trigger] out@[p1] < #[trigger] out@[p2],
            forall|x: int| 0 <= x < i && #[trigger] in_scope(records@[x], s) ==> exists|p: int| 0 <= p < out@.len() && out@[p] == x,
        decreases records@.len() - i,
    {
        let ghost before = out@;
        if record_in_scope(&records[i], s) {
            out.push(i);
        }
        proof {
            assert forall|x: int| 0 <= x < i + 1 && #[trigger] in_scope(records@[x], s) implies exists|p: int| 0 <= p < out@.len() && out@[p] == x by {
                if x == i {
                    assert(out@[out@.len() - 1] == x);
                } else {
                    let p = choose|p: int| 0 <= p < before.len() && before[p] == x;
                    assert(out@[p] == before[p]);
                }
            }
        }
        i = i + 1;
    }
    proof {
        assert forall|p1: int, p2: int| 0 <= p1 < out@.len() && 0 <= p2 < out@.len() && p1 != p2 implies out@[p1] != out@[p2] by {
            if p1 < p2 {
                assert(out@[p1] < out@[p2]);
            } else {
                assert(out@[p2] < out@[p1]);
            }
        }
    }
    out
}

/// The scopes of the library: folder ids that some record is in, and 0 when
/// some record is in no folder.
pub open spec fn scope_set(records: Seq<MediaRecord>) -> Set<i64> {
    Set::new(|s: i64| exists|i: int| 0 <= i < records.len() && #[trigger] in_scope(records[i], s))
}

/// Each scope of the library once, in order of first appearance.
pub fn list_scopes(records: &Vec<MediaRecord>) -> (r: Vec<i64>)
    ensures
        r@.no_duplicates(),
        r@.to_set() == scope_set(records@),
{
    let mut out: Vec<i64> = Vec::new();
    let mut i: usize = 0;
    while i < records.len()
        invariant
            i <= records@.len(),
            out@.no_duplicates(),
            forall|x: i64| out@.contains(x) <==> exists|k: int| 0 <= k < i && #[trigger] in_scope(records@[k], x),
        decreases records@.len() - i,
    {
        let rec = &records[i];
        let ghost before = out@;
        if rec.folder_ids.len() == 0 {
            if !vec_contains_i64(&out, 0) {
                out.push(0);
            }
            proof {
                assert forall|x: i64| out@.contains(x) <==> exists|k: int| 0 <= k < i + 1 && #[trigger] in_scope(records@[k], x) by {
                    if out@.contains(x) && !before.contains(x) {
                        assert(x == 0);
                        assert(in_scope(records@[i as int], x));
                    }
                    if before.contains(x) {
                        let k = choose|k: int| 0 <= k < i && #[trigger] in_scope(records@[k], x);
                        assert(out@.contains(x)) by {
                            let m = choose|m: int| 0 <= m < before.len() && before[m] == x;
                            assert(out@[m] == x);
                        }
                    }
                    if exists|k: int| 0 <= k < i + 1 && #[trigger] in_scope(records@[k], x) {
                        let k = choose|k: int| 0 <= k < i + 1 && #[trigger] in_scope(records@[k], x);
                        if k == i {
                            assert(x == 0);
                            if !before.contains(0) {
                                assert(out@[out@.len() - 1] == 0);
                            } else {
                                let m = choose|m: int| 0 <= m < before.len() && before[m] == 0;
                                assert(out@[m] == 0);
                            }
                        } else {
                            assert(before.contains(x));
                            let m = choose|m: int| 0 <= m < before.len() && before[m] == x;
                            assert(out@[m] == x);
                        }
                    }
                }
            }
        } else {
            let mut f: usize = 0;
            while f < rec.folder_ids.len()
                invariant
                    f <= rec.folder_ids@.len(),
                    i < records@.len(),
                    rec == &records@[i as int],
                    rec.folder_ids@.len() > 0,
                    out@.no_duplicates(),
                    forall|x: i64| out@.contains(x) <==> (before.contains(x) || rec.folder_ids@.take(f as int).contains(x)),
                decreases rec.folder_ids@.len() - f,
            {
                let id = rec.folder_ids[f];
                let ghost mid = out@;
                let present = vec_contains_i64(&out, id);
                if !present {
                    out.push(id);
                }
                proof {
                    let t0 = rec.folder_ids@.take(f as int);
                    let t1 = rec.folder_ids@.take(f + 1);
                    assert(t1 == t0.push(id));
                    assert(forall|x: i64| mid.contains(x) <==> (before.contains(x) || t0.contains(x)));
                    if present {
                        assert(out@ == mid);
                    } else {
                        assert(out@ == mid.push(id));
                        assert forall|x: i64| out@.contains(x) <==> (mid.contains(x) || x == id) by {
                            if out@.contains(x) {
                                let m = choose|m: int| 0 <= m < out@.len() && out@[m] == x;
                                if m < mid.len() {
                                    assert(mid[m] == x);
                                }
                            }
                            if mid.contains(x) {
                                let m = choose|m: int| 0 <= m < mid.len() && mid[m] == x;
                                assert(out@[m] == x);
                            }
                            if x == id {
                                assert(out@[mid.len() as int] == x);
                            }
                        }
                    }
                    assert forall|x: i64| out@.contains(x) <==> (before.contains(x) || t1.contains(x)) by {
                        if mid.contains(x) {
                            let m = choose|m: int| 0 <= m < mid.len() && mid[m] == x;
                            assert(out@[m] == x);
                        }
                        if t0.contains(x) {
                            let m = choose|m: int| 0 <= m < t0.len() && t0[m] == x;
                            assert(t1[m] == x);
                        }
                        if t1.contains(x) && x != id {
                            let m = choose|m: int| 0 <= m < t1.len() && t1[m] == x;
                            assert(t0[m] == x);
                        }
                        if x == id {
                            assert(t1[f as int] == x);
                            if !mid.contains(id) {
                                assert(out@[out@.len() - 1] == id);
                            }
                        }
                        if out@.contains(x) && !mid.contains(x) {
                            assert(x == id);
                        }
                    }
                }
                f = f + 1;
            }
            proof {
                assert(rec.folder_ids@.take(f as int) == rec.folder_ids@);
                assert forall|x: i64| out@.contains(x) <==> exists|k: int| 0 <= k < i + 1 && #[trigger] in_scope(records@[k], x) by {
                    if before.contains(x) {
                        let k = choose|k: int| 0 <= k < i && #[trigger] in_scope(records@[k], x);
                    }
                    if rec.folder_ids@.contains(x) {
                        assert(in_scope(records@[i as int], x));
                    }
                    if exists|k: int| 0 <= k < i + 1 && #[trigger] in_scope(records@[k], x) {
                        let k = choose|k: int| 0 <= k < i + 1 && #[trigger] in_scope(records@[k], x);
                        if k < i {
                            assert(before.contains(x));
                        }
                    }
                }
            }
        }
        i = i + 1;
    }
    assert(out@.to_set() =~= scope_set(records@));
    out
}

/// `v` contains `x`.
pub fn vec_contains_i64(v: &Vec<i64>, x: i64) -> (r: bool)
    ensures
        r == v@.contains(x),
{
    let mut k: usize = 0;
    while k < v.len()
        invariant
            k <= v@.len(),
            forall|m: int| 0 <= m < k ==> v@[m] != x,
        decreases v@.len() - k,
    {
        if v[k] == x {
            assert(v@[k as int] == x);
            return true;
        }
        k = k + 1;
    }
    false
}

/// A normalised title inside its scope.
pub type ScopedTitle = (i64, Seq<char>);

/// How often `x` occurs in `s`.
pub open spec fn count_of(s: Seq<ScopedTitle>, x: ScopedTitle) -> nat
    decreases s.len(),
{
    if s.len() == 0 {
        0
    } else {
        count_of(s.drop_last(), x) + if s.last() == x { 1nat } else { 0nat }
    }
}

/// How many values occur at least twice in `s`: an entry counts when it is
/// the second occurrence of its value.
pub open spec fn repeated_values(s: Seq<ScopedTitle>) -> nat
    decreases s.len(),
{
    if s.len() == 0 {
        0
    } else {
        repeated_values(s.drop_last()) + if count_of(s.drop_last(), s.last()) == 1 { 1nat } else { 0nat }
    }
}

/// The normalised titles of the first `n` records that are in scope `s` and
/// take part in none of its duplicate groups.
pub open spec fn loose_titles(records: Seq<MediaRecord>, removals: Seq<DuplicateRemoval>, s: i64, n: int) -> Seq<ScopedTitle>
    decreases n,
{
    if n <= 0 {
        Seq::empty()
    } else {
        let prev = loose_titles(records, removals, s, n - 1);
        if in_scope(records[n - 1], s) && !involved(removals, s, records[n - 1].id) {
            prev.push((s, match_text(records[n - 1].title@)))
        } else {
            prev
        }
    }
}

/// The loose titles of each scope in turn.
pub open spec fn loose_entries(records: Seq<MediaRecord>, removals: Seq<DuplicateRemoval>, scopes: Seq<i64>) -> Seq<ScopedTitle>
    decreases scopes.len(),
{
    if scopes.len() == 0 {
        Seq::empty()
    } else {
        loose_entries(records, removals, scopes.drop_last()) + loose_titles(records, removals, scopes.last(), records.len() as int)
    }
}

/// Titles shared, inside one scope, by two or more records that no
/// duplicate group took: groups that a purge reports but leaves alone.
pub open spec fn title_only_groups(records: Seq<MediaRecord>, removals: Seq<DuplicateRemoval>, scopes: Seq<i64>) -> nat {
    repeated_values(loose_entries(records, removals, scopes))
}

/// The scoped titles held by two parallel vectors.
pub open spec fn scoped_views(scope_of: Seq<i64>, titles: Seq<Vec<char>>) -> Seq<ScopedTitle> {
    Seq::new(scope_of.len(), |t: int| (scope_of[t], titles[t]@))
}

/// `involved` for executable code.
pub fn is_involved(removals: &Vec<DuplicateRemoval>, s: i64, id: i64) -> (r: bool)
    ensures
        r == involved(removals@, s, id),
{
    let mut q: usize = 0;
    while q < removals.len()
        invariant
            q <= removals@.len(),
            forall|u: int| 0 <= u < q ==> !((#[trigger] removals@[u]).scope_id == s && (removals@[u].media_id == id || removals@[u].kept_id == id)),
        decreases removals@.len() - q,
    {
        let rm = &removals[q];
        if rm.scope_id == s && (rm.media_id == id || rm.kept_id == id) {
            proof {
                if rm.media_id == id {
                    assert(removed_in(removals@, s, id));
                } else {
                    assert(kept_in(removals@, s, id));
                }
            }
            return true;
        }
        q = q + 1;
    }
    false
}

/// Counts the scoped titles that occur at least twice.
pub fn count_repeated(scope_of: &Vec<i64>, titles: &Vec<Vec<char>>) -> (r: usize)
    requires
        scope_of@.len() == titles@.len(),
    ensures
        r == repeated_values(scoped_views(scope_of@, titles@)),
{
    let ghost dv = scoped_views(scope_of@, titles@);
    let mut total: usize = 0;
    let mut t: usize = 0;
    while t < titles.len()
        invariant
            t <= titles@.len(),
            scope_of@.len() == titles@.len(),
            dv == scoped_views(scope_of@, titles@),
            total <= t,
            total == repeated_values(dv.take(t as int)),
        decreases titles@.len() - t,
    {
        let mut c: usize = 0;
        let mut u: usize = 0;
        while u < t
            invariant
                u <= t,
                t < titles@.len(),
                scope_of@.len() == titles@.len(),
                dv == scoped_views(scope_of@, titles@),
                c <= u,
                c == count_of(dv.take(u as int), dv[t as int]),
            decreases t - u,
        {
            let same = scope_of[u] == scope_of[t] && chars_eq(&titles[u], &titles[t]);
            proof {
                let a = dv.take(u + 1);
                assert(a.drop_last() == dv.take(u as int));
                assert(a.last() == dv[u as int]);
            }
            if same {
                c = c + 1;
            }
            u = u + 1;
        }
        proof {
            let a = dv.take(t + 1);
            assert(a.drop_last() == dv.take(t as int));
            assert(a.last() == dv[t as int]);
        }
        if c == 1 {
            total = total + 1;
        }
        t = t + 1;
    }
    assert(dv.take(t as int) == dv);
    total
}


/// In scope `s`, of two records with the same strong identity at least one
/// is removed, and of two with a medium match at least one takes part in a
/// duplicate group.
pub open spec fn scope_resolved(records: Seq<MediaRecord>, removals: Seq<DuplicateRemoval>, s: i64) -> bool {
    forall|i: int, j: int|
        #![trigger in_scope(records[i], s), in_scope(records[j], s)]
        0 <= i < records.len() && 0 <= j < records.len() && i != j && in_scope(records[i], s) && in_scope(records[j], s) ==> (
        strong_dup(records[i], records[j]) ==> removed_in(removals, s, records[i].id) || removed_in(removals, s, records[j].id))
            && (medium_dup(records[i], records[j]) ==> involved(removals, s, records[i].id) || involved(removals, s, records[j].id))
}

pub proof fn lemma_resolved_extends(records: Seq<MediaRecord>, old_r: Seq<DuplicateRemoval>, new_r: Seq<DuplicateRemoval>, s: i64)
    requires
        extends(old_r, new_r),
        scope_resolved(records, old_r, s),
    ensures
        scope_resolved(records, new_r, s),
{
    assert forall|i: int, j: int|
        0 <= i < records.len() && 0 <= j < records.len() && i != j && #[trigger] in_scope(records[i], s) && #[trigger] in_scope(records[j], s) implies (
        strong_dup(records[i], records[j]) ==> removed_in(new_r, s, records[i].id) || removed_in(new_r, s, records[j].id))
            && (medium_dup(records[i], records[j]) ==> involved(new_r, s, records[i].id) || involved(new_r, s, records[j].id)) by {
        if strong_dup(records[i], records[j]) {
            if removed_in(old_r, s, records[i].id) {
                lemma_removed_extends(old_r, new_r, s, records[i].id);
            } else {
                lemma_removed_extends(old_r, new_r, s, records[j].id);
            }
        }
        if medium_dup(records[i], records[j]) {
            if involved(old_r, s, records[i].id) {
                lemma_involved_extends(old_r, new_r, s, records[i].id);
            } else {
                lemma_involved_extends(old_r, new_r, s, records[j].id);
            }
        }
    }
}

/// Plans the duplicate removals of one scope: first the strong groups, then
/// the medium ones among the records that are left.
#[verifier::rlimit(40)]
pub fn plan_scope(
    records: &Vec<MediaRecord>,
    strong: &Vec<Option<Vec<char>>>,
    medium: &Vec<Vec<Vec<char>>>,
    s: i64,
    removals: &mut Vec<DuplicateRemoval>,
    reasons: &mut Vec<String>,
)
    requires
        valid_records(records@),
        strong_keys_ok(records@, strong@),
        medium_keys_ok(records@, medium@),
        plan_sound(records@, old(removals)@),
        forall|q: int| 0 <= q < old(removals)@.len() ==> (#[trigger] old(removals)@[q]).scope_id != s,
        reports_match(old(reasons)@, old(removals)@),
    ensures
        reports_match(final(reasons)@, final(removals)@),
        plan_sound(records@, final(removals)@),
        extends(old(removals)@, final(removals)@),
        forall|q: int| old(removals)@.len() <= q < final(removals)@.len() ==> (#[trigger] final(removals)@[q]).scope_id == s,
        scope_resolved(records@, final(removals)@, s),
        extends(old(reasons)@, final(reasons)@),
        forall|q: int| old(reasons)@.len() <= q < final(reasons)@.len() ==> strong_line(records@, s, (#[trigger] final(reasons)@[q])@)
            || medium_line(s, final(reasons)@[q]@),
{
    let ghost start_reasons = reasons@;
    let ghost start = removals@;
    let members = scope_member_positions(records, s);
    let mut claimed = collect_duplicate_groups(records, strong, s, &members, removals, reasons);
    let ghost after_strong = removals@;
    let ghost mid_reasons = reasons@;
    collect_medium_duplicate_groups(records, medium, s, &members, &mut claimed, removals, reasons);
    proof {
        assert forall|q: int| start_reasons.len() <= q < reasons@.len() implies strong_line(records@, s, (#[trigger] reasons@[q])@)
            || medium_line(s, reasons@[q]@) by {
            if q < mid_reasons.len() {
                assert(reasons@[q] == mid_reasons[q]);
            }
        }
        assert forall|i: int, j: int|
            0 <= i < records@.len() && 0 <= j < records@.len() && i != j && #[trigger] in_scope(records@[i], s) && #[trigger] in_scope(records@[j], s) implies (
            strong_dup(records@[i], records@[j]) ==> removed_in(removals@, s, records@[i].id) || removed_in(removals@, s, records@[j].id))
                && (medium_dup(records@[i], records@[j]) ==> involved(removals@, s, records@[i].id) || involved(removals@, s, records@[j].id)) by {
            let p1 = choose|p: int| 0 <= p < members@.len() && members@[p] == i;
            let p2 = choose|p: int| 0 <= p < members@.len() && members@[p] == j;
            assert(p1 != p2);
            if strong_dup(records@[i], records@[j]) {
                assert(strong_dup(records@[members@[p1] as int], records@[members@[p2] as int]));
                if removed_in(after_strong, s, records@[i].id) {
                    lemma_removed_extends(after_strong, removals@, s, records@[i].id);
                } else {
                    lemma_removed_extends(after_strong, removals@, s, records@[j].id);
                }
            }
            if medium_dup(records@[i], records@[j]) {
                assert(medium_dup(records@[members@[p1] as int], records@[members@[p2] as int]));
                assert(claimed@[p1] || claimed@[p2]);
            }
        }
        assert forall|q: int| start.len() <= q < removals@.len() implies (#[trigger] removals@[q]).scope_id == s by {
            if q < after_strong.len() {
                assert(removals@[q] == after_strong[q]);
            }
        }
    }
}

/// The strong identity keys of the records, as character vectors.
pub fn strong_keys(records: &Vec<MediaRecord>) -> (r: Vec<Option<Vec<char>>>)
    ensures
        strong_keys_ok(records@, r@),
{
    let mut out: Vec<Option<Vec<char>>> = Vec::new();
    let mut i: usize = 0;
    while i < records.len()
        invariant
            i <= records@.len(),
            out@.len() == i,
            forall|k: int| 0 <= k < i ==> match strong_key(#[trigger] records@[k]) {
                Some(key) => out@[k] is Some && out@[k]->0@ == key,
                None => out@[k] is None,
            },
        decreases records@.len() - i,
    {
        let key = match strong_identity(&records[i]) {
            Some(pair) => Some(chars_of(pair.0.as_str())),
            None => None,
        };
        out.push(key);
        i = i + 1;
    }
    out
}

/// The medium matching keys of each record.
pub fn medium_keys(records: &Vec<MediaRecord>) -> (r: Vec<Vec<Vec<char>>>)
    ensures
        medium_keys_ok(records@, r@),
{
    let mut out: Vec<Vec<Vec<char>>> = Vec::new();
    let mut i: usize = 0;
    while i < records.len()
        invariant
            i <= records@.len(),
            out@.len() == i,
            forall|k: int| 0 <= k < i ==> medium_keys_of_record(#[trigger] records@[k], out@[k]@),
        decreases records@.len() - i,
    {
        let keys = medium_keys_of(&records[i]);
        out.push(keys);
        i = i + 1;
    }
    out
}

pub proof fn lemma_loose_entries_step(records: Seq<MediaRecord>, removals: Seq<DuplicateRemoval>, scopes: Seq<i64>, k: int)
    requires
        0 <= k < scopes.len(),
    ensures
        loose_entries(records, removals, scopes.take(k + 1)) == loose_entries(records, removals, scopes.take(k)) + loose_titles(
            records,
            removals,
            scopes[k],
            records.len() as int,
        ),
{
    assert(scopes.take(k + 1).drop_last() == scopes.take(k));
}

/// Plans a duplicate purge of the whole library. Records are compared only
/// inside one scope (a folder, or Uncategorized for records in no folder):
/// records with the same strong identity (file hash, link, managed file)
/// form a group, then the records left that share their normalised title,
/// source kind, media type and an alias or tag. Of each group the preferred
/// record stays and the others leave the scope; a record leaves the library
/// when the scope is Uncategorized or it is in no other folder. Titles that
/// only match each other are counted, not removed.
///
/// The records come from the library database, where ids are unique and a
/// record is in a folder at most once.
#[verifier::rlimit(60)]
pub fn duplicate_membership_removals(records: &Vec<MediaRecord>) -> (plan: DuplicatePlan)
    requires
        valid_records(records@),
    ensures
        plan_sound(records@, plan.removals@),
        forall|s: i64| #[trigger] scope_set(records@).contains(s) ==> scope_resolved(records@, plan.removals@, s),
        plan.scopes_scanned == scope_set(records@).len(),
        plan.duplicate_groups == plan.group_reasons@.len(),
        plan.duplicate_groups == group_count(plan.removals@),
        forall|q: int| 0 <= q < plan.group_reasons@.len() ==> plan_line(records@, (#[trigger] plan.group_reasons@[q])@),
        reports_match(plan.group_reasons@, plan.removals@),
        exists|scopes: Seq<i64>|
            scopes.no_duplicates() && scopes.to_set() == scope_set(records@) && plan.title_only_groups_skipped == title_only_groups(
                records@,
                plan.removals@,
                scopes,
            ),
{
    let strong = strong_keys(records);
    let medium = medium_keys(records);
    let scopes = list_scopes(records);
    let mut removals: Vec<DuplicateRemoval> = Vec::new();
    let mut reasons: Vec<String> = Vec::new();
    let mut k: usize = 0;
    while k < scopes.len()
        invariant
            k <= scopes@.len(),
            valid_records(records@),
            strong_keys_ok(records@, strong@),
            medium_keys_ok(records@, medium@),
            scopes@.no_duplicates(),
            plan_sound(records@, removals@),
            reports_match(reasons@, removals@),
            forall|q: int| 0 <= q < removals@.len() ==> scopes@.take(k as int).contains((#[trigger] removals@[q]).scope_id),
            forall|q: int| 0 <= q < reasons@.len() ==> plan_line(records@, (#[trigger] reasons@[q])@),
            forall|m: int| 0 <= m < k ==> scope_resolved(records@, removals@, #[trigger] scopes@[m]),
        decreases scopes@.len() - k,
    {
        let s = scopes[k];
        let ghost before = removals@;
        proof {
            assert forall|q: int| 0 <= q < removals@.len() implies (#[trigger] removals@[q]).scope_id != s by {
                let sid = removals@[q].scope_id;
                assert(scopes@.take(k as int).contains(sid));
                let m = choose|m: int| 0 <= m < k && scopes@.take(k as int)[m] == sid;
                assert(scopes@[m] == sid);
            }
        }
        let ghost before_reasons = reasons@;
        plan_scope(records, &strong, &medium, s, &mut removals, &mut reasons);
        proof {
            assert forall|q: int| 0 <= q < reasons@.len() implies plan_line(records@, (#[trigger] reasons@[q])@) by {
                if q < before_reasons.len() {
                    assert(reasons@[q] == before_reasons[q]);
                } else {
                    assert(strong_line(records@, s, reasons@[q]@) || medium_line(s, reasons@[q]@));
                }
            }
            assert forall|m: int| 0 <= m < k + 1 implies scope_resolved(records@, removals@, #[trigger] scopes@[m]) by {
                if m < k {
                    lemma_resolved_extends(records@, before, removals@, scopes@[m]);
                }
            }
            assert forall|q: int| 0 <= q < removals@.len() implies scopes@.take(k + 1).contains((#[trigger] removals@[q]).scope_id) by {
                if q < before.len() {
                    assert(removals@[q] == before[q]);
                    let m = choose|m: int| 0 <= m < k && scopes@.take(k as int)[m] == before[q].scope_id;
                    assert(scopes@.take(k + 1)[m] == before[q].scope_id);
                } else {
                    assert(scopes@.take(k + 1)[k as int] == s);
                }
            }
        }
        k = k + 1;
    }
    proof {
        assert forall|s: i64| #[trigger] scope_set(records@).contains(s) implies scope_resolved(records@, removals@, s) by {
            assert(scopes@.to_set().contains(s));
            let m = choose|m: int| 0 <= m < scopes@.len() && scopes@[m] == s;
        }
        scopes@.unique_seq_to_set();
    }
    // titles that only match each other
    let mut scope_of: Vec<i64> = Vec::new();
    let mut titles: Vec<Vec<char>> = Vec::new();
    let mut k: usize = 0;
    while k < scopes.len()
        invariant
            k <= scopes@.len(),
            scope_of@.len() == titles@.len(),
            scoped_views(scope_of@, titles@) == loose_entries(records@, removals@, scopes@.take(k as int)),
        decreases scopes@.len() - k,
    {
        let s = scopes[k];
        let ghost head = scoped_views(scope_of@, titles@);
        let mut i: usize = 0;
        while i < records.len()
            invariant
                i <= records@.len(),
                k < scopes@.len(),
                s == scopes@[k as int],
                scope_of@.len() == titles@.len(),
                scoped_views(scope_of@, titles@) == head + loose_titles(records@, removals@, s, i as int),
            decreases records@.len() - i,
        {
            let rec = &records[i];
            if record_in_scope(rec, s) && !is_involved(&removals, s, rec.id) {
                let text = normalize_match_text(rec.title.as_str());
                let ghost before = scoped_views(scope_of@, titles@);
                scope_of.push(s);
                titles.push(chars_of(text.as_str()));
                assert(scoped_views(scope_of@, titles@) =~= before.push((s, match_text(records@[i as int].title@))));
            }
            i = i + 1;
        }
        proof {
            lemma_loose_entries_step(records@, removals@, scopes@, k as int);
        }
        k = k + 1;
    }
    assert(scopes@.take(k as int) == scopes@);
    let title_only = count_repeated(&scope_of, &titles);
    DuplicatePlan {
        duplicate_groups: reasons.len(),
        scopes_scanned: scopes.len(),
        title_only_groups_skipped: title_only,
        group_reasons: reasons,
        removals,
    }
}

/// What a duplicate purge would do, in numbers, with a line per group.
#[derive(Debug)]
pub struct DuplicatePurgePreview {
    pub duplicate_groups: usize,
    pub membership_removals: usize,
    pub uncategorized_removals: usize,
    pub scopes_scanned: usize,
    pub normal_folder_removals: usize,
    pub title_only_groups_skipped: usize,
    pub group_reasons: Vec<String>,
}

/// What a duplicate purge did, with what undoing it needs.
#[derive(Debug)]
pub struct DuplicatePurgeResult {
    pub duplicate_groups: usize,
    pub membership_removals: usize,
    pub uncategorized_removals: usize,
    pub scopes_scanned: usize,
    pub normal_folder_removals: usize,
    pub title_only_groups_skipped: usize,
    pub group_reasons: Vec<String>,
    pub previous_states: Vec<MediaFolderState>,
    pub deleted_snapshots: Vec<DeletedMediaSnapshot>,
}

/// How many removals are in the Uncategorized scope.
pub open spec fn uncategorized_count(removals: Seq<DuplicateRemoval>) -> nat
    decreases removals.len(),
{
    if removals.len() == 0 {
        0
    } else {
        uncategorized_count(removals.drop_last()) + if removals.last().scope_id == 0 { 1nat } else { 0nat }
    }
}

/// Counts the removals in the Uncategorized scope.
pub fn count_uncategorized(removals: &Vec<DuplicateRemoval>) -> (r: usize)
    ensures
        r == uncategorized_count(removals@),
        r <= removals@.len(),
{
    let mut n: usize = 0;
    let mut q: usize = 0;
    while q < removals.len()
        invariant
            q <= removals@.len(),
            n <= q,
            n == uncategorized_count(removals@.take(q as int)),
        decreases removals@.len() - q,
    {
        assert(removals@.take(q + 1).drop_last() == removals@.take(q as int));
        if removals[q].scope_id == 0 {
            n = n + 1;
        }
        q = q + 1;
    }
    assert(removals@.take(q as int) == removals@);
    n
}

/// The numbers a purge preview shows for a plan.
pub fn purge_preview(plan: DuplicatePlan) -> (r: DuplicatePurgePreview)
    ensures
        r.duplicate_groups == plan.duplicate_groups,
        r.membership_removals == plan.removals@.len(),
        r.uncategorized_removals == uncategorized_count(plan.removals@),
        r.normal_folder_removals == plan.removals@.len() - uncategorized_count(plan.removals@),
        r.scopes_scanned == plan.scopes_scanned,
        r.title_only_groups_skipped == plan.title_only_groups_skipped,
        r.group_reasons@ == plan.group_reasons@,
{
    let uncategorized = count_uncategorized(&plan.removals);
    DuplicatePurgePreview {
        duplicate_groups: plan.duplicate_groups,
        membership_removals: plan.removals.len(),
        uncategorized_removals: uncategorized,
        scopes_scanned: plan.scopes_scanned,
        normal_folder_removals: plan.removals.len() - uncategorized,
        title_only_groups_skipped: plan.title_only_groups_skipped,
        group_reasons: plan.group_reasons,
    }
}

/// The numbers a purge reports for a plan, with the folder memberships and
/// records it saved for undo.
pub fn purge_result(
    plan: DuplicatePlan,
    previous_states: Vec<MediaFolderState>,
    deleted_snapshots: Vec<DeletedMediaSnapshot>,
) -> (r: DuplicatePurgeResult)
    ensures
        r.duplicate_groups == plan.duplicate_groups,
        r.membership_removals == plan.removals@.len(),
        r.uncategorized_removals == uncategorized_count(plan.removals@),
        r.normal_folder_removals == plan.removals@.len() - uncategorized_count(plan.removals@),
        r.scopes_scanned == plan.scopes_scanned,
        r.title_only_groups_skipped == plan.title_only_groups_skipped,
        r.group_reasons@ == plan.group_reasons@,
        r.previous_states@ == previous_states@,
        r.deleted_snapshots@ == deleted_snapshots@,
{
    let uncategorized = count_uncategorized(&plan.removals);
    DuplicatePurgeResult {
        duplicate_groups: plan.duplicate_groups,
        membership_removals: plan.removals.len(),
        uncategorized_removals: uncategorized,
        scopes_scanned: plan.scopes_scanned,
        normal_folder_removals: plan.removals.len() - uncategorized,
        title_only_groups_skipped: plan.title_only_groups_skipped,
        group_reasons: plan.group_reasons,
        previous_states,
        deleted_snapshots,
    }
}

/// The media whose folder memberships a purge changes without removing
/// them: each once.
pub fn affected_media_ids(removals: &Vec<DuplicateRemoval>) -> (r: Vec<i64>)
    ensures
        r@.no_duplicates(),
        forall|id: i64| r@.contains(id) <==> exists|q: int|
            0 <= q < removals@.len() && (#[trigger] removals@[q]).scope_id != 0 && !removals@[q].remove_record
                && removals@[q].media_id == id,
{
    let mut out: Vec<i64> = Vec::new();
    let mut q: usize = 0;
    while q < removals.len()
        invariant
            q <= removals@.len(),
            out@.no_duplicates(),
            forall|id: i64| out@.contains(id) <==> exists|u: int|
                0 <= u < q && (#[trigger] removals@[u]).scope_id != 0 && !removals@[u].remove_record && removals@[u].media_id == id,
        decreases removals@.len() - q,
    {
        let rm = &removals[q];
        let ghost before = out@;
        if rm.scope_id != 0 && !rm.remove_record {
            let present = vec_contains_i64(&out, rm.media_id);
            if !present {
                out.push(rm.media_id);
            }
            proof {
                if present {
                    assert(out@ == before);
                } else {
                    assert forall|id: i64| out@.contains(id) <==> (before.contains(id) || id == rm.media_id) by {
                        if out@.contains(id) {
                            let m = choose|m: int| 0 <= m < out@.len() && out@[m] == id;
                            if m < before.len() {
                                assert(before[m] == id);
                            }
                        }
                        if before.contains(id) {
                            let m = choose|m: int| 0 <= m < before.len() && before[m] == id;
                            assert(out@[m] == id);
                        }
                        if id == rm.media_id {
                            assert(out@[before.len() as int] == id);
                        }
                    }
                }
            }
        }
        proof {
            let matched = rm.scope_id != 0 && !rm.remove_record;
            assert(forall|id: i64| out@.contains(id) <==> (before.contains(id) || (matched && id == rm.media_id))) by {
                if matched {
                    assert forall|id: i64| out@.contains(id) <==> (before.contains(id) || id == rm.media_id) by {
                        if id == rm.media_id && before.contains(id) {
                        }
                    }
                } else {
                    assert(out@ == before);
                }
            }
            assert forall|id: i64| out@.contains(id) <==> exists|u: int|
                0 <= u < q + 1 && (#[trigger] removals@[u]).scope_id != 0 && !removals@[u].remove_record && removals@[u].media_id == id by {
                if exists|u: int| 0 <= u < q + 1 && (#[trigger] removals@[u]).scope_id != 0 && !removals@[u].remove_record && removals@[u].media_id == id {
                    let u = choose|u: int| 0 <= u < q + 1 && (#[trigger] removals@[u]).scope_id != 0 && !removals@[u].remove_record && removals@[u].media_id == id;
                    if u < q {
                        assert(before.contains(id));
                    }
                }
                if out@.contains(id) {
                    if before.contains(id) {
                        let u = choose|u: int| 0 <= u < q && (#[trigger] removals@[u]).scope_id != 0 && !removals@[u].remove_record && removals@[u].media_id == id;
                    } else {
                        assert(removals@[q as int].media_id == id);
                    }
                }
            }
        }
        q = q + 1;
    }
    out
}

} // verus!
