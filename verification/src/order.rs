//! The lexicographic order of character sequences, and the label and id
//! normalisations built on it.

use vstd::prelude::*;
use crate::text::{chars_of, lower, lower_char, to_lower, trim, trimmed};

verus! {

/// Lexicographic order on code points, which is the order of `str`'s `Ord`
/// (UTF-8 byte order agrees with code-point order).
pub open spec fn seq_lt(a: Seq<char>, b: Seq<char>) -> bool
    decreases a.len(),
{
    if a.len() == 0 {
        b.len() > 0
    } else if b.len() == 0 {
        false
    } else if a[0] != b[0] {
        a[0] < b[0]
    } else {
        seq_lt(a.drop_first(), b.drop_first())
    }
}

pub proof fn lemma_lt_irreflexive(a: Seq<char>)
    ensures
        !seq_lt(a, a),
    decreases a.len(),
{
    if a.len() > 0 {
        lemma_lt_irreflexive(a.drop_first());
    }
}

pub proof fn lemma_lt_asymmetric(a: Seq<char>, b: Seq<char>)
    ensures
        !(seq_lt(a, b) && seq_lt(b, a)),
    decreases a.len(),
{
    if a.len() > 0 && b.len() > 0 && a[0] == b[0] {
        lemma_lt_asymmetric(a.drop_first(), b.drop_first());
    }
}

pub proof fn lemma_lt_transitive(a: Seq<char>, b: Seq<char>, c: Seq<char>)
    requires
        seq_lt(a, b),
        seq_lt(b, c),
    ensures
        seq_lt(a, c),
    decreases a.len(),
{
    if a.len() > 0 && b.len() > 0 && c.len() > 0 && a[0] == b[0] && b[0] == c[0] {
        lemma_lt_transitive(a.drop_first(), b.drop_first(), c.drop_first());
    }
}

pub proof fn lemma_lt_total(a: Seq<char>, b: Seq<char>)
    ensures
        a == b || seq_lt(a, b) || seq_lt(b, a),
    decreases a.len(),
{
    if a.len() > 0 && b.len() > 0 && a[0] == b[0] {
        lemma_lt_total(a.drop_first(), b.drop_first());
        if a.drop_first() == b.drop_first() {
            assert(a =~= seq![a[0]] + a.drop_first());
            assert(b =~= seq![b[0]] + b.drop_first());
        }
    } else if a.len() == 0 && b.len() == 0 {
        assert(a =~= b);
    }
}

/// `a < b` in the order of `seq_lt`.
pub fn less(a: &Vec<char>, b: &Vec<char>) -> (r: bool)
    ensures
        r == seq_lt(a@, b@),
{
    let mut i: usize = 0;
    assert(a@.skip(0) == a@ && b@.skip(0) == b@);
    while i < a.len() && i < b.len() && a[i] == b[i]
        invariant
            i <= a@.len(),
            i <= b@.len(),
            seq_lt(a@, b@) == seq_lt(a@.skip(i as int), b@.skip(i as int)),
        decreases a@.len() - i,
    {
        assert(a@.skip(i as int).drop_first() == a@.skip(i + 1));
        assert(b@.skip(i as int).drop_first() == b@.skip(i + 1));
        i = i + 1;
    }
    if i == a.len() {
        i < b.len()
    } else if i == b.len() {
        false
    } else {
        a[i] < b[i]
    }
}

/// The labels that survive trimming: trimmed, non-empty, in input order.
pub open spec fn cleaned_labels(values: Seq<Seq<char>>) -> Seq<Seq<char>>
    decreases values.len(),
{
    if values.len() == 0 {
        seq![]
    } else {
        let rest = cleaned_labels(values.drop_last());
        let t = trimmed(values.last());
        if t.len() > 0 {
            rest.push(t)
        } else {
            rest
        }
    }
}

/// `x` is the first of `s` whose lower-cased form is `lower(x)`.
pub open spec fn first_with_key(s: Seq<Seq<char>>, x: Seq<char>) -> bool {
    exists|i: int|
        0 <= i < s.len() && s[i] == x && forall|j: int| 0 <= j < i ==> lower(#[trigger] s[j]) != lower(x)
}

/// The result of normalising `values` as labels: one label per
/// case-insensitive name (the first spelling given), in case-insensitive
/// order. Together these facts fix the sequence.
pub open spec fn is_label_normal_form(r: Seq<Seq<char>>, values: Seq<Seq<char>>) -> bool {
    &&& forall|i: int, j: int| 0 <= i < j < r.len() ==> seq_lt(lower(#[trigger] r[i]), lower(#[trigger] r[j]))
    &&& forall|i: int| 0 <= i < r.len() ==> first_with_key(cleaned_labels(values), #[trigger] r[i])
    &&& forall|x: Seq<char>| #[trigger] cleaned_labels(values).contains(x) ==> exists|i: int|
        0 <= i < r.len() && lower(#[trigger] r[i]) == lower(x)
}


/// Two character vectors hold the same characters.
pub fn chars_eq(a: &Vec<char>, b: &Vec<char>) -> (r: bool)
    ensures
        r == (a@ == b@),
{
    if a.len() != b.len() {
        return false;
    }
    let mut i: usize = 0;
    while i < a.len()
        invariant
            i <= a@.len(),
            a@.len() == b@.len(),
            forall|j: int| 0 <= j < i ==> a@[j] == b@[j],
        decreases a@.len() - i,
    {
        if a[i] != b[i] {
            return false;
        }
        i = i + 1;
    }
    assert(a@ =~= b@);
    true
}

pub proof fn lemma_cleaned_step(values: Seq<Seq<char>>, k: int)
    requires
        0 <= k < values.len(),
    ensures
        cleaned_labels(values.take(k + 1)) == if trimmed(values[k]).len() > 0 {
            cleaned_labels(values.take(k)).push(trimmed(values[k]))
        } else {
            cleaned_labels(values.take(k))
        },
{
    assert(values.take(k + 1).drop_last() == values.take(k));
    assert(values.take(k + 1).last() == values[k]);
}

/// Label normalisation shared by media labels and imported alias names:
/// trims each value, drops empty ones, and keeps one value per
/// case-insensitive name (its first spelling), sorted case-insensitively.
pub fn normalize_label_values(values: &Vec<String>) -> (r: Vec<String>)
    ensures
        is_label_normal_form(r.deep_view(), values.deep_view()),
{
    let ghost vs = values.deep_view();
    let mut out: Vec<String> = Vec::new();
    let mut keys: Vec<Vec<char>> = Vec::new();
    let mut k: usize = 0;
    while k < values.len()
        invariant
            k <= values@.len(),
            vs == values.deep_view(),
            out@.len() == keys@.len(),
            forall|i: int| 0 <= i < keys@.len() ==> (#[trigger] keys@[i])@ == lower(out@[i]@),
            forall|i: int, j: int| 0 <= i < j < keys@.len() ==> seq_lt((#[trigger] keys@[i])@, (#[trigger] keys@[j])@),
            forall|i: int| 0 <= i < out@.len() ==> first_with_key(cleaned_labels(vs.take(k as int)), (#[trigger] out@[i])@),
            forall|x: Seq<char>| #[trigger] cleaned_labels(vs.take(k as int)).contains(x) ==> exists|i: int|
                0 <= i < out@.len() && lower((#[trigger] out@[i])@) == lower(x),
        decreases values@.len() - k,
    {
        proof {
            lemma_cleaned_step(vs, k as int);
        }
        let ghost c = cleaned_labels(vs.take(k as int));
        let t = trim(values[k].as_str());
        assert(t@ == trimmed(vs[k as int]));
        if t.as_str().unicode_len() > 0 {
            let key = chars_of(to_lower(t.as_str()).as_str());
            let mut p: usize = 0;
            while p < keys.len() && less(&keys[p], &key)
                invariant
                    p <= keys@.len(),
                    forall|i: int| 0 <= i < p ==> seq_lt((#[trigger] keys@[i])@, key@),
                decreases keys@.len() - p,
            {
                p = p + 1;
            }
            let present = p < keys.len() && chars_eq(&keys[p], &key);
            if !present {
                proof {
                    if p < keys@.len() {
                        lemma_lt_total(keys@[p as int]@, key@);
                    }
                    assert forall|i: int| 0 <= i < keys@.len() implies (#[trigger] keys@[i])@ != key@ by {
                        if i < p {
                            lemma_lt_irreflexive(key@);
                        } else if i > p {
                            lemma_lt_transitive(key@, keys@[p as int]@, keys@[i]@);
                            lemma_lt_irreflexive(key@);
                        }
                    }
                    assert forall|j: int| 0 <= j < c.len() implies lower(#[trigger] c[j]) != lower(t@) by {
                        if lower(c[j]) == lower(t@) {
                            assert(c.contains(c[j]));
                            let i = choose|i: int| 0 <= i < out@.len() && lower((#[trigger] out@[i])@) == lower(c[j]);
                            assert(keys@[i]@ == key@);
                        }
                    }
                }
                let ghost old_out = out@;
                let ghost old_keys = keys@;
                out.insert(p, t);
                keys.insert(p, key);
                proof {
                    old_out.insert_ensures(p as int, out@[p as int]);
                    old_keys.insert_ensures(p as int, keys@[p as int]);
                    let c2 = cleaned_labels(vs.take(k + 1));
                    assert(c2 == c.push(t@));
                    assert forall|i: int| 0 <= i < keys@.len() implies (#[trigger] keys@[i])@ == lower(out@[i]@) by {
                        if i > p {
                            assert(keys@[i] == old_keys[i - 1]);
                            assert(out@[i] == old_out[i - 1]);
                        }
                    }
                    assert forall|i: int, j: int| 0 <= i < j < keys@.len() implies seq_lt((#[trigger] keys@[i])@, (#[trigger] keys@[j])@) by {
                        if j < p {
                        } else if i < p && j == p {
                        } else if i < p && j > p {
                            assert(keys@[j] == old_keys[j - 1]);
                            assert(keys@[i] == old_keys[i]);
                            assert(seq_lt(old_keys[i]@, old_keys[j - 1]@));
                        } else if i == p {
                            assert(keys@[j] == old_keys[j - 1]);
                            lemma_lt_total(old_keys[p as int]@, key@);
                            if j - 1 > p {
                                lemma_lt_transitive(key@, old_keys[p as int]@, old_keys[j - 1]@);
                            }
                        } else {
                            assert(keys@[i] == old_keys[i - 1]);
                            assert(keys@[j] == old_keys[j - 1]);
                        }
                    }
                    assert forall|i: int| 0 <= i < out@.len() implies first_with_key(c2, (#[trigger] out@[i])@) by {
                        if i == p {
                            assert(c2[c.len() as int] == t@);
                        } else {
                            let oi = if i < p { i } else { i - 1 };
                            assert(out@[i] == old_out[oi]);
                            assert(first_with_key(c, old_out[oi]@));
                            let w = choose|w: int| 0 <= w < c.len() && c[w] == old_out[oi]@ && forall|j: int| 0 <= j < w ==> lower(#[trigger] c[j]) != lower(old_out[oi]@);
                            assert(c2[w] == c[w]);
                            assert forall|j: int| 0 <= j < w implies lower(#[trigger] c2[j]) != lower(old_out[oi]@) by {
                                assert(c2[j] == c[j]);
                            }
                        }
                    }
                    assert forall|x: Seq<char>| #[trigger] c2.contains(x) implies exists|i: int|
                        0 <= i < out@.len() && lower((#[trigger] out@[i])@) == lower(x) by {
                        let w = choose|w: int| 0 <= w < c2.len() && c2[w] == x;
                        if w == c.len() {
                            assert(lower(out@[p as int]@) == lower(x));
                        } else {
                            assert(c.contains(x));
                            let i = choose|i: int| 0 <= i < old_out.len() && lower((#[trigger] old_out[i])@) == lower(x);
                            if i < p {
                                assert(out@[i] == old_out[i]);
                            } else {
                                assert(out@[i + 1] == old_out[i]);
                            }
                        }
                    }
                }
            } else {
                proof {
                    let c2 = cleaned_labels(vs.take(k + 1));
                    assert(c2 == c.push(t@));
                    assert(keys@[p as int]@ == key@);
                    assert forall|i: int| 0 <= i < out@.len() implies first_with_key(c2, (#[trigger] out@[i])@) by {
                        assert(first_with_key(c, out@[i]@));
                        let w = choose|w: int| 0 <= w < c.len() && c[w] == out@[i]@ && forall|j: int| 0 <= j < w ==> lower(#[trigger] c[j]) != lower(out@[i]@);
                        assert(c2[w] == c[w]);
                        assert forall|j: int| 0 <= j < w implies lower(#[trigger] c2[j]) != lower(out@[i]@) by {
                            assert(c2[j] == c[j]);
                        }
                    }
                    assert forall|x: Seq<char>| #[trigger] c2.contains(x) implies exists|i: int|
                        0 <= i < out@.len() && lower((#[trigger] out@[i])@) == lower(x) by {
                        let w = choose|w: int| 0 <= w < c2.len() && c2[w] == x;
                        if w == c.len() {
                            assert(lower(out@[p as int]@) == lower(x));
                        } else {
                            assert(c.contains(x));
                        }
                    }
                }
            }
        } else {
            proof {
                assert(cleaned_labels(vs.take(k + 1)) == c);
            }
        }
        k = k + 1;
    }
    proof {
        assert(vs.take(k as int) == vs);
        let r = out.deep_view();
        assert(r =~= Seq::new(out@.len(), |i: int| out@[i]@));
        assert forall|i: int, j: int| 0 <= i < j < r.len() implies seq_lt(lower(#[trigger] r[i]), lower(#[trigger] r[j])) by {
            assert(keys@[i]@ == lower(out@[i]@));
            assert(keys@[j]@ == lower(out@[j]@));
        }
        assert forall|i: int| 0 <= i < r.len() implies first_with_key(cleaned_labels(vs), #[trigger] r[i]) by {
            assert(first_with_key(cleaned_labels(vs.take(k as int)), out@[i]@));
        }
        assert forall|x: Seq<char>| #[trigger] cleaned_labels(vs).contains(x) implies exists|i: int|
            0 <= i < r.len() && lower(#[trigger] r[i]) == lower(x) by {
            let i = choose|i: int| 0 <= i < out@.len() && lower((#[trigger] out@[i])@) == lower(x);
            assert(r[i] == out@[i]@);
        }
    }
    out
}


/// `r` holds the values of `values` (only the positive ones when
/// `positive_only`), each once, in increasing order. These facts fix the
/// sequence.
pub open spec fn is_sorted_id_set(r: Seq<i64>, values: Seq<i64>, positive_only: bool) -> bool {
    &&& forall|i: int, j: int| 0 <= i < j < r.len() ==> #[trigger] r[i] < #[trigger] r[j]
    &&& forall|i: int| 0 <= i < r.len() ==> (!positive_only || #[trigger] r[i] > 0) && values.contains(r[i])
    &&& forall|x: i64| #[trigger] values.contains(x) && (!positive_only || x > 0) ==> r.contains(x)
}

/// The ids that survive normalisation: the positive values of `values`,
/// each once, in increasing order.
pub open spec fn is_id_normal_form(r: Seq<i64>, values: Seq<i64>) -> bool {
    is_sorted_id_set(r, values, true)
}

/// Keeps the positive ids, sorted, without repeats.
pub fn normalize_id_values(values: &Vec<i64>) -> (r: Vec<i64>)
    ensures
        is_id_normal_form(r@, values@),
{
    sorted_id_set(values, true)
}

/// Sorts the ids and drops repeats (and, when `positive_only`, the ids
/// that are not positive).
#[verifier::spinoff_prover]
#[verifier::rlimit(60)]
pub fn sorted_id_set(values: &Vec<i64>, positive_only: bool) -> (r: Vec<i64>)
    ensures
        is_sorted_id_set(r@, values@, positive_only),
{
    let mut out: Vec<i64> = Vec::new();
    let mut k: usize = 0;
    while k < values.len()
        invariant
            k <= values@.len(),
            is_sorted_id_set(out@, values@.take(k as int), positive_only),
        decreases values@.len() - k,
    {
        let x = values[k];
        let ghost old_out = out@;
        let ghost vt1 = values@.take(k + 1);
        let ghost vt0 = values@.take(k as int);
        assert(vt1 == vt0.push(x));
        if !positive_only || x > 0 {
            let mut p: usize = 0;
            while p < out.len() && out[p] < x
                invariant
                    p <= out@.len(),
                    forall|i: int| 0 <= i < p ==> #[trigger] out@[i] < x,
                decreases out@.len() - p,
            {
                p = p + 1;
            }
            if !(p < out.len() && out[p] == x) {
                out.insert(p, x);
                proof {
                    old_out.insert_ensures(p as int, x);
                    assert forall|i: int, j: int| 0 <= i < j < out@.len() implies #[trigger] out@[i] < #[trigger] out@[j] by {
                        if i > p {
                            assert(out@[i] == old_out[i - 1]);
                        }
                        if j > p {
                            assert(out@[j] == old_out[j - 1]);
                        }
                        if i < p && j > p && j - 1 >= p {
                            assert(old_out[i] < old_out[j - 1]);
                        }
                    }
                    assert forall|i: int| 0 <= i < out@.len() implies (!positive_only || #[trigger] out@[i] > 0) && vt1.contains(out@[i]) by {
                        if i == p {
                            assert(vt1[k as int] == x);
                        } else {
                            let oi = if i < p { i } else { i - 1 };
                            assert(out@[i] == old_out[oi]);
                            let w = choose|w: int| 0 <= w < k && vt0[w] == old_out[oi];
                            assert(vt1[w] == old_out[oi]);
                        }
                    }
                    assert forall|y: i64| #[trigger] vt1.contains(y) && (!positive_only || y > 0) implies out@.contains(y) by {
                        let w = choose|w: int| 0 <= w < k + 1 && vt1[w] == y;
                        if w == k {
                            assert(out@[p as int] == y);
                        } else {
                            assert(vt0[w] == y);
                            assert(vt0.contains(y));
                            let i = choose|i: int| 0 <= i < old_out.len() && old_out[i] == y;
                            if i < p {
                                assert(out@[i] == y);
                            } else {
                                assert(out@[i + 1] == y);
                            }
                        }
                    }
                }
            } else {
                proof {
                    assert forall|i: int| 0 <= i < out@.len() implies (!positive_only || #[trigger] out@[i] > 0) && vt1.contains(out@[i]) by {
                        let w = choose|w: int| 0 <= w < k && vt0[w] == out@[i];
                        assert(vt1[w] == out@[i]);
                    }
                    assert forall|y: i64| #[trigger] vt1.contains(y) && (!positive_only || y > 0) implies out@.contains(y) by {
                        let w = choose|w: int| 0 <= w < k + 1 && vt1[w] == y;
                        if w == k {
                            assert(out@[p as int] == y);
                        } else {
                            assert(vt0[w] == y);
                            assert(vt0.contains(y));
                        }
                    }
                }
            }
        } else {
            proof {
                assert forall|i: int| 0 <= i < out@.len() implies (!positive_only || #[trigger] out@[i] > 0) && vt1.contains(out@[i]) by {
                    let w = choose|w: int| 0 <= w < k && vt0[w] == out@[i];
                    assert(vt1[w] == out@[i]);
                }
                assert forall|y: i64| #[trigger] vt1.contains(y) && (!positive_only || y > 0) implies out@.contains(y) by {
                    let w = choose|w: int| 0 <= w < k + 1 && vt1[w] == y;
                    assert(vt0[w] == y);
                    assert(vt0.contains(y));
                }
            }
        }
        k = k + 1;
    }
    assert(values@.take(k as int) == values@);
    out
}


/// The character vectors of `s`, strictly increasing.
pub open spec fn strictly_sorted(s: Seq<Vec<char>>) -> bool {
    forall|i: int, j: int| 0 <= i < j < s.len() ==> seq_lt((#[trigger] s[i])@, (#[trigger] s[j])@)
}

/// `s` holds a vector with the characters `x`.
pub open spec fn holds(s: Seq<Vec<char>>, x: Seq<char>) -> bool {
    exists|i: int| 0 <= i < s.len() && (#[trigger] s[i])@ == x
}

/// Adds `x` to a strictly sorted list unless it is already there.
pub fn insert_sorted_unique(set: &mut Vec<Vec<char>>, x: Vec<char>)
    requires
        strictly_sorted(old(set)@),
    ensures
        strictly_sorted(final(set)@),
        forall|y: Seq<char>| holds(final(set)@, y) <==> holds(old(set)@, y) || y == x@,
{
    let ghost old_s = set@;
    let mut p: usize = 0;
    while p < set.len() && less(&set[p], &x)
        invariant
            p <= set@.len(),
            set@ == old_s,
            forall|i: int| 0 <= i < p ==> seq_lt((#[trigger] set@[i])@, x@),
        decreases set@.len() - p,
    {
        p = p + 1;
    }
    if p < set.len() && chars_eq(&set[p], &x) {
        assert forall|y: Seq<char>| holds(set@, y) <==> holds(old_s, y) || y == x@ by {
            if y == x@ {
                assert(set@[p as int]@ == y);
            }
        }
        return;
    }
    proof {
        if p < set@.len() {
            lemma_lt_total(set@[p as int]@, x@);
        }
    }
    let ghost xv = x@;
    set.insert(p, x);
    proof {
        old_s.insert_ensures(p as int, set@[p as int]);
        assert forall|i: int, j: int| 0 <= i < j < set@.len() implies seq_lt((#[trigger] set@[i])@, (#[trigger] set@[j])@) by {
            if j < p {
            } else if j == p {
            } else if i < p {
                assert(set@[j] == old_s[j - 1]);
                assert(set@[i] == old_s[i]);
            } else if i == p {
                assert(set@[j] == old_s[j - 1]);
                if j - 1 > p {
                    lemma_lt_transitive(xv, old_s[p as int]@, old_s[j - 1]@);
                }
            } else {
                assert(set@[i] == old_s[i - 1]);
                assert(set@[j] == old_s[j - 1]);
            }
        }
        assert forall|y: Seq<char>| holds(set@, y) <==> holds(old_s, y) || y == xv by {
            if holds(set@, y) {
                let i = choose|i: int| 0 <= i < set@.len() && (#[trigger] set@[i])@ == y;
                if i < p {
                    assert(set@[i] == old_s[i]);
                } else if i > p {
                    assert(set@[i] == old_s[i - 1]);
                }
            }
            if holds(old_s, y) {
                let i = choose|i: int| 0 <= i < old_s.len() && (#[trigger] old_s[i])@ == y;
                if i < p {
                    assert(set@[i] == old_s[i]);
                } else {
                    assert(set@[i + 1] == old_s[i]);
                }
            }
            if y == xv {
                assert(set@[p as int]@ == y);
            }
        }
    }
}

/// Two strictly increasing sequences of ids with the same members are
/// equal.
pub proof fn lemma_sorted_ids_equal(a: Seq<i64>, b: Seq<i64>)
    requires
        forall|i: int, j: int| 0 <= i < j < a.len() ==> #[trigger] a[i] < #[trigger] a[j],
        forall|i: int, j: int| 0 <= i < j < b.len() ==> #[trigger] b[i] < #[trigger] b[j],
        forall|x: i64| a.contains(x) <==> b.contains(x),
    ensures
        a == b,
    decreases a.len(),
{
    if a.len() == 0 {
        if b.len() > 0 {
            assert(b.contains(b[0]));
        }
        assert(a =~= b);
    } else {
        assert(a.contains(a[0]));
        assert(b.len() > 0);
        assert(b.contains(b[0]));
        let i = choose|i: int| 0 <= i < a.len() && a[i] == b[0];
        let j = choose|j: int| 0 <= j < b.len() && b[j] == a[0];
        if i > 0 {
            assert(a[0] < a[i]);
        }
        if j > 0 {
            assert(b[0] < b[j]);
        }
        assert(a[0] == b[0]);
        let a1 = a.drop_first();
        let b1 = b.drop_first();
        assert forall|x: i64| a1.contains(x) <==> b1.contains(x) by {
            if a1.contains(x) {
                let k = choose|k: int| 0 <= k < a1.len() && a1[k] == x;
                assert(a[k + 1] == x);
                assert(a[0] < a[k + 1]);
                assert(a.contains(x));
                let m = choose|m: int| 0 <= m < b.len() && b[m] == x;
                assert(m != 0);
                assert(b1[m - 1] == x);
            }
            if b1.contains(x) {
                let k = choose|k: int| 0 <= k < b1.len() && b1[k] == x;
                assert(b[k + 1] == x);
                assert(b[0] < b[k + 1]);
                assert(b.contains(x));
                let m = choose|m: int| 0 <= m < a.len() && a[m] == x;
                assert(m != 0);
                assert(a1[m - 1] == x);
            }
        }
        assert forall|i: int, j: int| 0 <= i < j < a1.len() implies #[trigger] a1[i] < #[trigger] a1[j] by {
            assert(a[i + 1] < a[j + 1]);
        }
        assert forall|i: int, j: int| 0 <= i < j < b1.len() implies #[trigger] b1[i] < #[trigger] b1[j] by {
            assert(b[i + 1] < b[j + 1]);
        }
        lemma_sorted_ids_equal(a1, b1);
        assert(a =~= seq![a[0]] + a1);
        assert(b =~= seq![b[0]] + b1);
    }
}

/// Normalising ids twice changes nothing: the normal form of a list that
/// is already in normal form is that list.
pub proof fn lemma_id_normal_form_idempotent(r: Seq<i64>, values: Seq<i64>, again: Seq<i64>)
    requires
        is_id_normal_form(r, values),
        is_id_normal_form(again, r),
    ensures
        again == r,
{
    assert forall|x: i64| again.contains(x) <==> r.contains(x) by {
        if r.contains(x) {
            let i = choose|i: int| 0 <= i < r.len() && r[i] == x;
            assert(r[i] > 0);
        }
    }
    lemma_sorted_ids_equal(again, r);
}

/// Every label that survives trimming is trimmed and non-empty.
pub proof fn lemma_cleaned_trimmed(values: Seq<Seq<char>>)
    ensures
        forall|i: int| 0 <= i < cleaned_labels(values).len() ==> trimmed(#[trigger] cleaned_labels(values)[i])
            == cleaned_labels(values)[i] && cleaned_labels(values)[i].len() > 0,
    decreases values.len(),
{
    if values.len() > 0 {
        let rest = cleaned_labels(values.drop_last());
        let t = trimmed(values.last());
        lemma_cleaned_trimmed(values.drop_last());
        crate::text::lemma_trimmed_idempotent(values.last());
        let c = cleaned_labels(values);
        assert(c == if t.len() > 0 { rest.push(t) } else { rest });
        assert forall|i: int| 0 <= i < c.len() implies trimmed(#[trigger] c[i]) == c[i] && c[i].len() > 0 by {
            if i < rest.len() {
                assert(c[i] == rest[i]);
            } else {
                assert(c[i] == t);
            }
        }
    }
}

/// Labels that are already trimmed and non-empty survive as they are.
pub proof fn lemma_cleaned_fixed(r: Seq<Seq<char>>)
    requires
        forall|i: int| 0 <= i < r.len() ==> trimmed(#[trigger] r[i]) == r[i] && r[i].len() > 0,
    ensures
        cleaned_labels(r) == r,
    decreases r.len(),
{
    if r.len() > 0 {
        let d = r.drop_last();
        assert forall|i: int| 0 <= i < d.len() implies trimmed(#[trigger] d[i]) == d[i] && d[i].len() > 0 by {
            assert(d[i] == r[i]);
        }
        lemma_cleaned_fixed(d);
        assert(trimmed(r.last()) == r[r.len() - 1]);
        assert(r =~= d.push(r.last()));
    } else {
        assert(r =~= seq![]);
    }
}

/// Two sequences of keys, each strictly increasing, with the same members,
/// are equal.
pub proof fn lemma_sorted_keys_equal(a: Seq<Seq<char>>, b: Seq<Seq<char>>)
    requires
        forall|i: int, j: int| 0 <= i < j < a.len() ==> seq_lt(#[trigger] a[i], #[trigger] a[j]),
        forall|i: int, j: int| 0 <= i < j < b.len() ==> seq_lt(#[trigger] b[i], #[trigger] b[j]),
        forall|x: Seq<char>| a.contains(x) <==> b.contains(x),
    ensures
        a == b,
    decreases a.len(),
{
    if a.len() == 0 {
        if b.len() > 0 {
            assert(b.contains(b[0]));
        }
        assert(a =~= b);
    } else {
        assert(a.contains(a[0]));
        assert(b.contains(b[0]));
        let i = choose|i: int| 0 <= i < a.len() && a[i] == b[0];
        let j = choose|j: int| 0 <= j < b.len() && b[j] == a[0];
        if i > 0 && j > 0 {
            assert(seq_lt(a[0], a[i]));
            assert(seq_lt(b[0], b[j]));
            lemma_lt_asymmetric(a[0], b[0]);
        }
        if i > 0 && j == 0 {
            assert(seq_lt(a[0], a[i]));
            lemma_lt_irreflexive(a[0]);
        }
        if i == 0 && j > 0 {
            assert(seq_lt(b[0], b[j]));
            lemma_lt_irreflexive(b[0]);
        }
        assert(a[0] == b[0]);
        let a1 = a.drop_first();
        let b1 = b.drop_first();
        assert forall|x: Seq<char>| a1.contains(x) <==> b1.contains(x) by {
            if a1.contains(x) {
                let k = choose|k: int| 0 <= k < a1.len() && a1[k] == x;
                assert(a[k + 1] == x);
                assert(seq_lt(a[0], a[k + 1]));
                lemma_lt_irreflexive(x);
                assert(a.contains(x));
                let m = choose|m: int| 0 <= m < b.len() && b[m] == x;
                assert(m != 0);
                assert(b1[m - 1] == x);
            }
            if b1.contains(x) {
                let k = choose|k: int| 0 <= k < b1.len() && b1[k] == x;
                assert(b[k + 1] == x);
                assert(seq_lt(b[0], b[k + 1]));
                lemma_lt_irreflexive(x);
                assert(b.contains(x));
                let m = choose|m: int| 0 <= m < a.len() && a[m] == x;
                assert(m != 0);
                assert(a1[m - 1] == x);
            }
        }
        assert forall|i: int, j: int| 0 <= i < j < a1.len() implies seq_lt(#[trigger] a1[i], #[trigger] a1[j]) by {
            assert(seq_lt(a[i + 1], a[j + 1]));
        }
        assert forall|i: int, j: int| 0 <= i < j < b1.len() implies seq_lt(#[trigger] b1[i], #[trigger] b1[j]) by {
            assert(seq_lt(b[i + 1], b[j + 1]));
        }
        lemma_sorted_keys_equal(a1, b1);
        assert(a =~= seq![a[0]] + a1);
        assert(b =~= seq![b[0]] + b1);
    }
}

/// Normalising labels twice changes nothing: the normal form of labels
/// that are already in normal form is those labels.
pub proof fn lemma_label_normal_form_idempotent(r: Seq<Seq<char>>, values: Seq<Seq<char>>, again: Seq<Seq<char>>)
    requires
        is_label_normal_form(r, values),
        is_label_normal_form(again, r),
    ensures
        again == r,
{
    let c = cleaned_labels(values);
    lemma_cleaned_trimmed(values);
    assert forall|i: int| 0 <= i < r.len() implies trimmed(#[trigger] r[i]) == r[i] && r[i].len() > 0 by {
        assert(first_with_key(c, r[i]));
        let k = choose|k: int| 0 <= k < c.len() && c[k] == r[i] && forall|j: int| 0 <= j < k ==> lower(#[trigger] c[j]) != lower(r[i]);
        assert(trimmed(c[k]) == c[k]);
    }
    lemma_cleaned_fixed(r);
    let ka = again.map_values(|x: Seq<char>| lower(x));
    let kr = r.map_values(|x: Seq<char>| lower(x));
    assert forall|x: Seq<char>| ka.contains(x) <==> kr.contains(x) by {
        if ka.contains(x) {
            let j = choose|j: int| 0 <= j < ka.len() && ka[j] == x;
            assert(first_with_key(cleaned_labels(r), again[j]));
            let k = choose|k: int| 0 <= k < r.len() && r[k] == again[j] && forall|m: int| 0 <= m < k ==> lower(#[trigger] r[m]) != lower(again[j]);
            assert(kr[k] == x);
        }
        if kr.contains(x) {
            let i = choose|i: int| 0 <= i < kr.len() && kr[i] == x;
            assert(cleaned_labels(r).contains(r[i]));
            let j = choose|j: int| 0 <= j < again.len() && lower(#[trigger] again[j]) == lower(r[i]);
            assert(ka[j] == x);
        }
    }
    assert forall|i: int, j: int| 0 <= i < j < ka.len() implies seq_lt(#[trigger] ka[i], #[trigger] ka[j]) by {
        assert(seq_lt(lower(again[i]), lower(again[j])));
    }
    assert forall|i: int, j: int| 0 <= i < j < kr.len() implies seq_lt(#[trigger] kr[i], #[trigger] kr[j]) by {
        assert(seq_lt(lower(r[i]), lower(r[j])));
    }
    lemma_sorted_keys_equal(ka, kr);
    assert(again.len() == r.len()) by {
        assert(ka.len() == kr.len());
    }
    assert forall|i: int| 0 <= i < r.len() implies again[i] == r[i] by {
        assert(first_with_key(cleaned_labels(r), again[i]));
        let k = choose|k: int| 0 <= k < r.len() && r[k] == again[i] && forall|m: int| 0 <= m < k ==> lower(#[trigger] r[m]) != lower(again[i]);
        assert(ka[i] == kr[i]);
        assert(kr[k] == lower(again[i]));
        if k < i {
            assert(seq_lt(kr[k], kr[i]));
            lemma_lt_irreflexive(kr[k]);
        }
        if k > i {
            assert(seq_lt(kr[i], kr[k]));
            lemma_lt_irreflexive(kr[k]);
        }
    }
    assert(again =~= r);
}

/// The label normal form of a list is unique: any two results that meet
/// it for the same input are equal. So every function that promises
/// `is_label_normal_form` (label normalisation of media, alias names of an
/// import) gives the same labels for the same input.
pub proof fn lemma_label_normal_form_unique(a: Seq<Seq<char>>, b: Seq<Seq<char>>, values: Seq<Seq<char>>)
    requires
        is_label_normal_form(a, values),
        is_label_normal_form(b, values),
    ensures
        a == b,
{
    let c = cleaned_labels(values);
    let ka = a.map_values(|x: Seq<char>| lower(x));
    let kb = b.map_values(|x: Seq<char>| lower(x));
    assert forall|x: Seq<char>| ka.contains(x) <==> kb.contains(x) by {
        if ka.contains(x) {
            let j = choose|j: int| 0 <= j < ka.len() && ka[j] == x;
            assert(first_with_key(c, a[j]));
            let k = choose|k: int| 0 <= k < c.len() && c[k] == a[j] && forall|m: int| 0 <= m < k ==> lower(#[trigger] c[m]) != lower(a[j]);
            assert(c.contains(c[k]));
            let i = choose|i: int| 0 <= i < b.len() && lower(#[trigger] b[i]) == lower(c[k]);
            assert(kb[i] == x);
        }
        if kb.contains(x) {
            let j = choose|j: int| 0 <= j < kb.len() && kb[j] == x;
            assert(first_with_key(c, b[j]));
            let k = choose|k: int| 0 <= k < c.len() && c[k] == b[j] && forall|m: int| 0 <= m < k ==> lower(#[trigger] c[m]) != lower(b[j]);
            assert(c.contains(c[k]));
            let i = choose|i: int| 0 <= i < a.len() && lower(#[trigger] a[i]) == lower(c[k]);
            assert(ka[i] == x);
        }
    }
    assert forall|i: int, j: int| 0 <= i < j < ka.len() implies seq_lt(#[trigger] ka[i], #[trigger] ka[j]) by {
        assert(seq_lt(lower(a[i]), lower(a[j])));
    }
    assert forall|i: int, j: int| 0 <= i < j < kb.len() implies seq_lt(#[trigger] kb[i], #[trigger] kb[j]) by {
        assert(seq_lt(lower(b[i]), lower(b[j])));
    }
    lemma_sorted_keys_equal(ka, kb);
    assert(a.len() == b.len()) by {
        assert(ka.len() == kb.len());
    }
    assert forall|i: int| 0 <= i < a.len() implies a[i] == b[i] by {
        assert(ka[i] == kb[i]);
        assert(first_with_key(c, a[i]));
        assert(first_with_key(c, b[i]));
        let ia = choose|k: int| 0 <= k < c.len() && c[k] == a[i] && forall|m: int| 0 <= m < k ==> lower(#[trigger] c[m]) != lower(a[i]);
        let ib = choose|k: int| 0 <= k < c.len() && c[k] == b[i] && forall|m: int| 0 <= m < k ==> lower(#[trigger] c[m]) != lower(b[i]);
        assert(lower(a[i]) == lower(b[i]));
        if ia < ib {
            assert(lower(c[ia]) != lower(b[i]));
        }
        if ib < ia {
            assert(lower(c[ib]) != lower(a[i]));
        }
    }
    assert(a =~= b);
}

} // verus!
