//! Lexicographic order on path strings and normalization of path
//! collections.
//!
//! Path collections are kept deduplicated; sorting only makes the
//! deduplication deterministic.  The normal form is a strictly increasing
//! sequence, which holds each path at most once by construction.

use vstd::prelude::*;

use vstd::string::StrSliceExecFns;

verus! {

/// Strict lexicographic order on character sequences, by code point.
pub open spec fn lex_lt(a: Seq<char>, b: Seq<char>) -> bool
    decreases a.len(),
{
    if b.len() == 0 {
        false
    } else if a.len() == 0 {
        true
    } else if (a[0] as u32) < (b[0] as u32) {
        true
    } else if (b[0] as u32) < (a[0] as u32) {
        false
    } else {
        lex_lt(a.skip(1), b.skip(1))
    }
}

/// No sequence is lexicographically below itself.
pub proof fn lemma_lex_lt_irreflexive(a: Seq<char>)
    ensures
        !lex_lt(a, a),
    decreases a.len(),
{
    if a.len() > 0 {
        lemma_lex_lt_irreflexive(a.skip(1));
    }
}

/// Any two sequences are ordered one way or the other, or are equal.
pub proof fn lemma_lex_lt_total(a: Seq<char>, b: Seq<char>)
    ensures
        lex_lt(a, b) || lex_lt(b, a) || a == b,
    decreases a.len(),
{
    if b.len() == 0 && a.len() == 0 {
        assert(a =~= b);
    } else if b.len() == 0 {
        assert(lex_lt(b, a));
    } else if a.len() == 0 {
        assert(lex_lt(a, b));
    } else if (a[0] as u32) < (b[0] as u32) {
        assert(lex_lt(a, b));
    } else if (b[0] as u32) < (a[0] as u32) {
        assert(lex_lt(b, a));
    } else {
        assert(a[0] == b[0]) by {
            vstd::utf8::char_u32_cast(a[0], a[0] as u32);
            vstd::utf8::char_u32_cast(b[0], b[0] as u32);
        }
        lemma_lex_lt_total(a.skip(1), b.skip(1));
        if !lex_lt(a, b) && !lex_lt(b, a) {
            assert(a.skip(1) == b.skip(1));
            assert(a.len() == b.len()) by {
                assert(a.skip(1).len() == b.skip(1).len());
            }
            assert(a =~= b) by {
                assert forall|i: int| 0 <= i < a.len() implies a[i] == b[i] by {
                    if i >= 1 {
                        assert(a[i] == a.skip(1)[i - 1]);
                        assert(b[i] == b.skip(1)[i - 1]);
                    }
                }
            }
        }
    }
}

/// The lexicographic order is transitive.
pub proof fn lemma_lex_lt_trans(a: Seq<char>, b: Seq<char>, c: Seq<char>)
    requires
        lex_lt(a, b),
        lex_lt(b, c),
    ensures
        lex_lt(a, c),
    decreases a.len(),
{
    assert(b.len() > 0 && c.len() > 0);
    if a.len() > 0 {
        if (a[0] as u32) == (b[0] as u32) && (b[0] as u32) == (c[0] as u32) {
            assert(lex_lt(a.skip(1), b.skip(1)));
            assert(lex_lt(b.skip(1), c.skip(1)));
            lemma_lex_lt_trans(a.skip(1), b.skip(1), c.skip(1));
            assert(lex_lt(a, c));
        } else {
            assert((a[0] as u32) <= (b[0] as u32));
            assert((b[0] as u32) <= (c[0] as u32));
            assert((a[0] as u32) < (c[0] as u32));
            assert(lex_lt(a, c));
        }
    } else {
        assert(lex_lt(a, c));
    }
}

/// A path collection in normal form: strictly increasing, so each path
/// occurs at most once.
pub open spec fn paths_sorted(s: Seq<Seq<char>>) -> bool {
    forall|i: int, j: int| 0 <= i < j < s.len() ==> lex_lt(s[i], s[j])
}

/// Decides the lexicographic order on two strings.
pub fn str_lex_lt(a: &str, b: &str) -> (r: bool)
    ensures
        r == lex_lt(a@, b@),
{
    let a_len = a.unicode_len();
    let b_len = b.unicode_len();
    let mut i: usize = 0;
    proof {
        assert(a@.skip(0) =~= a@);
        assert(b@.skip(0) =~= b@);
    }
    loop
        invariant
            i <= a_len,
            i <= b_len,
            a_len == a@.len(),
            b_len == b@.len(),
            lex_lt(a@, b@) == lex_lt(a@.skip(i as int), b@.skip(i as int)),
        decreases a_len - i,
    {
        if i == a_len {
            return i < b_len;
        }
        if i == b_len {
            return false;
        }
        let ca = a.get_char(i);
        let cb = b.get_char(i);
        if (ca as u32) < (cb as u32) {
            return true;
        }
        if (cb as u32) < (ca as u32) {
            return false;
        }
        proof {
            assert(a@.skip(i as int).skip(1) =~= a@.skip(i + 1));
            assert(b@.skip(i as int).skip(1) =~= b@.skip(i + 1));
        }
        i += 1;
    }
}

/// The first position whose element is not below `x`; all earlier elements
/// are below `x`.
fn lower_bound(out: &Vec<String>, x: &String) -> (i: usize)
    ensures
        i <= out@.len(),
        forall|j: int| 0 <= j < i ==> lex_lt(#[trigger] out.deep_view()[j], x@),
        i < out@.len() ==> !lex_lt(out.deep_view()[i as int], x@),
{
    let mut i: usize = 0;
    while i < out.len()
        invariant
            i <= out@.len(),
            forall|j: int| 0 <= j < i ==> lex_lt(#[trigger] out.deep_view()[j], x@),
        decreases out@.len() - i,
    {
        if str_lex_lt(out[i].as_str(), x.as_str()) {
            i += 1;
        } else {
            return i;
        }
    }
    i
}

/// Every path of a pushed sequence is a path of the original or the new one.
proof fn lemma_to_set_insert_mid(s: Seq<Seq<char>>, i: int, x: Seq<char>)
    requires
        0 <= i <= s.len(),
    ensures
        s.insert(i, x).to_set() =~= s.to_set().insert(x),
{
    let t = s.insert(i, x);
    assert forall|e: Seq<char>| t.to_set().contains(e) implies s.to_set().contains(e) || e
        == x by {
        let k = choose|k: int| 0 <= k < t.len() && t[k] == e;
        if k < i {
            assert(s[k] == e);
        } else if k > i {
            assert(s[k - 1] == e);
        }
    }
    assert forall|e: Seq<char>| s.to_set().contains(e) implies t.to_set().contains(e) by {
        let k = choose|k: int| 0 <= k < s.len() && s[k] == e;
        if k < i {
            assert(t[k] == e);
        } else {
            assert(t[k + 1] == e);
        }
    }
    assert(t.to_set().contains(x)) by {
        assert(t[i] == x);
    }
}

/// Appending a path adds exactly that path to the set of paths.
pub proof fn lemma_to_set_push(s: Seq<Seq<char>>, x: Seq<char>)
    ensures
        s.push(x).to_set() =~= s.to_set().insert(x),
{
    assert(s.push(x) =~= s.insert(s.len() as int, x));
    lemma_to_set_insert_mid(s, s.len() as int, x);
}

/// The paths of a concatenation are the paths of both parts.
pub proof fn lemma_to_set_concat(a: Seq<Seq<char>>, b: Seq<Seq<char>>)
    ensures
        (a + b).to_set() =~= a.to_set() + b.to_set(),
{
    let t = a + b;
    assert forall|e: Seq<char>| t.to_set().contains(e) implies (a.to_set() + b.to_set()).contains(
        e,
    ) by {
        let k = choose|k: int| 0 <= k < t.len() && t[k] == e;
        if k < a.len() {
            assert(a[k] == e);
        } else {
            assert(b[k - a.len()] == e);
        }
    }
    assert forall|e: Seq<char>| (a.to_set() + b.to_set()).contains(e) implies t.to_set().contains(
        e,
    ) by {
        if a.to_set().contains(e) {
            let k = choose|k: int| 0 <= k < a.len() && a[k] == e;
            assert(t[k] == e);
        } else {
            let k = choose|k: int| 0 <= k < b.len() && b[k] == e;
            assert(t[a.len() + k] == e);
        }
    }
}

/// Inserts `x` into a normalized collection, keeping the normal form and
/// adding exactly `x` to the set of paths.  When every present path is below
/// `x`, the insertion appends `x` at the end.
fn insert_sorted(out: &mut Vec<String>, x: String)
    requires
        paths_sorted(old(out).deep_view()),
    ensures
        paths_sorted(final(out).deep_view()),
        final(out).deep_view().to_set() =~= old(out).deep_view().to_set().insert(x@),
        (forall|j: int|
            0 <= j < old(out)@.len() ==> lex_lt(#[trigger] old(out).deep_view()[j], x@))
            ==> final(out).deep_view() =~= old(out).deep_view().push(x@),
{
    let ghost orig = out.deep_view();
    let i = lower_bound(out, &x);
    let present = i < out.len() && out[i] == x;
    if present {
        proof {
            assert(orig.to_set().contains(x@)) by {
                assert(orig[i as int] == x@);
            }
            assert(orig.to_set() =~= orig.to_set().insert(x@));
            assert(!(forall|j: int| 0 <= j < orig.len() ==> lex_lt(#[trigger] orig[j], x@))) by {
                lemma_lex_lt_irreflexive(x@);
                assert(!lex_lt(orig[i as int], x@));
            }
        }
    } else {
        proof {
            if i < out@.len() {
                lemma_lex_lt_total(orig[i as int], x@);
                assert(lex_lt(x@, orig[i as int]));
            }
        }
        out.insert(i, x);
        proof {
            let updated = out.deep_view();
            assert(updated =~= orig.insert(i as int, x@));
            assert(paths_sorted(updated)) by {
                assert forall|p: int, q: int| 0 <= p < q < updated.len() implies lex_lt(
                    updated[p],
                    updated[q],
                ) by {
                    if q < i {
                    } else if p < i && q == i {
                        assert(lex_lt(orig[p], x@));
                    } else if p < i && q > i {
                        assert(lex_lt(orig[p], orig[q - 1]));
                    } else if p == i && q > i {
                        if q - 1 > i - 1 + 1 {
                            lemma_lex_lt_trans(x@, orig[i as int], orig[q - 1]);
                        }
                    } else {
                        assert(lex_lt(orig[p - 1], orig[q - 1]));
                    }
                }
            }
            lemma_to_set_insert_mid(orig, i as int, x@);
            if forall|j: int| 0 <= j < orig.len() ==> lex_lt(#[trigger] orig[j], x@) {
                assert(i == orig.len()) by {
                    if i < orig.len() {
                        assert(lex_lt(orig[i as int], x@));
                    }
                }
                assert(updated =~= orig.push(x@));
            }
        }
    }
}

/// Sorts the given paths and removes duplicates.
///
/// The result holds exactly the input paths as a set, in strictly increasing
/// lexicographic order.  An input already in that normal form comes back
/// unchanged, so normalization is idempotent: applying it twice yields what
/// one application yields.
pub fn normalize_paths(paths: Vec<String>) -> (r: Vec<String>)
    ensures
        paths_sorted(r.deep_view()),
        r.deep_view().to_set() =~= paths.deep_view().to_set(),
        paths_sorted(paths.deep_view()) ==> r.deep_view() =~= paths.deep_view(),
{
    let ghost all = paths.deep_view();
    let mut out: Vec<String> = Vec::new();
    let mut k: usize = 0;
    while k < paths.len()
        invariant
            k <= paths@.len(),
            all == paths.deep_view(),
            paths_sorted(out.deep_view()),
            out.deep_view().to_set() =~= all.take(k as int).to_set(),
            paths_sorted(all) ==> out.deep_view() =~= all.take(k as int),
        decreases paths@.len() - k,
    {
        let x = paths[k].clone();
        let ghost before = out.deep_view();
        proof {
            assert(x@ == all[k as int]);
        }
        insert_sorted(&mut out, x);
        proof {
            let step = all.take(k + 1);
            assert(step.drop_last() =~= all.take(k as int));
            assert(step.last() == all[k as int]);
            assert(step =~= all.take(k as int).push(all[k as int]));
            lemma_to_set_insert_mid(all.take(k as int), k as int, all[k as int]);
            if paths_sorted(all) {
                assert(forall|j: int|
                    0 <= j < before.len() ==> lex_lt(#[trigger] before[j], all[k as int]));
            }
        }
        k += 1;
    }
    proof {
        assert(all.take(paths@.len() as int) =~= all);
    }
    out
}

} // verus!
