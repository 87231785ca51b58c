//! Small building blocks for string construction and inspection: appending
//! single characters, whitespace trimming, and character and substring
//! search.

use vstd::prelude::*;

use vstd::string::StrSliceExecFns;

verus! {

/// Relies on String::push: appends exactly one character at the end.
#[verifier::external_body]
pub(crate) fn push_char(out: &mut String, c: char)
    ensures
        final(out)@ == old(out)@.push(c),
{
    out.push(c);
}

/// The characters with the Unicode white-space property, the set the
/// standard trimming routines remove.
pub open spec fn is_space_char(c: char) -> bool {
    let u = c as u32;
    (9 <= u && u <= 13) || u == 32 || u == 0x85 || u == 0xA0 || u == 0x1680 || (0x2000 <= u && u
        <= 0x200A) || u == 0x2028 || u == 0x2029 || u == 0x202F || u == 0x205F || u == 0x3000
}

/// Decides whether `c` is white space.
pub fn is_space(c: char) -> (r: bool)
    ensures
        r == is_space_char(c),
{
    let u = c as u32;
    (9 <= u && u <= 13) || u == 32 || u == 0x85 || u == 0xA0 || u == 0x1680 || (0x2000 <= u && u
        <= 0x200A) || u == 0x2028 || u == 0x2029 || u == 0x202F || u == 0x205F || u == 0x3000
}

/// `s` with leading white space removed.
pub open spec fn trim_front(s: Seq<char>) -> Seq<char>
    decreases s.len(),
{
    if s.len() > 0 && is_space_char(s[0]) {
        trim_front(s.skip(1))
    } else {
        s
    }
}

/// `s` with trailing white space removed.
pub open spec fn trim_back(s: Seq<char>) -> Seq<char>
    decreases s.len(),
{
    if s.len() > 0 && is_space_char(s.last()) {
        trim_back(s.drop_last())
    } else {
        s
    }
}

/// `s` with surrounding white space removed.
pub open spec fn trimmed(s: Seq<char>) -> Seq<char> {
    trim_back(trim_front(s))
}

/// Trimming the front removes exactly the leading run of white space.
proof fn lemma_trim_front_skip(s: Seq<char>, k: int)
    requires
        0 <= k <= s.len(),
        forall|j: int| 0 <= j < k ==> is_space_char(#[trigger] s[j]),
        k == s.len() || !is_space_char(s[k]),
    ensures
        trim_front(s) == s.skip(k),
    decreases k,
{
    if k == 0 {
        assert(s.skip(0) =~= s);
    } else {
        assert(is_space_char(s[0]));
        lemma_trim_front_skip(s.skip(1), k - 1);
        assert(s.skip(1).skip(k - 1) =~= s.skip(k));
    }
}

/// Trimming the back removes exactly the trailing run of white space.
proof fn lemma_trim_back_take(s: Seq<char>, e: int)
    requires
        0 <= e <= s.len(),
        forall|j: int| e <= j < s.len() ==> is_space_char(#[trigger] s[j]),
        e == 0 || !is_space_char(s[e - 1]),
    ensures
        trim_back(s) == s.take(e),
    decreases s.len() - e,
{
    if e == s.len() {
        assert(s.take(e) =~= s);
    } else {
        assert(is_space_char(s.last()));
        lemma_trim_back_take(s.drop_last(), e);
        assert(s.drop_last().take(e) =~= s.take(e));
    }
}

/// Removes white space from both ends of `s`.
pub fn trim(s: &str) -> (r: &str)
    ensures
        r@ == trimmed(s@),
{
    let n = s.unicode_len();
    let mut start: usize = 0;
    while start < n && is_space(s.get_char(start))
        invariant
            start <= n,
            n == s@.len(),
            forall|j: int| 0 <= j < start ==> is_space_char(#[trigger] s@[j]),
        decreases n - start,
    {
        start += 1;
    }
    let mut end: usize = n;
    while end > start && is_space(s.get_char(end - 1))
        invariant
            start <= end <= n,
            n == s@.len(),
            forall|j: int| end <= j < n ==> is_space_char(#[trigger] s@[j]),
        decreases end,
    {
        end -= 1;
    }
    proof {
        lemma_trim_front_skip(s@, start as int);
        let t = s@.skip(start as int);
        assert(forall|j: int|
            end - start <= j < t.len() ==> is_space_char(#[trigger] t[j]) && t[j] == s@[j + start]);
        lemma_trim_back_take(t, end - start);
        assert(t.take(end - start) =~= s@.subrange(start as int, end as int));
    }
    s.substring_char(start, end)
}

/// The position of the first occurrence of `c` in `s`, or the length of `s`
/// when `c` does not occur.
pub open spec fn find_char(s: Seq<char>, c: char) -> int
    decreases s.len(),
{
    if s.len() == 0 {
        0
    } else if s[0] == c {
        0
    } else {
        1 + find_char(s.skip(1), c)
    }
}

/// `find_char` points at the first occurrence: nothing before it matches,
/// and it matches unless it is the length.
pub proof fn lemma_find_char(s: Seq<char>, c: char)
    ensures
        0 <= find_char(s, c) <= s.len(),
        forall|j: int| 0 <= j < find_char(s, c) ==> s[j] != c,
        find_char(s, c) < s.len() ==> s[find_char(s, c)] == c,
    decreases s.len(),
{
    if s.len() > 0 && s[0] != c {
        lemma_find_char(s.skip(1), c);
        assert(forall|j: int| 1 <= j < s.len() ==> #[trigger] s[j] == s.skip(1)[j - 1]);
    }
}

/// Finds the first occurrence of `c` in `s`, reported as the length of `s`
/// when `c` does not occur.
pub fn find_char_at(s: &str, c: char) -> (i: usize)
    ensures
        i == find_char(s@, c),
        i <= s@.len(),
{
    let n = s.unicode_len();
    let mut i: usize = 0;
    while i < n
        invariant
            i <= n,
            n == s@.len(),
            forall|j: int| 0 <= j < i ==> s@[j] != c,
        decreases n - i,
    {
        if s.get_char(i) == c {
            proof {
                lemma_find_char(s@, c);
            }
            return i;
        }
        i += 1;
    }
    proof {
        lemma_find_char(s@, c);
    }
    i
}

/// Whether `hay` holds `pat` as a contiguous run of characters.
pub open spec fn contains_seq(hay: Seq<char>, pat: Seq<char>) -> bool {
    exists|i: int|
        0 <= i <= hay.len() - pat.len() && #[trigger] hay.subrange(i, i + pat.len()) == pat
}

/// Decides whether `hay` holds `pat` as a contiguous run of characters.
pub fn contains_str(hay: &str, pat: &str) -> (r: bool)
    ensures
        r == contains_seq(hay@, pat@),
{
    let h = hay.unicode_len();
    let p = pat.unicode_len();
    if p > h {
        return false;
    }
    let mut i: usize = 0;
    while i <= h - p
        invariant
            p <= h,
            h == hay@.len(),
            p == pat@.len(),
            i <= h - p + 1,
            forall|j: int| 0 <= j < i ==> #[trigger] hay@.subrange(j, j + p) != pat@,
        decreases h + 1 - i,
    {
        let mut k: usize = 0;
        while k < p && hay.get_char(i + k) == pat.get_char(k)
            invariant
                i + p <= h,
                k <= p,
                h == hay@.len(),
                p == pat@.len(),
                forall|j: int| 0 <= j < k ==> hay@[i + j] == pat@[j],
            decreases p - k,
        {
            k += 1;
        }
        if k == p {
            proof {
                assert(hay@.subrange(i as int, i + p) =~= pat@);
            }
            return true;
        }
        proof {
            assert(hay@.subrange(i as int, i + p)[k as int] == hay@[i + k]);
            assert(hay@.subrange(i as int, i + p) != pat@);
        }
        i += 1;
    }
    false
}

} // verus!
