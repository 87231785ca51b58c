//! Best-effort extraction of library paths from the storefront's
//! line-oriented library declaration text.
//!
//! A line contributes a path only when its trimmed form starts with the
//! quoted key `path`; the first quoted token after the key is the raw value,
//! and every doubled backslash in it is replaced by a single one.  Malformed
//! lines are skipped silently: this is not a full parser for the format, and
//! deliberately inspects nothing beyond that single field.

use vstd::prelude::*;

use crate::order::normalize_paths;
use crate::order::paths_sorted;
use crate::text::find_char;
use crate::text::find_char_at;
use crate::text::lemma_find_char;
use crate::text::push_char;
use crate::text::trim;
use crate::text::trimmed;
use vstd::string::StrSliceExecFns;

verus! {

/// The quoted key that marks a library path line.
pub open spec fn path_key() -> Seq<char> {
    seq!['"', 'p', 'a', 't', 'h', '"']
}

/// Replaces every doubled backslash with a single one, left to right; no
/// other escape sequence is recognized.
pub open spec fn unescape(s: Seq<char>) -> Seq<char>
    decreases s.len(),
{
    if s.len() >= 2 && s[0] == '\\' && s[1] == '\\' {
        seq!['\\'] + unescape(s.skip(2))
    } else if s.len() >= 1 {
        seq![s[0]] + unescape(s.skip(1))
    } else {
        Seq::empty()
    }
}

/// The path a single line contributes, when it contributes one: the line is
/// trimmed, must start with the quoted key `path`, and the first quoted
/// token after the key is taken as the raw value and unescaped.
pub open spec fn line_path(line: Seq<char>) -> Option<Seq<char>> {
    let t = trimmed(line);
    if t.len() < 6 || t.take(6) != path_key() {
        None
    } else {
        let rest = trimmed(t.skip(6));
        let start = find_char(rest, '"');
        if start == rest.len() {
            None
        } else {
            let after = rest.skip(start + 1);
            let end = find_char(after, '"');
            if end == after.len() {
                None
            } else {
                Some(unescape(after.take(end)))
            }
        }
    }
}

/// The contribution of one line: one path or none.
pub open spec fn line_contrib(line: Seq<char>) -> Seq<Seq<char>> {
    match line_path(line) {
        Some(p) => seq![p],
        None => Seq::empty(),
    }
}

/// A line split before a newline loses one trailing carriage return.
pub open spec fn strip_cr(line: Seq<char>) -> Seq<char> {
    if line.len() > 0 && line.last() == '\r' {
        line.drop_last()
    } else {
        line
    }
}

/// The paths contributed by the lines of `text`, in order.  Lines end at
/// newlines, a carriage return before a newline is dropped, and a final
/// line needs no terminator.
pub open spec fn line_paths(text: Seq<char>) -> Seq<Seq<char>>
    decreases text.len(),
    via line_paths_decreases
{
    if text.len() == 0 {
        Seq::empty()
    } else {
        let i = find_char(text, '\n');
        if i == text.len() {
            line_contrib(text)
        } else {
            line_contrib(strip_cr(text.take(i))) + line_paths(text.skip(i + 1))
        }
    }
}

#[via_fn]
proof fn line_paths_decreases(text: Seq<char>) {
    lemma_find_char(text, '\n');
}

/// Performs the unescaping pass of `unescape`.
fn unescape_str(raw: &str) -> (r: String)
    ensures
        r@ == unescape(raw@),
{
    let n = raw.unicode_len();
    let mut out = String::new();
    let mut i: usize = 0;
    proof {
        assert(raw@.skip(0) =~= raw@);
    }
    while i < n
        invariant
            i <= n,
            n == raw@.len(),
            out@ + unescape(raw@.skip(i as int)) == unescape(raw@),
        decreases n - i,
    {
        let c = raw.get_char(i);
        let ghost tail = raw@.skip(i as int);
        proof {
            assert(tail[0] == c);
            if i + 1 < n {
                assert(tail[1] == raw@[i + 1]);
            }
        }
        if c == '\\' && i + 1 < n && raw.get_char(i + 1) == '\\' {
            push_char(&mut out, '\\');
            proof {
                assert(tail.skip(2) =~= raw@.skip(i + 2));
                assert(out@ + unescape(raw@.skip(i + 2)) =~= unescape(raw@));
            }
            i += 2;
        } else {
            push_char(&mut out, c);
            proof {
                assert(tail.skip(1) =~= raw@.skip(i + 1));
                assert(unescape(tail) == seq![c] + unescape(tail.skip(1)));
                assert(out@ + unescape(raw@.skip(i + 1)) =~= unescape(raw@));
            }
            i += 1;
        }
    }
    proof {
        assert(raw@.skip(n as int) =~= Seq::<char>::empty());
        assert(out@ + unescape(raw@.skip(n as int)) =~= out@);
    }
    out
}

/// Extracts the path of one line, when the line contributes one.
fn line_path_str(line: &str) -> (r: Option<String>)
    ensures
        (match r {
            Some(s) => line_path(line@) == Some(s@),
            None => line_path(line@) is None,
        }),
{
    let t = trim(line);
    let tl = t.unicode_len();
    if tl < 6 {
        return None;
    }
    if !(t.get_char(0) == '"' && t.get_char(1) == 'p' && t.get_char(2) == 'a' && t.get_char(3)
        == 't' && t.get_char(4) == 'h' && t.get_char(5) == '"') {
        proof {
            if t@.take(6) == path_key() {
                assert(forall|j: int| 0 <= j < 6 ==> #[trigger] t@.take(6)[j] == t@[j]);
                assert(false);
            }
        }
        return None;
    }
    proof {
        assert(t@.take(6) =~= path_key());
    }
    let rest = trim(t.substring_char(6, tl));
    proof {
        assert(t@.subrange(6, tl as int) =~= t@.skip(6));
    }
    let rl = rest.unicode_len();
    let start = find_char_at(rest, '"');
    if start == rl {
        return None;
    }
    proof {
        lemma_find_char(rest@, '"');
    }
    let after = rest.substring_char(start + 1, rl);
    proof {
        assert(rest@.subrange(start + 1, rl as int) =~= rest@.skip(start + 1));
    }
    let al = after.unicode_len();
    let end = find_char_at(after, '"');
    if end == al {
        return None;
    }
    proof {
        lemma_find_char(after@, '"');
    }
    let raw = after.substring_char(0, end);
    proof {
        assert(after@.subrange(0, end as int) =~= after@.take(end as int));
    }
    Some(unescape_str(raw))
}

/// Extracts every library path declared in `vdf_text`, sorted and
/// deduplicated.
///
/// The result holds, as a set, exactly the paths that the lines of the text
/// contribute; lines without the quoted `path` key, and lines whose value
/// quote is never closed, contribute nothing.
pub fn parse_libraryfolders_paths(vdf_text: &str) -> (r: Vec<String>)
    ensures
        paths_sorted(r.deep_view()),
        r.deep_view().to_set() == line_paths(vdf_text@).to_set(),
{
    let mut found: Vec<String> = Vec::new();
    let mut rest: &str = vdf_text;
    proof {
        assert(found.deep_view() + line_paths(rest@) =~= line_paths(vdf_text@));
    }
    while !rest.is_empty()
        invariant
            found.deep_view() + line_paths(rest@) == line_paths(vdf_text@),
        decreases rest@.len(),
    {
        let ghost prev = rest@;
        let ghost done = found.deep_view();
        let n = rest.unicode_len();
        let nl = find_char_at(rest, '\n');
        if nl == n {
            let piece = line_path_str(rest);
            if let Some(pstr) = piece {
                found.push(pstr);
            }
            rest = rest.substring_char(n, n);
            proof {
                assert(line_paths(prev) == line_contrib(prev) + line_paths(rest@)) by {
                    assert(line_paths(rest@) =~= Seq::<Seq<char>>::empty());
                    assert(line_contrib(prev) + line_paths(rest@) =~= line_contrib(prev));
                }
                assert(found.deep_view() =~= done + line_contrib(prev));
                assert(found.deep_view() + line_paths(rest@) =~= line_paths(vdf_text@));
            }
        } else {
            let mut line = rest.substring_char(0, nl);
            if nl > 0 && line.get_char(nl - 1) == '\r' {
                line = rest.substring_char(0, nl - 1);
                proof {
                    assert(prev.take(nl as int).last() == prev[nl - 1]);
                    assert(prev.subrange(0, nl - 1) =~= prev.take(nl as int).drop_last());
                }
            }
            proof {
                assert(prev.subrange(0, nl as int) =~= prev.take(nl as int));
                assert(line@ == strip_cr(prev.take(nl as int)));
            }
            let piece = line_path_str(line);
            if let Some(pstr) = piece {
                found.push(pstr);
            }
            rest = rest.substring_char(nl + 1, n);
            proof {
                assert(rest@ =~= prev.skip(nl + 1));
                let piece_paths = line_contrib(strip_cr(prev.take(nl as int)));
                assert(line_paths(prev) == piece_paths + line_paths(rest@));
                assert(found.deep_view() =~= done + piece_paths);
                assert(found.deep_view() + line_paths(rest@) =~= line_paths(vdf_text@));
            }
        }
    }
    proof {
        assert(line_paths(rest@) =~= Seq::<Seq<char>>::empty());
        assert(found.deep_view() =~= line_paths(vdf_text@));
    }
    normalize_paths(found)
}

} // verus!
