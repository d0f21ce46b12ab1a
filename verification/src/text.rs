//! Character-level text helpers: whitespace trimming and searching,
//! shared by the catalog parser and the credential codec.

use vstd::prelude::*;
use vstd::string::StrSliceExecFns;

verus! {

/// The whitespace the text formats strip: blanks, tabs and line ends.
pub open spec fn is_space(c: char) -> bool {
    c == ' ' || c == '\t' || c == '\r' || c == '\n'
}

/// `s` without its leading whitespace.
pub open spec fn trim_start_spec(s: Seq<char>) -> Seq<char>
    decreases s.len(),
{
    if s.len() > 0 && is_space(s[0]) {
        trim_start_spec(s.drop_first())
    } else {
        s
    }
}

/// `s` without its trailing whitespace.
pub open spec fn trim_end_spec(s: Seq<char>) -> Seq<char>
    decreases s.len(),
{
    if s.len() > 0 && is_space(s.last()) {
        trim_end_spec(s.drop_last())
    } else {
        s
    }
}

/// `s` without its surrounding whitespace.
pub open spec fn trim_spec(s: Seq<char>) -> Seq<char> {
    trim_end_spec(trim_start_spec(s))
}

/// The first position at or after `from` holding the character `c`.
pub open spec fn find_char_from(s: Seq<char>, c: char, from: int) -> Option<int>
    decreases s.len() - from,
{
    if from < 0 || from >= s.len() {
        None
    } else if s[from] == c {
        Some(from)
    } else {
        find_char_from(s, c, from + 1)
    }
}

/// A found position indeed lies at or after `from` and holds `c`.
pub proof fn lemma_find_char_bound(s: Seq<char>, c: char, from: int)
    requires
        find_char_from(s, c, from) is Some,
    ensures
        ({
            let e = find_char_from(s, c, from)->Some_0;
            from <= e < s.len() && s[e] == c
        }),
    decreases s.len() - from,
{
    if 0 <= from < s.len() && s[from] != c {
        lemma_find_char_bound(s, c, from + 1);
    }
}

/// The lines of `s` from position `from` on, split at every newline.
pub open spec fn lines_from(s: Seq<char>, from: int) -> Seq<Seq<char>>
    decreases s.len() - from,
    via lines_from_decreases
{
    match find_char_from(s, '\n', from) {
        Some(e) => seq![s.subrange(from, e)] + lines_from(s, e + 1),
        None => seq![s.subrange(from, s.len() as int)],
    }
}

#[via_fn]
proof fn lines_from_decreases(s: Seq<char>, from: int) {
    if find_char_from(s, '\n', from) is Some {
        lemma_find_char_bound(s, '\n', from);
    }
}

/// The lines of a catalog document.
pub open spec fn split_lines(s: Seq<char>) -> Seq<Seq<char>> {
    lines_from(s, 0)
}

/// Reports whether `c` is whitespace to strip.
pub(crate) fn is_space_char(c: char) -> (r: bool)
    ensures
        r == is_space(c),
{
    c == ' ' || c == '\t' || c == '\r' || c == '\n'
}

/// Finds the first newline at or after `from`.
pub(crate) fn find_newline(s: &str, from: usize, n: usize) -> (r: Option<usize>)
    requires
        from <= n,
        n == s@.len(),
    ensures
        match r {
            Some(e) => from <= e < n && find_char_from(s@, '\n', from as int) == Some(e as int),
            None => find_char_from(s@, '\n', from as int) is None,
        },
{
    let mut i = from;
    while i < n
        invariant
            from <= i <= n,
            n == s@.len(),
            find_char_from(s@, '\n', from as int) == find_char_from(s@, '\n', i as int),
        decreases n - i,
    {
        if s.get_char(i) == '\n' {
            return Some(i);
        }
        i = i + 1;
    }
    None
}

/// Finds the first `=` in the range `from .. to`, as a position within
/// the range's own character sequence.
pub(crate) fn find_equals_in(s: &str, from: usize, to: usize, n: usize) -> (r: Option<usize>)
    requires
        from <= to <= n,
        n == s@.len(),
    ensures
        match r {
            Some(e) => from <= e < to && find_char_from(s@.subrange(from as int, to as int), '=', 0)
                == Some(e - from),
            None => find_char_from(s@.subrange(from as int, to as int), '=', 0) is None,
        },
{
    let ghost sub = s@.subrange(from as int, to as int);
    let mut i = from;
    while i < to
        invariant
            from <= i <= to <= n,
            n == s@.len(),
            sub == s@.subrange(from as int, to as int),
            find_char_from(sub, '=', 0) == find_char_from(sub, '=', i - from),
        decreases to - i,
    {
        if s.get_char(i) == '=' {
            assert(sub[i - from] == s@[i as int]);
            return Some(i);
        }
        assert(sub[i - from] == s@[i as int]);
        i = i + 1;
    }
    None
}

/// Shrinks the range `lo .. hi` until it carries no surrounding
/// whitespace; the remaining range holds the trimmed text.
pub(crate) fn trim_range(s: &str, lo: usize, hi: usize, n: usize) -> (r: (usize, usize))
    requires
        lo <= hi <= n,
        n == s@.len(),
    ensures
        lo <= r.0 <= r.1 <= hi,
        s@.subrange(r.0 as int, r.1 as int) == trim_spec(s@.subrange(lo as int, hi as int)),
{
    let mut a = lo;
    let mut b = hi;
    while a < b && is_space_char(s.get_char(a))
        invariant
            lo <= a <= b <= hi <= n,
            n == s@.len(),
            b == hi,
            trim_start_spec(s@.subrange(a as int, b as int)) == trim_start_spec(
                s@.subrange(lo as int, hi as int),
            ),
        decreases b - a,
    {
        proof {
            assert(s@.subrange(a as int, b as int).drop_first() =~= s@.subrange(
                a + 1,
                b as int,
            ));
        }
        a = a + 1;
    }
    assert(trim_start_spec(s@.subrange(a as int, b as int)) == s@.subrange(a as int, b as int));
    while b > a && is_space_char(s.get_char(b - 1))
        invariant
            lo <= a <= b <= hi <= n,
            n == s@.len(),
            trim_end_spec(s@.subrange(a as int, b as int)) == trim_end_spec(
                trim_start_spec(s@.subrange(lo as int, hi as int)),
            ),
        decreases b,
    {
        proof {
            assert(s@.subrange(a as int, b as int).drop_last() =~= s@.subrange(
                a as int,
                b - 1,
            ));
        }
        b = b - 1;
    }
    assert(trim_end_spec(s@.subrange(a as int, b as int)) == s@.subrange(a as int, b as int));
    (a, b)
}

} // verus!
