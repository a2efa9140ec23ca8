//! Small verified text helpers: character-level string equality, whitespace
//! trimming, and comment-line removal for interactive commit messages.

use vstd::prelude::*;

verus! {

/// Character-level string equality.
pub fn str_eq(a: &str, b: &str) -> (r: bool)
    ensures
        r == (a@ == b@),
{
    let n = a.unicode_len();
    let m = b.unicode_len();
    if n != m {
        proof {
            assert(a@ != b@) by {
                assert(a@.len() != b@.len());
            }
        }
        return false;
    }
    let mut i: usize = 0;
    while i < n
        invariant
            n as nat == a@.len(),
            n as nat == b@.len(),
            i <= n,
            forall|k: int| 0 <= k < i as int ==> a@[k] == b@[k],
        decreases n - i,
    {
        if a.get_char(i) != b.get_char(i) {
            return false;
        }
        i = i + 1;
    }
    proof {
        assert(a@ =~= b@);
    }
    true
}

pub open spec fn is_space(c: char) -> bool {
    c == ' ' || c == '\t' || c == '\r' || c == '\n'
}

fn exec_is_space(c: char) -> (r: bool)
    ensures
        r == is_space(c),
{
    c == ' ' || c == '\t' || c == '\r' || c == '\n'
}

/// The string with leading whitespace removed.
pub open spec fn spec_trim_start(s: Seq<char>) -> Seq<char>
    decreases s.len(),
{
    if s.len() > 0 && is_space(s.first()) {
        spec_trim_start(s.drop_first())
    } else {
        s
    }
}

/// The string with trailing whitespace removed.
pub open spec fn spec_trim_end(s: Seq<char>) -> Seq<char>
    decreases s.len(),
{
    if s.len() > 0 && is_space(s.last()) {
        spec_trim_end(s.drop_last())
    } else {
        s
    }
}

/// The string with whitespace removed from both ends.
pub open spec fn spec_trim(s: Seq<char>) -> Seq<char> {
    spec_trim_end(spec_trim_start(s))
}

/// Removes leading and trailing whitespace (spaces, tabs, carriage returns
/// and newlines).
pub fn trim(s: &str) -> (r: String)
    ensures
        r@ == spec_trim(s@),
{
    let n = s.unicode_len();
    let mut from: usize = 0;
    proof {
        assert(s@.subrange(0, n as int) =~= s@);
    }
    while from < n && exec_is_space(s.get_char(from))
        invariant
            n as nat == s@.len(),
            from <= n,
            spec_trim_start(s@) == spec_trim_start(s@.subrange(from as int, n as int)),
        decreases n - from,
    {
        proof {
            let cur = s@.subrange(from as int, n as int);
            assert(cur.first() == s@[from as int]);
            assert(cur.drop_first() =~= s@.subrange(from as int + 1, n as int));
        }
        from = from + 1;
    }
    proof {
        let cur = s@.subrange(from as int, n as int);
        if cur.len() > 0 {
            assert(cur.first() == s@[from as int]);
        }
        assert(spec_trim_start(cur) == cur);
    }
    let mut to: usize = n;
    while to > from && exec_is_space(s.get_char(to - 1))
        invariant
            n as nat == s@.len(),
            from <= to <= n,
            spec_trim_start(s@) == s@.subrange(from as int, n as int),
            spec_trim_end(s@.subrange(from as int, n as int)) == spec_trim_end(
                s@.subrange(from as int, to as int),
            ),
        decreases to,
    {
        proof {
            let cur = s@.subrange(from as int, to as int);
            assert(cur.last() == s@[to as int - 1]);
            assert(cur.drop_last() =~= s@.subrange(from as int, to as int - 1));
        }
        to = to - 1;
    }
    proof {
        let cur = s@.subrange(from as int, to as int);
        if cur.len() > 0 {
            assert(cur.last() == s@[to as int - 1]);
        }
        assert(spec_trim_end(cur) == cur);
    }
    let r = s.substring_char(from, to);
    r.to_owned()
}

/// The first position at or after `i` that holds a newline, or the end.
pub open spec fn line_end(s: Seq<char>, i: int) -> int
    decreases s.len() - i,
    when 0 <= i <= s.len()
{
    if i < s.len() && s[i] != '\n' {
        line_end(s, i + 1)
    } else {
        i
    }
}

pub proof fn lemma_line_end_bounds(s: Seq<char>, i: int)
    requires
        0 <= i <= s.len(),
    ensures
        i <= line_end(s, i) <= s.len(),
        line_end(s, i) == s.len() || s[line_end(s, i)] == '\n',
    decreases s.len() - i,
{
    if i < s.len() && s[i] != '\n' {
        lemma_line_end_bounds(s, i + 1);
    }
}

/// The text with comment lines (lines whose first character is `#`) removed,
/// starting from position `i`, a line start.
pub open spec fn spec_keep_lines(s: Seq<char>, i: int) -> Seq<char>
    decreases s.len() - i,
    when 0 <= i <= s.len()
    via spec_keep_lines_decreases
{
    if i >= s.len() {
        Seq::<char>::empty()
    } else {
        let e = line_end(s, i);
        let stop = if e < s.len() {
            e + 1
        } else {
            e
        };
        if s[i] == '#' {
            spec_keep_lines(s, stop)
        } else {
            s.subrange(i, stop) + spec_keep_lines(s, stop)
        }
    }
}

#[via_fn]
proof fn spec_keep_lines_decreases(s: Seq<char>, i: int) {
    if i < s.len() {
        lemma_line_end_bounds(s, i);
    }
}

/// Removes every line that starts with `#`; other lines are kept verbatim,
/// with their line breaks.
pub fn strip_comment_lines(s: &str) -> (r: String)
    ensures
        r@ == spec_keep_lines(s@, 0),
{
    let n = s.unicode_len();
    let mut acc = String::new();
    let mut i: usize = 0;
    proof {
        assert(acc@ + spec_keep_lines(s@, 0) =~= spec_keep_lines(s@, 0));
    }
    while i < n
        invariant
            n as nat == s@.len(),
            i <= n,
            acc@ + spec_keep_lines(s@, i as int) == spec_keep_lines(s@, 0),
        decreases n - i,
    {
        proof {
            lemma_line_end_bounds(s@, i as int);
        }
        let ghost e_spec = line_end(s@, i as int);
        let mut e: usize = i;
        while e < n && s.get_char(e) != '\n'
            invariant
                n as nat == s@.len(),
                i <= e <= n,
                line_end(s@, e as int) == e_spec,
                e_spec == line_end(s@, i as int),
            decreases n - e,
        {
            e = e + 1;
        }
        proof {
            assert(e as int == e_spec);
        }
        let stop = if e < n {
            e + 1
        } else {
            e
        };
        if s.get_char(i) != '#' {
            let piece = s.substring_char(i, stop);
            acc.append(piece);
            proof {
                assert(acc@ + spec_keep_lines(s@, stop as int) =~= spec_keep_lines(s@, 0));
            }
        } else {
            proof {
                assert(spec_keep_lines(s@, i as int) == spec_keep_lines(s@, stop as int));
            }
        }
        i = stop;
    }
    proof {
        assert(spec_keep_lines(s@, i as int) =~= Seq::<char>::empty());
        assert(acc@ =~= spec_keep_lines(s@, 0));
    }
    acc
}

} // verus!
