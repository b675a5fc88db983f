//! Shell wildcards over names.

use vstd::prelude::*;

use crate::text::{char_at_or_after, chars_of, index_from, lemma_index_from};

verus! {

/// Where the members of a set start that opens at `i`: behind the bracket and a mark that turns the
/// set round.
pub open spec fn set_start(p: Seq<char>, i: int) -> int {
    if i + 1 < p.len() && (p[i + 1] == '!' || p[i + 1] == '^') {
        i + 2
    } else {
        i + 1
    }
}

/// Where a set that opens at `i` closes. A bracket that comes first is a member.
pub open spec fn set_end(p: Seq<char>, i: int) -> Option<int> {
    if set_start(p, i) >= p.len() {
        None
    } else {
        index_from(p, ']', set_start(p, i) + 1)
    }
}

/// Whether a character is a member of the set that is written from `k` to `end`.
pub open spec fn in_set(p: Seq<char>, k: int, end: int, c: char) -> bool
    decreases end - k,
{
    if k >= end {
        false
    } else if k + 2 < end && p[k + 1] == '-' {
        (p[k] <= c && c <= p[k + 2]) || in_set(p, k + 3, end, c)
    } else {
        p[k] == c || in_set(p, k + 1, end, c)
    }
}

/// Whether the pattern from `i` on matches the text from `j` on: `*` stands for anything, `?` for
/// one character, and brackets for one of a set.
pub open spec fn wild(p: Seq<char>, t: Seq<char>, i: int, j: int) -> bool
    decreases p.len() - i, t.len() - j,
{
    if i < 0 || i >= p.len() {
        j >= t.len()
    } else if p[i] == '*' {
        wild(p, t, i + 1, j) || (j < t.len() && wild(p, t, i, j + 1))
    } else if j >= t.len() {
        false
    } else if p[i] == '?' {
        wild(p, t, i + 1, j + 1)
    } else if p[i] == '[' && set_end(p, i) is Some {
        let end = set_end(p, i)->0;
        if end <= i || end >= p.len() {
            false
        } else {
            in_set(p, set_start(p, i), end, t[j]) != (set_start(p, i) == i + 2) && wild(
                p,
                t,
                end + 1,
                j + 1,
            )
        }
    } else if p[i] == '\\' && i + 1 < p.len() {
        p[i + 1] == t[j] && wild(p, t, i + 2, j + 1)
    } else {
        p[i] == t[j] && wild(p, t, i + 1, j + 1)
    }
}

fn is_in_set(p: &[char], from: usize, end: usize, c: char) -> (r: bool)
    requires
        from <= end <= p@.len(),
    ensures
        r == in_set(p@, from as int, end as int, c),
{
    let mut k: usize = from;
    while k < end
        invariant
            from <= k <= end <= p@.len(),
            in_set(p@, from as int, end as int, c) == in_set(p@, k as int, end as int, c),
        decreases end - k,
    {
        if end - k > 2 && p[k + 1] == '-' {
            if p[k] <= c && c <= p[k + 2] {
                return true;
            }
            k += 3;
        } else {
            if p[k] == c {
                return true;
            }
            k += 1;
        }
    }
    false
}

fn wild_from(p: &[char], t: &[char], i: usize, j: usize) -> (r: bool)
    requires
        i <= p@.len(),
        j <= t@.len(),
    ensures
        r == wild(p@, t@, i as int, j as int),
    decreases p@.len() - i, t@.len() - j,
{
    if i >= p.len() {
        return j >= t.len();
    }
    if p[i] == '*' {
        return wild_from(p, t, i + 1, j) || (j < t.len() && wild_from(p, t, i, j + 1));
    }
    if j >= t.len() {
        return false;
    }
    if p[i] == '?' {
        return wild_from(p, t, i + 1, j + 1);
    }
    if p[i] == '[' {
        let turned = p.len() - i > 1 && (p[i + 1] == '!' || p[i + 1] == '^');
        let start: usize = if turned {
            i + 2
        } else {
            i + 1
        };
        if start < p.len() {
            if let Some(end) = char_at_or_after(p, ']', start + 1) {
                proof {
                    lemma_index_from(p@, ']', start + 1);
                }
                return is_in_set(p, start, end, t[j]) != turned && wild_from(
                    p,
                    t,
                    end + 1,
                    j + 1,
                );
            }
        }
    }
    if p[i] == '\\' && p.len() - i > 1 {
        return p[i + 1] == t[j] && wild_from(p, t, i + 2, j + 1);
    }
    p[i] == t[j] && wild_from(p, t, i + 1, j + 1)
}

/// Whether a pattern with wildcards matches a whole name.
pub open spec fn wildcard(pattern: Seq<char>, name: Seq<char>) -> bool {
    wild(pattern, name, 0, 0)
}

/// Whether a pattern with wildcards matches a whole name.
pub fn glob_eq(pattern: &str, name: &str) -> (r: bool)
    ensures
        r == wildcard(pattern@, name@),
{
    wild_from(chars_of(pattern).as_slice(), chars_of(name).as_slice(), 0, 0)
}

} // verus!
