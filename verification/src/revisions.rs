//! Revision expressions: which commit a name stands for.
//!
//! Supported are `HEAD`, `@`, branches and tags, full reference names, full or abbreviated commit
//! ids, earlier positions of HEAD, and the ancestry suffixes `~N` and `^N`.

use vstd::prelude::*;

use crate::numbers::{is_digit, parse_usize, read_unsigned};
use crate::order::OrdMap;
use crate::repo::{
    branch_before, commit_of, commit_tree, git_file, git_path, head_commit, head_id, head_steps, index_of,
    load_commit, load_index, previous_branch, read_head_log, read_reference, reference_of, steps_of, tree_at,
    walk_paths, walked_paths,
};
use crate::system::{base_name, basename, Machine, System};
use crate::text::{
    after_prefix, before_suffix, chars_of, copy_text, cut, cut_once, join2, lemma_texts_push, opt_text, same,
    split_once, starts, starts_with, strip_prefix, strip_suffix, texts,
};
use crate::trees::{all_hex, is_hex, Files, Tree};

verus! {

/// The first parent of a commit, taken `n` times.
pub open spec fn nth_ancestor(m: Machine, root: Seq<char>, id: Seq<char>, n: nat) -> Option<Seq<char>>
    decreases n,
{
    if n == 0 {
        Some(id)
    } else {
        match commit_of(m, root, id) {
            Some(c) => if c.parents.len() > 0 {
                nth_ancestor(m, root, c.parents[0], (n - 1) as nat)
            } else {
                None
            },
            None => None,
        }
    }
}

/// The `n`th parent of a commit, from one on; the commit itself for zero.
pub open spec fn nth_parent(m: Machine, root: Seq<char>, id: Seq<char>, n: nat) -> Option<Seq<char>> {
    if n == 0 {
        Some(id)
    } else {
        match commit_of(m, root, id) {
            Some(c) => if n <= c.parents.len() {
                Some(c.parents[n - 1])
            } else {
                None
            },
            None => None,
        }
    }
}

/// Where the run of digits from `i` on ends.
pub open spec fn digits_end(s: Seq<char>, i: int) -> int
    decreases s.len() - i,
{
    if 0 <= i < s.len() && is_digit(s[i]) {
        digits_end(s, i + 1)
    } else {
        i
    }
}

/// A run of digits ends at or after its start and within the text.
pub proof fn lemma_digits_end(s: Seq<char>, i: int)
    requires
        0 <= i <= s.len(),
    ensures
        i <= digits_end(s, i) <= s.len(),
    decreases s.len() - i,
{
    if i < s.len() && is_digit(s[i]) {
        lemma_digits_end(s, i + 1);
    }
}

/// The count that stands behind an ancestry mark; one where there is none.
pub open spec fn mark_count(digits: Seq<char>) -> Option<nat> {
    if digits.len() == 0 {
        Some(1nat)
    } else {
        read_unsigned(digits, usize::MAX as nat)
    }
}

/// The commit that the ancestry marks from `i` on lead to.
pub open spec fn marked(
    m: Machine,
    root: Seq<char>,
    id: Seq<char>,
    s: Seq<char>,
    i: int,
) -> Option<Seq<char>>
    decreases s.len() - i,
{
    if i < 0 || i >= s.len() {
        Some(id)
    } else {
        proof {
            lemma_digits_end(s, i + 1);
        }
        let end = digits_end(s, i + 1);
        match mark_count(s.subrange(i + 1, end)) {
            None => None,
            Some(n) => {
                let next = if s[i] == '~' {
                    nth_ancestor(m, root, id, n)
                } else if s[i] == '^' {
                    nth_parent(m, root, id, n)
                } else {
                    None
                };
                match next {
                    Some(c) => marked(m, root, c, s, end),
                    None => None,
                }
            },
        }
    }
}

/// Where the ancestry marks of a revision begin.
pub open spec fn marks_at(s: Seq<char>, i: int) -> int
    decreases s.len() - i,
{
    if i < 0 || i >= s.len() || s[i] == '~' || s[i] == '^' {
        i
    } else {
        marks_at(s, i + 1)
    }
}

/// How far back `HEAD@{N}` or `@{N}` goes.
pub open spec fn back_count(s: Seq<char>) -> Option<nat> {
    let rest = match after_prefix(s, "HEAD@{"@) {
        Some(r) => Some(r),
        None => after_prefix(s, "@{"@),
    };
    match rest {
        Some(r) => match before_suffix(r, "}"@) {
            Some(digits) => read_unsigned(digits, usize::MAX as nat),
            None => None,
        },
        None => None,
    }
}

/// The ids among stored commit files that start with `prefix`.
pub open spec fn ids_with(paths: Seq<Seq<char>>, prefix: Seq<char>) -> Seq<Seq<char>>
    decreases paths.len(),
{
    if paths.len() == 0 {
        seq![]
    } else {
        let head = ids_with(paths.drop_last(), prefix);
        match before_suffix(base_name(paths.last()), ".commit"@) {
            Some(id) => if starts(id, prefix) {
                head.push(id)
            } else {
                head
            },
            None => head,
        }
    }
}

/// The commit that a revision without ancestry marks stands for.
pub open spec fn base_revision(m: Machine, root: Seq<char>, s: Seq<char>) -> Option<Seq<char>> {
    if s.len() == 0 || s == "HEAD"@ || s == "@"@ {
        head_id(m, root)
    } else if back_count(s) is Some {
        let n = back_count(s)->0;
        let moves = head_steps(m, root);
        if n == 0 {
            head_id(m, root)
        } else if n <= moves.len() {
            Some(moves[moves.len() - n].0)
        } else {
            None
        }
    } else if s == "@{-1}"@ {
        match branch_before(m, root) {
            Some(b) => reference_of(m, root, "refs/heads/"@ + b),
            None => None,
        }
    } else if reference_of(m, root, "refs/heads/"@ + s) is Some {
        reference_of(m, root, "refs/heads/"@ + s)
    } else if reference_of(m, root, "refs/tags/"@ + s) is Some {
        reference_of(m, root, "refs/tags/"@ + s)
    } else if reference_of(m, root, s) is Some {
        reference_of(m, root, s)
    } else if s.len() < 4 || !all_hex(s) {
        None
    } else {
        let ids = ids_with(walked_paths(m, git_file(root, "commits"@)), s);
        if ids.len() == 1 {
            Some(ids[0])
        } else {
            None
        }
    }
}

/// The commit that a revision stands for.
pub open spec fn revision(m: Machine, root: Seq<char>, s: Seq<char>) -> Option<Seq<char>> {
    let n = marks_at(s, 0);
    match base_revision(m, root, s.subrange(0, n)) {
        Some(id) => marked(m, root, id, s, n),
        None => None,
    }
}

fn ancestor(system: &System, root: &str, id: &str, n: usize) -> (r: Option<String>)
    ensures
        opt_text(r) == nth_ancestor(system@, root@, id@, n as nat),
{
    let mut current = copy_text(id);
    let mut left: usize = n;
    while left > 0
        invariant
            nth_ancestor(system@, root@, id@, n as nat) == nth_ancestor(
                system@,
                root@,
                current@,
                left as nat,
            ),
        decreases left,
    {
        match load_commit(system, root, current.as_str()) {
            Some(c) => {
                if c.parents.len() == 0 {
                    assert(c@.parents.len() == 0);
                    return None;
                }
                assert(c@.parents[0] == c.parents@[0]@);
                current = copy_text(c.parents[0].as_str());
            },
            None => return None,
        }
        left -= 1;
    }
    Some(current)
}

fn parent_number(system: &System, root: &str, id: &str, n: usize) -> (r: Option<String>)
    ensures
        opt_text(r) == nth_parent(system@, root@, id@, n as nat),
{
    if n == 0 {
        return Some(copy_text(id));
    }
    match load_commit(system, root, id) {
        Some(c) => {
            if n <= c.parents.len() {
                assert(c@.parents[n - 1] == c.parents@[n - 1]@);
                Some(copy_text(c.parents[n - 1].as_str()))
            } else {
                assert(c@.parents.len() == c.parents@.len());
                None
            }
        },
        None => None,
    }
}

fn count_back(s: &str) -> (r: Option<usize>)
    ensures
        match r {
            Some(n) => back_count(s@) == Some(n as nat),
            None => back_count(s@) is None,
        },
{
    let rest = match strip_prefix(s, "HEAD@{") {
        Some(r) => r,
        None => match strip_prefix(s, "@{") {
            Some(r) => r,
            None => return None,
        },
    };
    match strip_suffix(rest.as_str(), "}") {
        Some(digits) => parse_usize(digits.as_str()),
        None => None,
    }
}

fn commit_ids_with(system: &System, root: &str, prefix: &str) -> (r: Vec<String>)
    ensures
        texts(r@) == ids_with(walked_paths(system@, git_file(root@, "commits"@)), prefix@),
{
    let paths = walk_paths(system, git_path(root, "commits").as_str());
    let ghost all = texts(paths@);
    let mut out: Vec<String> = Vec::new();
    let mut i: usize = 0;
    assert(texts(out@) =~= seq![]);
    while i < paths.len()
        invariant
            i <= paths.len(),
            all == texts(paths@),
            texts(out@) == ids_with(all.take(i as int), prefix@),
        decreases paths.len() - i,
    {
        broadcast use lemma_texts_push;

        assert(all.take(i + 1).drop_last() =~= all.take(i as int));
        assert(all.take(i + 1).last() == paths@[i as int]@);
        if let Some(id) = strip_suffix(basename(paths[i].as_str()).as_str(), ".commit") {
            if starts_with(id.as_str(), prefix) {
                out.push(id);
            }
        }
        i += 1;
    }
    assert(all.take(i as int) =~= all);
    out
}

fn resolve_base_revision(system: &System, root: &str, s: &str) -> (r: Option<String>)
    ensures
        opt_text(r) == base_revision(system@, root@, s@),
{
    if s.is_empty() || same(s, "HEAD") || same(s, "@") {
        return head_commit(system, root);
    }
    if let Some(n) = count_back(s) {
        if n == 0 {
            return head_commit(system, root);
        }
        let moves = read_head_log(system, root);
        let ghost all = head_steps(system@, root@);
        assert(steps_of(moves@).len() == all.len());
        if n <= moves.len() {
            assert(steps_of(moves@)[n - 1] == all.reverse()[n - 1]);
            assert(steps_of(moves@)[n - 1] == moves@[n - 1]@);
            return Some(copy_text(moves[n - 1].before.as_str()));
        }
        return None;
    }
    if same(s, "@{-1}") {
        return match previous_branch(system, root) {
            Some(b) => read_reference(system, root, join2("refs/heads/", b.as_str()).as_str()),
            None => None,
        };
    }
    if let Some(c) = read_reference(system, root, join2("refs/heads/", s).as_str()) {
        return Some(c);
    }
    if let Some(c) = read_reference(system, root, join2("refs/tags/", s).as_str()) {
        return Some(c);
    }
    if let Some(c) = read_reference(system, root, s) {
        return Some(c);
    }
    if chars_of(s).len() < 4 || !is_hex(s) {
        return None;
    }
    let ids = commit_ids_with(system, root, s);
    let ghost all = ids_with(walked_paths(system@, git_file(root@, "commits"@)), s@);
    assert(all.len() == ids@.len());
    if ids.len() == 1 {
        assert(all[0] == ids@[0]@);
        Some(copy_text(ids[0].as_str()))
    } else {
        None
    }
}

/// The commit that a revision stands for.
pub fn resolve_revision(system: &System, root: &str, s: &str) -> (r: Option<String>)
    ensures
        opt_text(r) == revision(system@, root@, s@),
{
    let cs = chars_of(s);
    let mut n: usize = 0;
    while n < cs.len() && cs[n] != '~' && cs[n] != '^'
        invariant
            n <= cs.len(),
            cs@ == s@,
            marks_at(s@, 0) == marks_at(s@, n as int),
        decreases cs.len() - n,
    {
        n += 1;
    }
    assert(marks_at(s@, 0) == n);
    let mut commit = match resolve_base_revision(system, root, cut(cs.as_slice(), 0, n).as_str()) {
        Some(c) => c,
        None => return None,
    };
    let mut i: usize = n;
    while i < cs.len()
        invariant
            i <= cs.len(),
            cs@ == s@,
            revision(system@, root@, s@) == marked(system@, root@, commit@, s@, i as int),
        decreases cs.len() - i,
    {
        let start: usize = i + 1;
        let mut end: usize = start;
        while end < cs.len() && '0' <= cs[end] && cs[end] <= '9'
            invariant
                start <= end <= cs.len(),
                cs@ == s@,
                digits_end(s@, start as int) == digits_end(s@, end as int),
            decreases cs.len() - end,
        {
            end += 1;
        }
        assert(digits_end(s@, start as int) == end);
        let digits = cut(cs.as_slice(), start, end);
        let count: usize = if start == end {
            1
        } else {
            match parse_usize(digits.as_str()) {
                Some(k) => k,
                None => return None,
            }
        };
        let next = if cs[i] == '~' {
            ancestor(system, root, commit.as_str(), count)
        } else if cs[i] == '^' {
            parent_number(system, root, commit.as_str(), count)
        } else {
            None
        };
        match next {
            Some(c) => {
                commit = c;
            },
            None => return None,
        }
        i = end;
    }
    Some(commit)
}

/// The tree and the path that `REVISION:PATH` names; an empty revision names the index.
pub open spec fn tree_path(m: Machine, root: Seq<char>, operand: Seq<char>) -> Option<
    (Files, Seq<char>),
> {
    match cut_once(operand, ':') {
        None => None,
        Some((rev, path)) => if rev.len() == 0 {
            let inner = match after_prefix(path, "0:"@) {
                Some(p) => p,
                None => path,
            };
            Some(
                (
                    match index_of(m, root) {
                        Some(t) => t,
                        None => seq![],
                    },
                    inner,
                ),
            )
        } else {
            match revision(m, root, rev) {
                None => None,
                Some(id) => match tree_at(m, root, id) {
                    Some(t) => Some((t, path)),
                    None => None,
                },
            }
        },
    }
}

/// The tree and the path that `REVISION:PATH` names.
pub fn tree_and_path(system: &System, root: &str, operand: &str) -> (r: Option<(Tree, String)>)
    ensures
        match r {
            Some((t, p)) => tree_path(system@, root@, operand@) == Some((t@, p@)),
            None => tree_path(system@, root@, operand@) is None,
        },
{
    let (rev, path) = match split_once(operand, ':') {
        Some(pair) => pair,
        None => return None,
    };
    if rev.as_str().is_empty() {
        let inner = match strip_prefix(path.as_str(), "0:") {
            Some(p) => p,
            None => path,
        };
        let tree = match load_index(system, root) {
            Some(t) => t,
            None => OrdMap::new(),
        };
        return Some((tree, inner));
    }
    let id = match resolve_revision(system, root, rev.as_str()) {
        Some(id) => id,
        None => return None,
    };
    match commit_tree(system, root, id.as_str()) {
        Some(t) => Some((t, path)),
        None => None,
    }
}

} // verus!
