//! Which commits a list of revisions selects.

use vstd::prelude::*;

use crate::compare::{ends_of, range_ends, split_range};
use crate::history::{
    ancestors, ancestry, first_parent_history, first_parents, lemma_listed_push, listed, merge_base, reachable,
    reachable_history, shared_base, within, Listed, Names,
};
use crate::names::{add_keys, with_keys};
use crate::numbers::{all_digits, parse_usize, read_unsigned};
use crate::order::OrdMap;
use crate::progress::opt_nat;
use crate::records::Commit;
use crate::repo::{branch_names, branches, read_reference, ref_names, reference_names, reference_of};
use crate::revisions::{resolve_revision, revision};
use crate::system::{Machine, System};
use crate::text::{
    after_prefix, chars_of, copy_text, join2, lemma_texts_push, starts, starts_with, strip_prefix, texts,
};

verus! {

/// The most commits that are listed.
pub const MAX_LISTED: usize = 10_000;

/// The ends of a range. What starts as a path is never a range.
pub open spec fn revision_range(s: Seq<char>) -> Option<(Seq<char>, Seq<char>, bool)> {
    if starts(s, "."@) || starts(s, "/"@) {
        None
    } else {
        range_ends(s)
    }
}

/// Splits `a..b` or `a...b` at its ends.
pub fn split_revisions(s: &str) -> (r: Option<(String, String, bool)>)
    ensures
        ends_of(r) == revision_range(s@),
{
    if starts_with(s, ".") || starts_with(s, "/") {
        return None;
    }
    split_range(s)
}

/// The commits that a revision takes in, and those that it leaves out.
pub struct Selection {
    pub included: Vec<String>,
    pub excluded: OrdMap<()>,
}

/// The commits that a revision takes in, and those that it leaves out.
#[verifier::ext_equal]
pub struct Choice {
    pub included: Seq<Seq<char>>,
    pub excluded: Names,
}

impl View for Selection {
    type V = Choice;

    open spec fn view(&self) -> Choice {
        Choice { included: texts(self.included@), excluded: self.excluded@ }
    }
}

/// The end of a range, which is HEAD where nothing is written.
pub open spec fn or_head(s: Seq<char>) -> Seq<char> {
    if s.len() == 0 {
        "HEAD"@
    } else {
        s
    }
}

/// What one revision selects: a name, `^name`, or a range.
pub open spec fn choice_of(m: Machine, root: Seq<char>, s: Seq<char>) -> Option<Choice> {
    match after_prefix(s, "^"@) {
        Some(name) => match revision(m, root, name) {
            Some(id) => Some(Choice { included: seq![], excluded: ancestry(m, root, id) }),
            None => None,
        },
        None => match revision_range(s) {
            None => match revision(m, root, s) {
                Some(id) => Some(Choice { included: seq![id], excluded: seq![] }),
                None => None,
            },
            Some((left, right, apart)) => match (
                revision(m, root, or_head(left)),
                revision(m, root, or_head(right)),
            ) {
                (Some(a), Some(b)) => if apart {
                    match shared_base(m, root, a, b) {
                        Some(base) => Some(
                            Choice { included: seq![b], excluded: ancestry(m, root, base) },
                        ),
                        None => None,
                    }
                } else {
                    Some(Choice { included: seq![b], excluded: ancestry(m, root, a) })
                },
                _ => None,
            },
        },
    }
}

/// What an optional selection selects.
pub open spec fn opt_choice(o: Option<Selection>) -> Option<Choice> {
    match o {
        Some(x) => Some(x@),
        None => None,
    }
}

fn one_text(s: String) -> (r: Vec<String>)
    ensures
        texts(r@) == seq![s@],
{
    let mut v: Vec<String> = Vec::new();
    v.push(s);
    assert(texts(v@) =~= seq![s@]);
    v
}

fn end_or_head(s: &str) -> (r: &str)
    ensures
        r@ == or_head(s@),
{
    if s.is_empty() {
        "HEAD"
    } else {
        s
    }
}

/// What one revision selects.
pub fn select_revision(system: &System, root: &str, s: &str) -> (r: Option<Selection>)
    ensures
        opt_choice(r) == choice_of(system@, root@, s@),
{
    let nothing: Vec<String> = Vec::new();
    assert(texts(nothing@) =~= seq![]);
    if let Some(name) = strip_prefix(s, "^") {
        return match resolve_revision(system, root, name.as_str()) {
            Some(id) => Some(
                Selection { included: nothing, excluded: ancestors(system, root, id.as_str()) },
            ),
            None => None,
        };
    }
    match split_revisions(s) {
        None => match resolve_revision(system, root, s) {
            Some(id) => {
                let none: OrdMap<()> = OrdMap::new();
                assert(none@ =~= seq![]);
                Some(Selection { included: one_text(id), excluded: none })
            },
            None => None,
        },
        Some((left, right, apart)) => {
            let a = resolve_revision(system, root, end_or_head(left.as_str()));
            let b = resolve_revision(system, root, end_or_head(right.as_str()));
            match (a, b) {
                (Some(a), Some(b)) => {
                    let excluded = if apart {
                        match merge_base(system, root, a.as_str(), b.as_str()) {
                            Some(base) => ancestors(system, root, base.as_str()),
                            None => return None,
                        }
                    } else {
                        ancestors(system, root, a.as_str())
                    };
                    Some(Selection { included: one_text(b), excluded })
                },
                _ => None,
            }
        },
    }
}

/// What the revisions from `i` on select, with what those before selected.
pub open spec fn all_chosen(m: Machine, root: Seq<char>, v: Seq<Seq<char>>, i: int, c: Choice) -> Option<
    Choice,
>
    decreases v.len() - i,
{
    if i < 0 || i >= v.len() {
        Some(c)
    } else {
        match choice_of(m, root, v[i]) {
            None => None,
            Some(x) => all_chosen(
                m,
                root,
                v,
                i + 1,
                Choice {
                    included: c.included + x.included,
                    excluded: with_keys(c.excluded, x.excluded),
                },
            ),
        }
    }
}

/// Nothing selected.
pub open spec fn no_choice() -> Choice {
    Choice { included: seq![], excluded: seq![] }
}

fn select_all(system: &System, root: &str, v: &[String]) -> (r: Option<Selection>)
    ensures
        opt_choice(r) == all_chosen(system@, root@, texts(v@), 0, no_choice()),
{
    let ghost all = texts(v@);
    let mut c = Selection { included: Vec::new(), excluded: OrdMap::new() };
    assert(c@ =~= no_choice());
    let ghost goal = all_chosen(system@, root@, all, 0, no_choice());
    let mut i: usize = 0;
    while i < v.len()
        invariant
            i <= v@.len(),
            all == texts(v@),
            goal == all_chosen(system@, root@, all, 0, no_choice()),
            goal == all_chosen(system@, root@, all, i as int, c@),
        decreases v@.len() - i,
    {
        assert(all[i as int] == v@[i as int]@);
        match select_revision(system, root, v[i].as_str()) {
            None => return None,
            Some(x) => {
                let ghost before = c@;
                let mut more = x.included;
                let mut included = c.included;
                included.append(&mut more);
                assert(texts(included@) =~= before.included + x@.included);
                let mut excluded = c.excluded;
                add_keys(&mut excluded, &x.excluded);
                c = Selection { included, excluded };
            },
        }
        i += 1;
    }
    Some(c)
}

/// The commits that are not left out.
pub open spec fn left_in(v: Seq<Listed>, excluded: Names) -> Seq<Listed>
    decreases v.len(),
{
    if v.len() == 0 {
        seq![]
    } else if within(excluded, v.last().0) {
        left_in(v.drop_last(), excluded)
    } else {
        left_in(v.drop_last(), excluded).push(v.last())
    }
}

/// What a selection leaves out is never listed, and nothing else is lost.
pub proof fn lemma_left_out(v: Seq<Listed>, excluded: Names)
    ensures
        forall|i: int|
            0 <= i < left_in(v, excluded).len() ==> !within(
                excluded,
                (#[trigger] left_in(v, excluded)[i]).0,
            ),
        forall|i: int|
            0 <= i < v.len() && !within(excluded, (#[trigger] v[i]).0) ==> left_in(
                v,
                excluded,
            ).contains(v[i]),
    decreases v.len(),
{
    if v.len() > 0 {
        let head = v.drop_last();
        lemma_left_out(head, excluded);
        let less = left_in(head, excluded);
        let all = left_in(v, excluded);
        assert forall|i: int| 0 <= i < v.len() && !within(excluded, (#[trigger] v[i]).0) implies all.contains(
            v[i],
        ) by {
            if i < v.len() - 1 {
                assert(head[i] == v[i]);
                assert(less.contains(head[i]));
                let k = choose|k: int| 0 <= k < less.len() && less[k] == v[i];
                assert(all[k] == v[i]);
            } else {
                assert(all[all.len() - 1] == v[i]);
            }
        }
    }
}

/// The commits that a selection lists.
pub open spec fn choice_listed(m: Machine, root: Seq<char>, c: Choice, first_parent: bool) -> Seq<
    Listed,
> {
    let v = if first_parent {
        if c.included.len() > 0 {
            first_parents(m, root, Some(c.included[0]), MAX_LISTED as nat, seq![])
        } else {
            seq![]
        }
    } else {
        reachable(m, root, c.included, MAX_LISTED as nat)
    };
    left_in(v, c.excluded)
}

/// The commits that revisions list, the newest first; nothing where one of them is not known.
pub open spec fn history_of(
    m: Machine,
    root: Seq<char>,
    revisions: Seq<Seq<char>>,
    first_parent: bool,
) -> Option<Seq<Listed>> {
    match all_chosen(m, root, revisions, 0, no_choice()) {
        None => None,
        Some(c) => Some(choice_listed(m, root, c, first_parent)),
    }
}

/// What an optional list of commits holds.
pub open spec fn opt_listed(o: Option<Vec<(String, Commit)>>) -> Option<Seq<Listed>> {
    match o {
        Some(v) => Some(listed(v@)),
        None => None,
    }
}

fn leave_in(v: Vec<(String, Commit)>, excluded: &OrdMap<()>) -> (r: Vec<(String, Commit)>)
    ensures
        listed(r@) == left_in(listed(v@), excluded@),
{
    let ghost all = listed(v@);
    let n: usize = v.len();
    let mut rest = v;
    let mut turned: Vec<(String, Commit)> = Vec::new();
    let mut out: Vec<(String, Commit)> = Vec::new();
    while rest.len() > 0
        invariant
            rest@.len() + turned@.len() == all.len(),
            listed(rest@) =~= all.take(rest@.len() as int),
            forall|k: int|
                0 <= k < turned@.len() ==> listed(turned@)[k] == #[trigger] all[all.len() - 1 - k],
        decreases rest@.len(),
    {
        broadcast use lemma_listed_push;

        let ghost before = rest@;
        let ghost was = turned@;
        match rest.pop() {
            Some(e) => {
                assert(before.drop_last() =~= rest@);
                assert(listed(before)[before.len() - 1] == all[before.len() - 1]);
                turned.push(e);
                assert forall|k: int| 0 <= k < turned@.len() implies listed(turned@)[k]
                    == #[trigger] all[all.len() - 1 - k] by {
                    if k < was.len() {
                        assert(listed(was)[k] == all[all.len() - 1 - k]);
                    }
                }
            },
            None => {},
        }
    }
    assert(listed(out@) =~= seq![]);
    let mut i: usize = 0;
    while turned.len() > 0
        invariant
            i + turned@.len() == all.len(),
            all.len() == n,
            forall|k: int|
                0 <= k < turned@.len() ==> listed(turned@)[k] == #[trigger] all[all.len() - 1 - k],
            listed(out@) == left_in(all.take(i as int), excluded@),
        decreases turned@.len(),
    {
        broadcast use lemma_listed_push;

        let ghost before = turned@;
        match turned.pop() {
            Some(e) => {
                let ghost at = before.len() - 1;
                assert(listed(before)[at] == all[all.len() - 1 - at]);
                assert(all.take(i + 1).drop_last() =~= all.take(i as int));
                assert(all.take(i + 1).last() == all[i as int]);
                assert(turned@ =~= before.drop_last());
                assert forall|k: int| 0 <= k < turned@.len() implies listed(turned@)[k]
                    == #[trigger] all[all.len() - 1 - k] by {
                    assert(listed(before)[k] == all[all.len() - 1 - k]);
                }
                if !excluded.contains_key(e.0.as_str()) {
                    out.push(e);
                }
                i += 1;
            },
            None => {},
        }
    }
    assert(all.take(i as int) =~= all);
    out
}

/// The commits that revisions list, the newest first.
pub fn history_for(system: &System, root: &str, revisions: &[String], first_parent: bool) -> (r:
    Option<Vec<(String, Commit)>>)
    ensures
        opt_listed(r) == history_of(system@, root@, texts(revisions@), first_parent),
{
    match select_all(system, root, revisions) {
        None => None,
        Some(c) => {
            let ghost g = c@;
            assert(g.included.len() == c.included@.len());
            let v = if first_parent {
                if c.included.len() > 0 {
                    assert(g.included[0] == c.included@[0]@);
                    first_parent_history(system, root, c.included[0].as_str(), MAX_LISTED)
                } else {
                    let none: Vec<(String, Commit)> = Vec::new();
                    assert(listed(none@) =~= seq![]);
                    none
                }
            } else {
                reachable_history(system, root, c.included.as_slice(), MAX_LISTED)
            };
            Some(leave_in(v, &c.excluded))
        },
    }
}

/// What the references of one directory point at.
pub open spec fn pointed_at(m: Machine, root: Seq<char>, dir: Seq<char>, names: Seq<Seq<char>>) -> Seq<
    Seq<char>,
>
    decreases names.len(),
{
    if names.len() == 0 {
        seq![]
    } else {
        let v = pointed_at(m, root, dir, names.drop_last());
        match reference_of(m, root, dir + names.last()) {
            Some(id) => v.push(id),
            None => v,
        }
    }
}

fn list_pointed_at(system: &System, root: &str, dir: &str, names: &[String]) -> (r: Vec<String>)
    ensures
        texts(r@) == pointed_at(system@, root@, dir@, texts(names@)),
{
    let ghost all = texts(names@);
    let mut v: Vec<String> = Vec::new();
    let mut i: usize = 0;
    assert(texts(v@) =~= seq![]);
    while i < names.len()
        invariant
            i <= names@.len(),
            all == texts(names@),
            texts(v@) == pointed_at(system@, root@, dir@, all.take(i as int)),
        decreases names@.len() - i,
    {
        broadcast use lemma_texts_push;

        assert(all.take(i + 1).drop_last() =~= all.take(i as int));
        assert(all.take(i + 1).last() == names@[i as int]@);
        if let Some(id) = read_reference(system, root, join2(dir, names[i].as_str()).as_str()) {
            v.push(id);
        }
        i += 1;
    }
    assert(all.take(i as int) =~= all);
    v
}

/// What every branch and every tag points at.
pub open spec fn all_tips(m: Machine, root: Seq<char>) -> Seq<Seq<char>> {
    pointed_at(m, root, "refs/heads/"@, branches(m, root)) + pointed_at(
        m,
        root,
        "refs/tags/"@,
        ref_names(m, root, "tags"@),
    )
}

/// What every branch and every tag points at.
pub fn all_reference_tips(system: &System, root: &str) -> (r: Vec<String>)
    ensures
        texts(r@) == all_tips(system@, root@),
{
    let mut v = list_pointed_at(system, root, "refs/heads/", branch_names(system, root).as_slice());
    let mut more = list_pointed_at(
        system,
        root,
        "refs/tags/",
        reference_names(system, root, "tags").as_slice(),
    );
    let ghost a = v@;
    let ghost b = more@;
    v.append(&mut more);
    assert(texts(v@) =~= texts(a) + texts(b));
    v
}

/// The revisions that a list is made from: those that are named and, where that is asked for, every
/// tip; HEAD where there are none.
pub open spec fn starting_points(
    m: Machine,
    root: Seq<char>,
    named: Seq<Seq<char>>,
    all_references: bool,
) -> Seq<Seq<char>> {
    let v = if all_references {
        named + all_tips(m, root)
    } else {
        named
    };
    if v.len() == 0 {
        seq!["HEAD"@]
    } else {
        v
    }
}

/// The revisions that a list is made from.
pub fn list_starting_points(system: &System, root: &str, named: &[String], all_references: bool) -> (r:
    Vec<String>)
    ensures
        texts(r@) == starting_points(system@, root@, texts(named@), all_references),
{
    let mut v = crate::text::copy_texts(named);
    if all_references {
        let mut more = all_reference_tips(system, root);
        let ghost a = v@;
        let ghost b = more@;
        v.append(&mut more);
        assert(texts(v@) =~= texts(a) + texts(b));
    }
    assert(texts(v@).len() == v@.len());
    if v.len() == 0 {
        one_text(copy_text("HEAD"))
    } else {
        v
    }
}

/// The count that an option of digits alone stands for.
pub open spec fn count_named(name: Seq<char>) -> Option<nat> {
    match after_prefix(name, "-"@) {
        Some(digits) => if digits.len() > 0 && all_digits(digits) {
            read_unsigned(digits, usize::MAX as nat)
        } else {
            None
        },
        None => None,
    }
}

/// The count that an option of digits alone stands for.
pub fn count_option(name: &str) -> (r: Option<usize>)
    ensures
        opt_nat(r) == count_named(name@),
{
    match strip_prefix(name, "-") {
        None => None,
        Some(digits) => {
            let cs = chars_of(digits.as_str());
            if cs.len() == 0 {
                return None;
            }
            let mut i: usize = 0;
            while i < cs.len()
                invariant
                    i <= cs@.len(),
                    cs@ == digits@,
                    after_prefix(name@, "-"@) == Some(digits@),
                    forall|k: int| 0 <= k < i ==> crate::numbers::is_digit(#[trigger] cs@[k]),
                decreases cs@.len() - i,
            {
                if !('0' <= cs[i] && cs[i] <= '9') {
                    assert(!crate::numbers::is_digit(digits@[i as int]));
                    return None;
                }
                i += 1;
            }
            parse_usize(digits.as_str())
        },
    }
}

} // verus!
