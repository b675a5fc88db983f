//! What commands that name, list, move and take away things come to.

use vstd::prelude::*;
use vstd::utf8::encode_utf8;

use crate::common::covered;
use crate::compare::{changed_paths, changed_test, range_ends};
use crate::configuration::{
    effective, global_file, local_file, settings_at, settings_over, settings_overridden, value_set, value_unset,
    Overrides, MAX_CONFIG_BYTES,
};
use crate::console::Screen;
use crate::history::{ancestry, reachable, within, Listed, Names};
use crate::journals::{lemma_stashes_read_back, storable_saved};
use crate::keeping::{lemma_settings_read_back, storable_settings};
use crate::names::{either, lemma_kept_holds, lemma_kept_passes, lemma_with_keys, with_keys};
use crate::order::{
    ascending, before, bind, keys_of, lemma_lookup_at, lemma_lookup_bind, lemma_lookup_last, lemma_lookup_place,
    lemma_lookup_unbind, lookup, unbind,
};
use crate::references::{branch_created, branch_deleted, reference_deleted};
use crate::repo::{git_file, reference_of, reference_written};
use crate::revisions::revision;
use crate::revset::{all_chosen, choice_of, history_of, left_in, no_choice, revision_range, MAX_LISTED};
use crate::settings::{settings_bytes, value_in, Keys};
use crate::stashing::{entries_of, entries_text, stash_dropped};
use crate::storage::{compact, lemma_git_files_differ, lemma_reference_read_back, lemma_written};
use crate::system::{Machine, Thing};
use crate::tagging::{tag_created, TagWish};
use crate::text::{find_from, lemma_find_from, lowered, occurs_at, starts};
use crate::trees::Files;

verus! {

// ---------------------------------------------------------------------------
// Branches and tags
// ---------------------------------------------------------------------------

/// A branch that was made stands for the commit that it was made from, HEAD where none was named. Without
/// force, a branch that is there already stays as it is.
pub proof fn lemma_branch_stands_for_start(m: Machine, s: Screen, root: Seq<char>, v: Seq<Seq<char>>, force: bool)
    requires
        1 <= v.len() <= 2,
    ensures
        ({
            let d = branch_created(m, s, root, v, force);
            let name = "refs/heads/"@ + v[0];
            let start = if v.len() == 2 {
                v[1]
            } else {
                "HEAD"@
            };
            &&& d.status == 0 ==> revision(m, root, start) is Some
            &&& d.status == 0 && compact(revision(m, root, start)->0) && encode_utf8(
                revision(m, root, start)->0 + "\n"@,
            ).len() <= m.memory_limit ==> reference_of(d.m, root, name) == revision(m, root, start)
            &&& !force && reference_of(m, root, name) is Some ==> d.status != 0 && d.m == m
            &&& d.status != 0 ==> d.m == m
        }),
{
    let name = "refs/heads/"@ + v[0];
    let start = if v.len() == 2 {
        v[1]
    } else {
        "HEAD"@
    };
    if let Some(id) = revision(m, root, start) {
        lemma_written(m, git_file(root, name), encode_utf8(id + "\n"@), git_file(root, name));
        if reference_written(m, root, name, id).1 is Ok && compact(id) && encode_utf8(id + "\n"@).len()
            <= m.memory_limit {
            lemma_reference_read_back(m, root, name, id);
        }
    }
}

/// A tag that was made without a message stands for the commit that it was made from, HEAD where none
/// was named. Without force, a tag that is there already stays as it is.
pub proof fn lemma_tag_stands_for_start(
    m: Machine,
    s: Screen,
    root: Seq<char>,
    g: Overrides,
    x: TagWish,
    v: Seq<Seq<char>>,
)
    requires
        v.len() > 0,
        x.message is None,
    ensures
        ({
            let d = tag_created(m, s, root, g, x, v);
            let name = "refs/tags/"@ + v[0];
            let start = if v.len() > 1 {
                v[1]
            } else {
                "HEAD"@
            };
            &&& d.status == 0 ==> revision(m, root, start) is Some
            &&& d.status == 0 && compact(revision(m, root, start)->0) && encode_utf8(
                revision(m, root, start)->0 + "\n"@,
            ).len() <= m.memory_limit ==> reference_of(d.m, root, name) == revision(m, root, start)
            &&& !x.force && reference_of(m, root, name) is Some ==> d.status != 0 && d.m == m
            &&& d.status != 0 ==> d.m == m
        }),
{
    let name = "refs/tags/"@ + v[0];
    let start = if v.len() > 1 {
        v[1]
    } else {
        "HEAD"@
    };
    if let Some(id) = revision(m, root, start) {
        lemma_written(m, git_file(root, name), encode_utf8(id + "\n"@), git_file(root, name));
        if reference_written(m, root, name, id).1 is Ok && compact(id) && encode_utf8(id + "\n"@).len()
            <= m.memory_limit {
            lemma_reference_read_back(m, root, name, id);
        }
    }
}

proof fn lemma_reference_gone(m: Machine, root: Seq<char>, name: Seq<char>, other: Seq<char>)
    requires
        ascending(m.files),
        reference_deleted(m, root, name).1 is Ok,
    ensures
        reference_of(reference_deleted(m, root, name).0, root, name) is None,
        other != name && !(lookup(m.files, git_file(root, other)) matches Some(Thing::Symlink { .. }))
            ==> reference_of(reference_deleted(m, root, name).0, root, other) == reference_of(m, root, other),
{
    let at = git_file(root, name);
    lemma_lookup_unbind(m.files, at, at);
    if other != name {
        lemma_git_files_differ(root, name, other);
        lemma_lookup_unbind(m.files, at, git_file(root, other));
    }
}

/// A branch that was deleted is gone, and every other one stands for what it did. One that was not
/// deleted is there as before.
pub proof fn lemma_branch_gone(m: Machine, s: Screen, root: Seq<char>, name: Seq<char>, force: bool, other: Seq<char>)
    requires
        ascending(m.files),
    ensures
        ({
            let d = branch_deleted(m, s, root, name, force);
            let full = "refs/heads/"@ + name;
            &&& d.status == 0 ==> reference_of(m, root, full) is Some && reference_of(d.m, root, full) is None
            &&& d.status == 0 && other != full && !(lookup(m.files, git_file(root, other)) matches Some(
                Thing::Symlink { .. },
            )) ==> reference_of(d.m, root, other) == reference_of(m, root, other)
            &&& d.status != 0 ==> d.m == m
        }),
{
    let full = "refs/heads/"@ + name;
    if reference_deleted(m, root, full).1 is Ok {
        lemma_reference_gone(m, root, full, other);
    }
}

// ---------------------------------------------------------------------------
// What differs
// ---------------------------------------------------------------------------

/// A comparison names exactly the paths that are asked for and that one tree holds and the other does
/// not, or not the same.
pub proof fn lemma_changed_paths(before: Files, after: Files, paths: Seq<Seq<char>>, path: Seq<char>)
    ensures
        changed_paths(before, after, paths).contains(path) <==> covered(paths, path) && lookup(before, path)
            != lookup(after, path),
{
    let none: Names = seq![];
    let names = either(before, after);
    let test = changed_test(before, after, paths);
    let all = keys_of(names);
    lemma_with_keys(none, before, path);
    lemma_with_keys(with_keys(none, before), after, path);
    if changed_paths(before, after, paths).contains(path) {
        lemma_kept_passes(all, test, path);
    }
    if covered(paths, path) && lookup(before, path) != lookup(after, path) {
        if lookup(before, path) is Some {
            let i = lemma_lookup_place(before, path);
            assert(before[i].0 == path);
        } else {
            let i = lemma_lookup_place(after, path);
            assert(after[i].0 == path);
        }
        let k = lemma_lookup_place(names, path);
        assert(all[k] == path);
        lemma_kept_holds(all, test, path);
    }
}

// ---------------------------------------------------------------------------
// Ranges
// ---------------------------------------------------------------------------

proof fn lemma_first_dots(a: Seq<char>, b: Seq<char>)
    requires
        !a.contains('.'),
        !b.contains('.'),
    ensures
        range_ends(a + ".."@ + b) == Some((a, b, false)),
{
    reveal_strlit("..");
    reveal_strlit("...");
    let s = a + ".."@ + b;
    let n = a.len() as int;
    assert forall|i: int| 0 <= i < s.len() && i != n && i != n + 1 implies s[i] != '.' by {
        if i < n {
            assert(s[i] == a[i]);
            assert(a.contains(a[i]));
        } else {
            assert(s[i] == b[i - n - 2]);
            assert(b.contains(b[i - n - 2]));
        }
    }
    assert(s[n] == '.' && s[n + 1] == '.');
    assert(occurs_at(s, ".."@, n)) by {
        assert(s.subrange(n, n + 2) =~= ".."@);
    }
    lemma_find_from(s, "..."@, 0);
    if let Some(i) = find_from(s, "..."@, 0) {
        assert(s.subrange(i, i + 3)[0] == '.' && s.subrange(i, i + 3)[1] == '.' && s.subrange(i, i + 3)[2] == '.');
        assert(s[i] == '.' && s[i + 1] == '.' && s[i + 2] == '.');
    }
    lemma_find_from(s, ".."@, 0);
    match find_from(s, ".."@, 0) {
        Some(i) => {
            assert(s.subrange(i, i + 2)[0] == '.' && s.subrange(i, i + 2)[1] == '.');
            assert(s[i] == '.' && s[i + 1] == '.');
            assert(i == n);
            assert(s.subrange(0, n) =~= a);
            assert(s.subrange(n + 2, s.len() as int) =~= b);
        },
        None => {},
    }
}

proof fn lemma_left_in_only(v: Seq<Listed>, excluded: Names, x: Listed)
    ensures
        left_in(v, excluded).contains(x) <==> v.contains(x) && !within(excluded, x.0),
    decreases v.len(),
{
    let out = left_in(v, excluded);
    if v.len() > 0 {
        let less = v.drop_last();
        let a = left_in(less, excluded);
        lemma_left_in_only(less, excluded, x);
        if v.contains(x) && !within(excluded, x.0) {
            let i = choose|i: int| 0 <= i < v.len() && v[i] == x;
            if i < less.len() {
                assert(less[i] == x);
                let k = choose|k: int| 0 <= k < a.len() && a[k] == x;
                assert(out[k] == x);
            } else {
                assert(out.last() == x);
            }
        }
        if out.contains(x) {
            let k = choose|k: int| 0 <= k < out.len() && out[k] == x;
            if k < a.len() {
                assert(a[k] == x);
                let i = choose|i: int| 0 <= i < less.len() && less[i] == x;
                assert(v[i] == x);
            } else {
                assert(v[v.len() - 1] == x);
            }
        }
    }
}

/// `A..B` lists exactly what is found from `B` on and is neither `A` nor an ancestor of it. Neither name
/// holds a dot, and the first is no path and has no mark in front.
pub proof fn lemma_range_lists(m: Machine, root: Seq<char>, a: Seq<char>, b: Seq<char>, x: Listed)
    requires
        a.len() > 0,
        b.len() > 0,
        !a.contains('.'),
        !b.contains('.'),
        a[0] != '/',
        a[0] != '^',
        revision(m, root, a) is Some,
        revision(m, root, b) is Some,
    ensures
        history_of(m, root, seq![a + ".."@ + b], false) is Some,
        history_of(m, root, seq![a + ".."@ + b], false)->0.contains(x) <==> reachable(
            m,
            root,
            seq![revision(m, root, b)->0],
            MAX_LISTED as nat,
        ).contains(x) && !within(ancestry(m, root, revision(m, root, a)->0), x.0),
{
    let s = a + ".."@ + b;
    let v = seq![s];
    reveal_strlit(".");
    reveal_strlit("/");
    reveal_strlit("^");
    assert(s[0] == a[0]);
    assert(a.contains(a[0]));
    if starts(s, "."@) {
        assert(s.subrange(0, 1)[0] == '.');
    }
    if starts(s, "/"@) {
        assert(s.subrange(0, 1)[0] == '/');
    }
    if starts(s, "^"@) {
        assert(s.subrange(0, 1)[0] == '^');
    }
    lemma_first_dots(a, b);
    assert(revision_range(s) == Some((a, b, false)));
    let c = choice_of(m, root, s)->0;
    let none: Names = seq![];
    assert(no_choice().included + c.included =~= seq![revision(m, root, b)->0]);
    reveal_with_fuel(all_chosen, 2);
    let got = all_chosen(m, root, v, 0, no_choice())->0;
    assert(v[0] == s);
    assert(got.included == seq![revision(m, root, b)->0]);
    let gone = ancestry(m, root, revision(m, root, a)->0);
    assert(got.excluded == with_keys(none, gone));
    lemma_with_keys(none, gone, x.0);
    if within(gone, x.0) {
        let i = lemma_lookup_place(gone, x.0);
        assert(gone[i].0 == x.0);
    }
    if !within(gone, x.0) {
        assert(forall|i: int| 0 <= i < gone.len() ==> (#[trigger] gone[i]).0 != x.0) by {
            assert forall|i: int| 0 <= i < gone.len() implies (#[trigger] gone[i]).0 != x.0 by {
                if gone[i].0 == x.0 {
                    lemma_found(gone, i);
                }
            }
        }
    }
    lemma_left_in_only(
        reachable(m, root, seq![revision(m, root, b)->0], MAX_LISTED as nat),
        got.excluded,
        x,
    );
}

/// A key that stands in a list is found there.
proof fn lemma_found<T>(t: Seq<(Seq<char>, T)>, i: int)
    requires
        0 <= i < t.len(),
    ensures
        lookup(t, t[i].0) is Some,
    decreases t.len(),
{
    if t[0].0 != t[i].0 {
        let rest = t.subrange(1, t.len() as int);
        assert(rest[i - 1] == t[i]);
        lemma_found(rest, i - 1);
    }
}

// ---------------------------------------------------------------------------
// Settings
// ---------------------------------------------------------------------------

/// A value that was set is the one that is read afterwards, and every other key has the values that it
/// had. A value that was added comes after those that were there.
pub proof fn lemma_setting_set(
    m: Machine,
    s: Screen,
    file: Seq<char>,
    stored: Keys,
    name: Seq<char>,
    value: Seq<char>,
    adding: bool,
    other: Seq<char>,
)
    requires
        value_set(m, s, file, stored, name, value, adding).status == 0,
        ({
            let c = if adding && lookup(stored, lowered(name)) is Some {
                bind(stored, lowered(name), lookup(stored, lowered(name))->0.push(value))
            } else {
                bind(stored, lowered(name), seq![value])
            };
            &&& storable_settings(c)
            &&& settings_bytes(c).len() <= MAX_CONFIG_BYTES
            &&& settings_bytes(c).len() <= m.memory_limit
        }),
    ensures
        ({
            let after = settings_at(value_set(m, s, file, stored, name, value, adding).m, file);
            &&& value_in(after, lowered(name)) == Some(value)
            &&& !adding ==> lookup(after, lowered(name)) == Some(seq![value])
            &&& adding && lookup(stored, lowered(name)) is Some ==> lookup(after, lowered(name)) == Some(
                lookup(stored, lowered(name))->0.push(value),
            )
            &&& other != lowered(name) ==> lookup(after, other) == lookup(stored, other)
        }),
{
    let key = lowered(name);
    let values = if adding && lookup(stored, key) is Some {
        lookup(stored, key)->0.push(value)
    } else {
        seq![value]
    };
    let c = bind(stored, key, values);
    lemma_written(m, file, settings_bytes(c), file);
    lemma_settings_read_back(c);
    lemma_lookup_bind(stored, key, values, key);
    lemma_lookup_bind(stored, key, values, other);
}

/// A key that was taken out of the settings is not there any more, and every other key has the values
/// that it had.
pub proof fn lemma_setting_unset(
    m: Machine,
    s: Screen,
    file: Seq<char>,
    stored: Keys,
    name: Seq<char>,
    other: Seq<char>,
)
    requires
        value_unset(m, s, file, stored, name).status == 0,
        ascending(stored),
        storable_settings(unbind(stored, lowered(name))),
        settings_bytes(unbind(stored, lowered(name))).len() <= MAX_CONFIG_BYTES,
        settings_bytes(unbind(stored, lowered(name))).len() <= m.memory_limit,
    ensures
        ({
            let after = settings_at(value_unset(m, s, file, stored, name).m, file);
            &&& lookup(stored, lowered(name)) is Some
            &&& lookup(after, lowered(name)) is None
            &&& other != lowered(name) ==> lookup(after, other) == lookup(stored, other)
        }),
{
    let c = unbind(stored, lowered(name));
    lemma_written(m, file, settings_bytes(c), file);
    lemma_settings_read_back(c);
    lemma_lookup_unbind(stored, lowered(name), lowered(name));
    lemma_lookup_unbind(stored, lowered(name), other);
}

proof fn lemma_settings_over(c: Keys, over: Keys, key: Seq<char>)
    requires
        ascending(over),
    ensures
        lookup(settings_over(c, over), key) == (match lookup(over, key) {
            Some(values) => Some(values),
            None => lookup(c, key),
        }),
    decreases over.len(),
{
    if over.len() > 0 {
        let less = over.drop_last();
        assert forall|a: int, b: int| 0 <= a < b < less.len() implies before(
            #[trigger] less[a].0,
            #[trigger] less[b].0,
        ) by {
            assert(less[a] == over[a] && less[b] == over[b]);
        }
        lemma_settings_over(c, less, key);
        lemma_lookup_bind(settings_over(c, less), over.last().0, over.last().1, key);
        if key == over.last().0 {
            lemma_lookup_at(over, over.len() - 1);
        } else {
            lemma_lookup_last(over, key);
        }
    } else {
        assert(lookup(over, key) is None);
    }
}

/// Which setting holds: one that the repository has comes before one of the user.
pub proof fn lemma_repository_before_user(m: Machine, root: Seq<char>, key: Seq<char>)
    requires
        ascending(settings_at(m, local_file(root))),
    ensures
        lookup(effective(m, root, seq![]), key) == (match lookup(settings_at(m, local_file(root)), key) {
            Some(values) => Some(values),
            None => lookup(settings_at(m, global_file(m)), key),
        }),
{
    lemma_settings_over(settings_at(m, global_file(m)), settings_at(m, local_file(root)), key);
}

/// A setting that is given on the command line comes before all others, and the last of several of them
/// counts; it changes no other.
pub proof fn lemma_command_line_first(m: Machine, root: Seq<char>, g: Overrides, name: Seq<char>, value: Seq<char>, key: Seq<char>)
    ensures
        value_in(effective(m, root, g.push((name, value))), name) == Some(value),
        key != name ==> lookup(effective(m, root, g.push((name, value))), key) == lookup(effective(m, root, g), key),
{
    let c = settings_over(settings_at(m, global_file(m)), settings_at(m, local_file(root)));
    assert(g.push((name, value)).drop_last() =~= g);
    lemma_lookup_bind(settings_overridden(c, g), name, seq![value], name);
    lemma_lookup_bind(settings_overridden(c, g), name, seq![value], key);
}

// ---------------------------------------------------------------------------
// Stashes
// ---------------------------------------------------------------------------

/// A stash that was dropped is out of the list; those before it keep their places, and those behind it
/// move up by one.
pub proof fn lemma_stash_dropped(m: Machine, s: Screen, root: Seq<char>, position: nat)
    requires
        forall|i: int|
            0 <= i < entries_of(m, root).len() ==> storable_saved(#[trigger] entries_of(m, root)[i]),
    ensures
        ({
            let v = entries_of(m, root);
            let d = stash_dropped(m, s, root, position);
            let w = entries_of(d.m, root);
            &&& d.status == 0 ==> position < v.len() && w.len() == v.len() - 1
            &&& d.status == 0 ==> forall|i: int| 0 <= i < position ==> #[trigger] w[i] == v[i]
            &&& d.status == 0 ==> forall|i: int| position <= i < w.len() ==> #[trigger] w[i] == v[i + 1]
            &&& d.status != 0 ==> w == v
        }),
{
    let v = entries_of(m, root);
    let d = stash_dropped(m, s, root, position);
    if position < v.len() {
        let rest = v.remove(position as int);
        lemma_written(
            m,
            git_file(root, "stash-list"@),
            encode_utf8(entries_text(rest)),
            git_file(root, "stash-list"@),
        );
        if d.status == 0 {
            assert forall|i: int| 0 <= i < rest.len() implies storable_saved(#[trigger] rest[i]) by {
                if i < position {
                    assert(rest[i] == v[i]);
                } else {
                    assert(rest[i] == v[i + 1]);
                }
            }
            lemma_stashes_read_back(m, root, rest);
        }
    }
}

} // verus!
