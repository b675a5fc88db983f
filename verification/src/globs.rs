//! What patterns match: plain characters themselves, a question mark any one character, a star any run.
//! In ignore patterns neither matches a separator, and a double star matches any run at all.

use vstd::prelude::*;

use crate::ignore::{
    after_double_star, below_some_directory, decided, glob, glob_any, ignored_from, ignores, only_stars, rule_matches,
    rule_of, Rule,
};
use crate::text::{after_prefix, before_suffix, ends, find_from, holds, is_space, lemma_find_from, occurs_at, starts, trimmed_end};
use crate::wildcards::wild;

verus! {

/// Whether a text holds none of the characters that patterns read as something else.
pub open spec fn literal(p: Seq<char>) -> bool {
    forall|i: int|
        0 <= i < p.len() ==> (#[trigger] p[i]) != '*' && p[i] != '?' && p[i] != '[' && p[i] != '\\'
}

/// Whether a text holds no separator.
pub open spec fn one_name(s: Seq<char>) -> bool {
    forall|i: int| 0 <= i < s.len() ==> (#[trigger] s[i]) != '/'
}

// ---------------------------------------------------------------------------
// Ignore patterns
// ---------------------------------------------------------------------------

/// The literal characters before position `k` of a pattern match themselves, and the rest goes on.
proof fn lemma_glob_literal(p: Seq<char>, t: Seq<char>, i: int, j: int, k: int)
    requires
        0 <= i <= k <= p.len(),
        0 <= j <= t.len(),
        forall|x: int| i <= x < k ==> (#[trigger] p[x]) != '*' && p[x] != '?',
    ensures
        glob(p, t, i, j) <==> j + (k - i) <= t.len() && p.subrange(i, k) == t.subrange(j, j + (k - i)) && glob(
            p,
            t,
            k,
            j + (k - i),
        ),
    decreases k - i,
{
    if i < k {
        assert(p[i] != '*');
        if j >= t.len() {
            assert(!only_stars(p, i));
        } else {
            lemma_glob_literal(p, t, i + 1, j + 1, k);
            let a = p.subrange(i, k);
            if j + (k - i) <= t.len() {
                let b = t.subrange(j, j + (k - i));
                assert(a =~= seq![p[i]] + p.subrange(i + 1, k));
                assert(b =~= seq![t[j]] + t.subrange(j + 1, j + (k - i)));
                if a == b {
                    assert(a[0] == b[0]);
                    assert(p.subrange(i + 1, k) =~= a.subrange(1, a.len() as int));
                    assert(t.subrange(j + 1, j + (k - i)) =~= b.subrange(1, b.len() as int));
                }
            }
        }
    } else {
        assert(p.subrange(i, k) =~= t.subrange(j, j));
    }
}

/// A pattern of plain characters matches itself and nothing else.
pub proof fn lemma_plain_pattern(p: Seq<char>, t: Seq<char>)
    requires
        literal(p),
    ensures
        glob(p, t, 0, 0) <==> p == t,
{
    let n = p.len() as int;
    lemma_glob_literal(p, t, 0, 0, n);
    assert(p.subrange(0, n) =~= p);
    if n <= t.len() {
        assert(t.subrange(0, n).len() == n);
        if n == t.len() {
            assert(t.subrange(0, n) =~= t);
            assert(only_stars(p, n));
        }
    }
}

proof fn lemma_star_run(p: Seq<char>, t: Seq<char>, i: int, j: int)
    requires
        0 <= i < p.len(),
        p[i] == '*',
        i + 1 < p.len() ==> p[i + 1] != '*',
        0 <= j <= t.len(),
    ensures
        glob(p, t, i, j) <==> exists|k: int|
            j <= k <= t.len() && one_name(t.subrange(j, k)) && #[trigger] glob(p, t, i + 1, k),
    decreases t.len() - j,
{
    if j >= t.len() {
        assert(t.subrange(j, j) =~= seq![]);
        assert(one_name(t.subrange(j, j)));
        assert(only_stars(p, i) <==> only_stars(p, i + 1)) by {
            if only_stars(p, i + 1) {
                assert forall|k: int| i <= k < p.len() implies #[trigger] p[k] == '*' by {
                    if k > i {
                        assert(p[k] == '*');
                    }
                }
            }
        }
        assert(glob(p, t, i + 1, j) == only_stars(p, i + 1));
    } else {
        lemma_star_run(p, t, i, j + 1);
        if glob(p, t, i + 1, j) {
            assert(t.subrange(j, j) =~= seq![]);
            assert(one_name(t.subrange(j, j)));
        } else if t[j] != '/' && glob(p, t, i, j + 1) {
            let k = choose|k: int|
                j + 1 <= k <= t.len() && one_name(t.subrange(j + 1, k)) && #[trigger] glob(p, t, i + 1, k);
            assert forall|x: int| 0 <= x < t.subrange(j, k).len() implies (#[trigger] t.subrange(j, k)[x]) != '/' by {
                if x > 0 {
                    assert(t.subrange(j, k)[x] == t.subrange(j + 1, k)[x - 1]);
                }
            }
            assert(one_name(t.subrange(j, k)));
        }
        if exists|k: int| j <= k <= t.len() && one_name(t.subrange(j, k)) && #[trigger] glob(p, t, i + 1, k) {
            let k = choose|k: int|
                j <= k <= t.len() && one_name(t.subrange(j, k)) && #[trigger] glob(p, t, i + 1, k);
            if k > j {
                assert(t.subrange(j, k)[0] == t[j]);
                assert forall|x: int| 0 <= x < t.subrange(j + 1, k).len() implies (#[trigger] t.subrange(
                    j + 1,
                    k,
                )[x]) != '/' by {
                    assert(t.subrange(j + 1, k)[x] == t.subrange(j, k)[x + 1]);
                }
                assert(one_name(t.subrange(j + 1, k)));
                assert(glob(p, t, i + 1, k));
                assert(glob(p, t, i, j + 1));
            }
        }
    }
}

/// What a star stands for: a pattern with one between plain characters matches exactly the texts that
/// start as it starts and end as it ends, with no separator between.
pub proof fn lemma_star_pattern(a: Seq<char>, b: Seq<char>, t: Seq<char>)
    requires
        literal(a),
        literal(b),
    ensures
        glob(a + seq!['*'] + b, t, 0, 0) <==> exists|x: Seq<char>| one_name(x) && t == #[trigger] (a + x + b),
{
    let p = a + seq!['*'] + b;
    let n = a.len() as int;
    assert forall|x: int| 0 <= x < n implies (#[trigger] p[x]) != '*' && p[x] != '?' by {
        assert(p[x] == a[x]);
    }
    lemma_glob_literal(p, t, 0, 0, n);
    assert(p.subrange(0, n) =~= a);
    assert(p[n] == '*');
    assert(n + 1 < p.len() ==> p[n + 1] == b[0]);
    assert forall|x: int| n + 1 <= x < p.len() implies (#[trigger] p[x]) != '*' && p[x] != '?' by {
        assert(p[x] == b[x - n - 1]);
    }
    assert(p.subrange(n + 1, p.len() as int) =~= b);
    let size = p.len() as int;
    if glob(p, t, 0, 0) {
        lemma_star_run(p, t, n, n);
        let k = choose|k: int| n <= k <= t.len() && one_name(t.subrange(n, k)) && #[trigger] glob(p, t, n + 1, k);
        lemma_glob_literal(p, t, n + 1, k, size);
        let x = t.subrange(n, k);
        let end = k + (size - n - 1);
        assert(glob(p, t, size, end));
        assert(end == t.len());
        assert(t =~= t.subrange(0, n) + x + t.subrange(k, end));
        assert(t == a + x + b);
    }
    if exists|x: Seq<char>| one_name(x) && t == #[trigger] (a + x + b) {
        let x = choose|x: Seq<char>| one_name(x) && t == #[trigger] (a + x + b);
        let k = n + x.len();
        assert(t.subrange(0, n) =~= a);
        assert(t.subrange(n, k) =~= x);
        assert(t.subrange(k, k + (size - n - 1)) =~= b);
        assert(only_stars(p, size));
        assert(glob(p, t, size, t.len() as int));
        lemma_glob_literal(p, t, n + 1, k, size);
        assert(glob(p, t, n + 1, k));
        lemma_star_run(p, t, n, n);
        assert(glob(p, t, n, n));
    }
}

proof fn lemma_glob_any(p: Seq<char>, t: Seq<char>, i: int, j: int)
    requires
        0 <= i,
        0 <= j <= t.len(),
    ensures
        glob_any(p, t, i, j) <==> exists|k: int| j <= k <= t.len() && #[trigger] glob(p, t, i, k),
    decreases t.len() - j,
{
    assert(glob_any(p, t, i, j) == (glob(p, t, i, j) || (j < t.len() && glob_any(p, t, i, j + 1))));
    if j < t.len() {
        lemma_glob_any(p, t, i, j + 1);
        if glob_any(p, t, i, j) && !glob(p, t, i, j) {
            let k = choose|k: int| j + 1 <= k <= t.len() && #[trigger] glob(p, t, i, k);
            assert(j <= k <= t.len() && glob(p, t, i, k));
        }
        if exists|k: int| j <= k <= t.len() && #[trigger] glob(p, t, i, k) {
            let k = choose|k: int| j <= k <= t.len() && #[trigger] glob(p, t, i, k);
            if k > j {
                assert(glob(p, t, i, k));
                assert(glob_any(p, t, i, j + 1));
            }
        }
    }
}

/// What a double star before a separator stands for: a pattern of it and plain characters matches
/// exactly the texts that end with these, whatever stands before.
pub proof fn lemma_double_star_pattern(b: Seq<char>, t: Seq<char>)
    requires
        literal(b),
        b.len() > 0,
    ensures
        glob(seq!['*', '*', '/'] + b, t, 0, 0) <==> exists|x: Seq<char>| t == #[trigger] (x + b),
{
    let p = seq!['*', '*', '/'] + b;
    let size = p.len() as int;
    assert(p[0] == '*' && p[1] == '*' && p[2] == '/');
    assert(after_double_star(p, 0) == 3);
    assert forall|x: int| 3 <= x < size implies (#[trigger] p[x]) != '*' && p[x] != '?' by {
        assert(p[x] == b[x - 3]);
    }
    assert(p.subrange(3, size) =~= b);
    if t.len() == 0 {
        assert(!only_stars(p, 0));
        assert forall|x: Seq<char>| t != #[trigger] (x + b) by {
            assert((x + b).len() > 0);
        }
    } else {
        lemma_glob_any(p, t, 3, 0);
        if glob(p, t, 0, 0) {
            let k = choose|k: int| 0 <= k <= t.len() && #[trigger] glob(p, t, 3, k);
            lemma_glob_literal(p, t, 3, k, size);
            let end = k + (size - 3);
            assert(glob(p, t, size, end));
            assert(end == t.len());
            assert(t =~= t.subrange(0, k) + b);
        }
        if exists|x: Seq<char>| t == #[trigger] (x + b) {
            let x = choose|x: Seq<char>| t == #[trigger] (x + b);
            let k = x.len() as int;
            assert(t.subrange(k, k + (size - 3)) =~= b);
            assert(only_stars(p, size));
            assert(glob(p, t, size, t.len() as int));
            lemma_glob_literal(p, t, 3, k, size);
            assert(glob(p, t, 3, k));
        }
    }
}

/// What a question mark stands for: any one character that is no separator.
pub proof fn lemma_question_pattern(a: Seq<char>, b: Seq<char>, t: Seq<char>)
    requires
        literal(a),
        literal(b),
    ensures
        glob(a + seq!['?'] + b, t, 0, 0) <==> exists|c: char| c != '/' && t == #[trigger] (a + seq![c] + b),
{
    let p = a + seq!['?'] + b;
    let n = a.len() as int;
    let size = p.len() as int;
    assert forall|x: int| 0 <= x < n implies (#[trigger] p[x]) != '*' && p[x] != '?' by {
        assert(p[x] == a[x]);
    }
    lemma_glob_literal(p, t, 0, 0, n);
    assert(p.subrange(0, n) =~= a);
    assert(p[n] == '?');
    assert forall|x: int| n + 1 <= x < size implies (#[trigger] p[x]) != '*' && p[x] != '?' by {
        assert(p[x] == b[x - n - 1]);
    }
    assert(p.subrange(n + 1, size) =~= b);
    if n < t.len() {
        lemma_glob_literal(p, t, n + 1, n + 1, size);
    }
    if glob(p, t, 0, 0) {
        if n >= t.len() {
            assert(!only_stars(p, n));
        }
        let end = n + 1 + (size - n - 1);
        assert(glob(p, t, size, end));
        assert(end == t.len());
        assert(t =~= a + seq![t[n]] + b) by {
            assert(t =~= t.subrange(0, n) + seq![t[n]] + t.subrange(n + 1, end));
        }
    }
    if exists|c: char| c != '/' && t == #[trigger] (a + seq![c] + b) {
        let c = choose|c: char| c != '/' && t == #[trigger] (a + seq![c] + b);
        assert(t[n] == c);
        assert(t.subrange(0, n) =~= a);
        assert(t.subrange(n + 1, n + 1 + (size - n - 1)) =~= b);
        assert(only_stars(p, size));
        assert(glob(p, t, size, t.len() as int));
    }
}

// ---------------------------------------------------------------------------
// Rules
// ---------------------------------------------------------------------------

/// Whether the last name of a path is the given one.
pub open spec fn last_name(path: Seq<char>, name: Seq<char>) -> bool {
    path == name || exists|front: Seq<char>| path == #[trigger] (front + seq!['/'] + name)
}

/// Whether one of the names that a path is made of is the given one.
pub open spec fn has_name(path: Seq<char>, name: Seq<char>) -> bool {
    exists|i: int|
        0 <= i <= path.len() && (i == path.len() || path[i] == '/') && last_name(#[trigger] path.subrange(0, i), name)
}

/// The rule of a pattern that is a plain name.
pub open spec fn name_rule(name: Seq<char>) -> Rule {
    Rule { base: seq![], text: name, negated: false, directory_only: false, anchored: false }
}

proof fn lemma_name_matches(name: Seq<char>, path: Seq<char>)
    requires
        literal(name),
    ensures
        rule_matches(name_rule(name), path) <==> last_name(path, name),
{
    let none: Seq<char> = seq![];
    assert(path.subrange(0, 0) =~= none);
    assert(path.subrange(0, path.len() as int) =~= path);
    assert(after_prefix(path, none) == Some(path));
    lemma_plain_pattern(name, path);
    if below_some_directory(name, path) {
        let i = choose|i: int|
            0 <= i < path.len() && path[i] == '/' && #[trigger] glob(
                name,
                path.subrange(i + 1, path.len() as int),
                0,
                0,
            );
        lemma_plain_pattern(name, path.subrange(i + 1, path.len() as int));
        assert(path =~= path.subrange(0, i) + seq!['/'] + name);
    }
    if exists|front: Seq<char>| path == #[trigger] (front + seq!['/'] + name) {
        let front = choose|front: Seq<char>| path == #[trigger] (front + seq!['/'] + name);
        let i = front.len() as int;
        assert(path[i] == '/');
        assert(path.subrange(i + 1, path.len() as int) =~= name);
        lemma_plain_pattern(name, path.subrange(i + 1, path.len() as int));
        assert(glob(name, path.subrange(i + 1, path.len() as int), 0, 0));
    }
}

/// Whether one of the names of a path that end at `from` or later is the given one.
spec fn name_from(path: Seq<char>, name: Seq<char>, from: int) -> bool {
    exists|i: int|
        from <= i <= path.len() && (i == path.len() || path[i] == '/') && last_name(
            #[trigger] path.subrange(0, i),
            name,
        )
}

proof fn lemma_name_ignored_from(name: Seq<char>, path: Seq<char>, i: int)
    requires
        literal(name),
        0 <= i <= path.len(),
    ensures
        ignored_from(seq![name_rule(name)], path, i, false) <==> name_from(path, name, i),
    decreases path.len() - i,
{
    let rules = seq![name_rule(name)];
    let none: Seq<Rule> = seq![];
    assert(rules.last() == name_rule(name));
    assert(rules.drop_last() =~= none);
    let front = path.subrange(0, i);
    lemma_name_matches(name, front);
    assert(decided(rules, front, true, false) == last_name(front, name)) by {
        assert(!decided(none, front, true, false));
    }
    if i < path.len() {
        lemma_name_ignored_from(name, path, i + 1);
        if name_from(path, name, i) {
            let k = choose|k: int|
                i <= k <= path.len() && (k == path.len() || path[k] == '/') && last_name(
                    #[trigger] path.subrange(0, k),
                    name,
                );
            if k > i {
                assert(last_name(path.subrange(0, k), name));
                assert(name_from(path, name, i + 1));
            }
        }
        if name_from(path, name, i + 1) {
            let k = choose|k: int|
                i + 1 <= k <= path.len() && (k == path.len() || path[k] == '/') && last_name(
                    #[trigger] path.subrange(0, k),
                    name,
                );
            assert(last_name(path.subrange(0, k), name));
            assert(name_from(path, name, i));
        }
    } else {
        assert(path.subrange(0, i) =~= path);
        assert(decided(rules, path, false, false) == last_name(path, name)) by {
            assert(!decided(none, path, false, false));
        }
    }
}

/// A pattern that is a plain name ignores exactly the paths that have it as one of their names, files
/// and what lies below a directory of that name alike.
pub proof fn lemma_name_ignored(name: Seq<char>, path: Seq<char>)
    requires
        literal(name),
    ensures
        ignores(seq![name_rule(name)], path) <==> has_name(path, name),
{
    lemma_name_ignored_from(name, path, 0);
    if has_name(path, name) {
        let i = choose|i: int|
            0 <= i <= path.len() && (i == path.len() || path[i] == '/') && last_name(
                #[trigger] path.subrange(0, i),
                name,
            );
        assert(last_name(path.subrange(0, i), name));
        assert(name_from(path, name, 0));
    }
    if name_from(path, name, 0) {
        let i = choose|i: int|
            0 <= i <= path.len() && (i == path.len() || path[i] == '/') && last_name(
                #[trigger] path.subrange(0, i),
                name,
            );
        assert(last_name(path.subrange(0, i), name));
    }
}

proof fn lemma_no_separator(name: Seq<char>)
    requires
        one_name(name),
    ensures
        !holds(name, "/"@),
        !starts(name, "/"@),
        !ends(name, "/"@),
{
    reveal_strlit("/");
    lemma_find_from(name, "/"@, 0);
    if let Some(i) = find_from(name, "/"@, 0) {
        assert(name.subrange(i, i + 1)[0] == name[i]);
        assert("/"@[0] == '/');
    }
    if starts(name, "/"@) {
        assert(name.subrange(0, 1)[0] == '/');
    }
    if ends(name, "/"@) {
        assert(name.subrange(name.len() - 1, name.len() as int)[0] == '/');
    }
}

/// What a line of a pattern file says. A plain name is a pattern for that name; with `!` in front it
/// takes back what others ignore, with a separator behind it means directories only, and with one in
/// front it holds in the directory of the file alone. A line that starts with `#` says nothing.
pub proof fn lemma_rule_of_line(base: Seq<char>, name: Seq<char>, rest: Seq<char>)
    requires
        name.len() > 0,
        one_name(name),
        !is_space(name.last()),
        name[0] != '#',
        name[0] != '!',
    ensures
        ({
            let rule = Rule { base, text: name, negated: false, directory_only: false, anchored: false };
            &&& rule_of(base, name) == Some(rule)
            &&& rule_of(base, seq!['!'] + name) == Some(Rule { negated: true, ..rule })
            &&& rule_of(base, name + seq!['/']) == Some(Rule { directory_only: true, ..rule })
            &&& rule_of(base, seq!['/'] + name) == Some(Rule { anchored: true, ..rule })
        }),
        rule_of(base, seq!['#'] + rest) is None,
{
    reveal_strlit("/");
    reveal_strlit("!");
    reveal_strlit("#");
    let slash = "/"@;
    assert(slash =~= seq!['/'] && "!"@ =~= seq!['!'] && "#"@ =~= seq!['#']);
    lemma_no_separator(name);
    // The plain name.
    assert(trimmed_end(name) == name);
    assert(!starts(name, "!"@)) by {
        if starts(name, "!"@) {
            assert(name.subrange(0, 1)[0] == '!');
        }
    }
    assert(!starts(name, "#"@)) by {
        if starts(name, "#"@) {
            assert(name.subrange(0, 1)[0] == '#');
        }
    }
    assert(rule_of(base, name) is Some);
    // With a mark in front.
    let turned = seq!['!'] + name;
    assert(turned.last() == name.last());
    assert(trimmed_end(turned) == turned);
    assert(turned.subrange(0, 1) =~= "!"@);
    assert(turned.subrange(1, turned.len() as int) =~= name);
    assert(starts(turned, "!"@));
    assert(!starts(turned, "#"@)) by {
        if starts(turned, "#"@) {
            assert(turned.subrange(0, 1)[0] == '#');
        }
    }
    assert(rule_of(base, turned) is Some);
    // With a separator behind.
    let folder = name + seq!['/'];
    assert(folder.last() == '/');
    assert(!is_space('/'));
    assert(trimmed_end(folder) == folder);
    assert(folder[0] == name[0]);
    assert(!starts(folder, "!"@)) by {
        if starts(folder, "!"@) {
            assert(folder.subrange(0, 1)[0] == '!');
        }
    }
    assert(!starts(folder, "#"@)) by {
        if starts(folder, "#"@) {
            assert(folder.subrange(0, 1)[0] == '#');
        }
    }
    assert(folder.subrange(folder.len() - 1, folder.len() as int) =~= slash);
    assert(folder.subrange(0, folder.len() - 1) =~= name);
    assert(before_suffix(folder, slash) == Some(name));
    assert(rule_of(base, folder) is Some);
    // With a separator in front.
    let rooted = seq!['/'] + name;
    assert(rooted.last() == name.last());
    assert(trimmed_end(rooted) == rooted);
    assert(rooted.subrange(0, 1) =~= slash);
    assert(rooted.subrange(1, rooted.len() as int) =~= name);
    assert(!starts(rooted, "!"@)) by {
        if starts(rooted, "!"@) {
            assert(rooted.subrange(0, 1)[0] == '!');
        }
    }
    assert(!starts(rooted, "#"@)) by {
        if starts(rooted, "#"@) {
            assert(rooted.subrange(0, 1)[0] == '#');
        }
    }
    assert(!ends(rooted, slash)) by {
        if ends(rooted, slash) {
            assert(rooted.subrange(rooted.len() - 1, rooted.len() as int)[0] == rooted.last());
            assert(name[name.len() - 1] != '/');
        }
    }
    lemma_find_from(rooted, slash, 0);
    assert(occurs_at(rooted, slash, 0));
    assert(holds(rooted, slash));
    assert(rule_of(base, rooted) is Some);
    // A line that says nothing.
    lemma_trimmed_start(seq!['#'] + rest);
    let l = trimmed_end(seq!['#'] + rest);
    if l.len() > 0 {
        assert(l.subrange(0, 1) =~= "#"@);
    }
}

proof fn lemma_trimmed_start(s: Seq<char>)
    ensures
        trimmed_end(s).len() <= s.len(),
        trimmed_end(s) == s.subrange(0, trimmed_end(s).len() as int),
    decreases s.len(),
{
    if s.len() > 0 && is_space(s.last()) {
        lemma_trimmed_start(s.drop_last());
        let n = trimmed_end(s).len() as int;
        assert(s.drop_last().subrange(0, n) =~= s.subrange(0, n));
    } else {
        assert(s.subrange(0, s.len() as int) =~= s);
    }
}

// ---------------------------------------------------------------------------
// Shell wildcards
// ---------------------------------------------------------------------------

proof fn lemma_wild_literal(p: Seq<char>, t: Seq<char>, i: int, j: int, k: int)
    requires
        0 <= i <= k <= p.len(),
        0 <= j <= t.len(),
        forall|x: int|
            i <= x < k ==> (#[trigger] p[x]) != '*' && p[x] != '?' && p[x] != '[' && p[x] != '\\',
    ensures
        wild(p, t, i, j) <==> j + (k - i) <= t.len() && p.subrange(i, k) == t.subrange(j, j + (k - i)) && wild(
            p,
            t,
            k,
            j + (k - i),
        ),
    decreases k - i,
{
    if i < k {
        assert(p[i] != '*');
        if j < t.len() {
            lemma_wild_literal(p, t, i + 1, j + 1, k);
            let a = p.subrange(i, k);
            if j + (k - i) <= t.len() {
                let b = t.subrange(j, j + (k - i));
                assert(a =~= seq![p[i]] + p.subrange(i + 1, k));
                assert(b =~= seq![t[j]] + t.subrange(j + 1, j + (k - i)));
                if a == b {
                    assert(a[0] == b[0]);
                    assert(p.subrange(i + 1, k) =~= a.subrange(1, a.len() as int));
                    assert(t.subrange(j + 1, j + (k - i)) =~= b.subrange(1, b.len() as int));
                }
            }
        }
    } else {
        assert(p.subrange(i, k) =~= t.subrange(j, j));
    }
}

proof fn lemma_wild_run(p: Seq<char>, t: Seq<char>, i: int, j: int)
    requires
        0 <= i < p.len(),
        p[i] == '*',
        0 <= j <= t.len(),
    ensures
        wild(p, t, i, j) <==> exists|k: int| j <= k <= t.len() && #[trigger] wild(p, t, i + 1, k),
    decreases t.len() - j,
{
    if j < t.len() {
        lemma_wild_run(p, t, i, j + 1);
        if wild(p, t, i, j) && !wild(p, t, i + 1, j) {
            let k = choose|k: int| j + 1 <= k <= t.len() && #[trigger] wild(p, t, i + 1, k);
            assert(j <= k <= t.len() && wild(p, t, i + 1, k));
        }
        if exists|k: int| j <= k <= t.len() && #[trigger] wild(p, t, i + 1, k) {
            let k = choose|k: int| j <= k <= t.len() && #[trigger] wild(p, t, i + 1, k);
            if k > j {
                assert(wild(p, t, i + 1, k));
                assert(wild(p, t, i, j + 1));
            }
        }
    } else {
        assert(wild(p, t, i, j) == wild(p, t, i + 1, j));
    }
}

/// What shell wildcards match. Plain characters match themselves and nothing else; a star between them
/// matches any run of characters, and a question mark any one.
pub proof fn lemma_wildcards(a: Seq<char>, b: Seq<char>, t: Seq<char>)
    requires
        literal(a),
        literal(b),
    ensures
        wild(a, t, 0, 0) <==> a == t,
        wild(a + seq!['*'] + b, t, 0, 0) <==> exists|x: Seq<char>| t == #[trigger] (a + x + b),
        wild(a + seq!['?'] + b, t, 0, 0) <==> exists|c: char| t == #[trigger] (a + seq![c] + b),
{
    let n = a.len() as int;
    lemma_wild_literal(a, t, 0, 0, n);
    assert(a.subrange(0, n) =~= a);
    if n <= t.len() {
        if n == t.len() {
            assert(t.subrange(0, n) =~= t);
        }
    }
    lemma_wild_star(a, b, t);
    lemma_wild_question(a, b, t);
}

proof fn lemma_wild_star(a: Seq<char>, b: Seq<char>, t: Seq<char>)
    requires
        literal(a),
        literal(b),
    ensures
        wild(a + seq!['*'] + b, t, 0, 0) <==> exists|x: Seq<char>| t == #[trigger] (a + x + b),
{
    let p = a + seq!['*'] + b;
    let n = a.len() as int;
    let size = p.len() as int;
    assert forall|x: int| 0 <= x < n implies (#[trigger] p[x]) != '*' && p[x] != '?' && p[x] != '[' && p[x] != '\\' by {
        assert(p[x] == a[x]);
    }
    assert forall|x: int| n + 1 <= x < size implies (#[trigger] p[x]) != '*' && p[x] != '?' && p[x] != '[' && p[x]
        != '\\' by {
        assert(p[x] == b[x - n - 1]);
    }
    lemma_wild_literal(p, t, 0, 0, n);
    assert(p.subrange(0, n) =~= a);
    assert(p[n] == '*');
    assert(p.subrange(n + 1, size) =~= b);
    if wild(p, t, 0, 0) {
        lemma_wild_run(p, t, n, n);
        let k = choose|k: int| n <= k <= t.len() && #[trigger] wild(p, t, n + 1, k);
        lemma_wild_literal(p, t, n + 1, k, size);
        let x = t.subrange(n, k);
        let end = k + (size - n - 1);
        assert(t =~= t.subrange(0, n) + x + t.subrange(k, end));
        assert(t == a + x + b);
    }
    if exists|x: Seq<char>| t == #[trigger] (a + x + b) {
        let x = choose|x: Seq<char>| t == #[trigger] (a + x + b);
        let k = n + x.len();
        assert(t.subrange(0, n) =~= a);
        assert(t.subrange(k, k + (size - n - 1)) =~= b);
        assert(wild(p, t, size, t.len() as int));
        lemma_wild_literal(p, t, n + 1, k, size);
        assert(wild(p, t, n + 1, k));
        lemma_wild_run(p, t, n, n);
        assert(wild(p, t, n, n));
    }
}

proof fn lemma_wild_question(a: Seq<char>, b: Seq<char>, t: Seq<char>)
    requires
        literal(a),
        literal(b),
    ensures
        wild(a + seq!['?'] + b, t, 0, 0) <==> exists|c: char| t == #[trigger] (a + seq![c] + b),
{
    let p = a + seq!['?'] + b;
    let n = a.len() as int;
    let size = p.len() as int;
    assert forall|x: int| 0 <= x < n implies (#[trigger] p[x]) != '*' && p[x] != '?' && p[x] != '[' && p[x] != '\\' by {
        assert(p[x] == a[x]);
    }
    assert forall|x: int| n + 1 <= x < size implies (#[trigger] p[x]) != '*' && p[x] != '?' && p[x] != '[' && p[x]
        != '\\' by {
        assert(p[x] == b[x - n - 1]);
    }
    lemma_wild_literal(p, t, 0, 0, n);
    assert(p.subrange(0, n) =~= a);
    assert(p[n] == '?');
    assert(p.subrange(n + 1, size) =~= b);
    if n < t.len() {
        lemma_wild_literal(p, t, n + 1, n + 1, size);
    }
    if wild(p, t, 0, 0) {
        let end = n + 1 + (size - n - 1);
        assert(t =~= a + seq![t[n]] + b) by {
            assert(t =~= t.subrange(0, n) + seq![t[n]] + t.subrange(n + 1, end));
        }
    }
    if exists|c: char| t == #[trigger] (a + seq![c] + b) {
        let c = choose|c: char| t == #[trigger] (a + seq![c] + b);
        assert(t[n] == c);
        assert(t.subrange(0, n) =~= a);
        assert(t.subrange(n + 1, n + 1 + (size - n - 1)) =~= b);
        assert(wild(p, t, size, t.len() as int));
    }
}

} // verus!
