//! Settings that are written are read back.

use vstd::prelude::*;

use crate::bytes::{lemma_text_round_trip, loose_text};
use crate::order::{ascending, before, bind, lemma_before_irreflexive, lemma_bind_last, lookup};
use crate::settings::{
    heading_of, key_char, key_prefix, proper_key, settings_bytes, settings_of, settings_text, settings_with, split_key,
    unquoted, value_lines, with_value, without_quotes, Keys, MAX_KEYS,
};
use crate::text::{
    cut_once, ends, find_from, first_pieces, index_from, is_space, lemma_cut_once, lemma_find_from,
    lemma_first_line, lemma_index_from, line_list, lower_char, lowered, occurs_at, space_from, starts, trimmed,
    trimmed_end, trimmed_start, without_leading, without_trailing,
};

verus! {

/// Whether a value can be written: it is one line without outer white space, and not in quotes.
pub open spec fn plain_value(v: Seq<char>) -> bool {
    &&& !v.contains('\n')
    &&& v.len() > 0 ==> !is_space(v[0]) && !is_space(v.last())
    &&& unquoted(v) == v
}

/// Whether settings can be written: proper keys in lower case, in order, each with values that can
/// be written; and not more of them than are read.
pub open spec fn storable_settings(c: Keys) -> bool {
    &&& ascending(c)
    &&& forall|i: int|
        0 <= i < c.len() ==> proper_key(#[trigger] c[i].0) && lowered(c[i].0) == c[i].0
            && c[i].1.len() > 0 && plain_values(c[i].1)
    &&& c.len() < MAX_KEYS || (c.len() == MAX_KEYS && c.last().1.len() == 1)
}

/// Whether values can be written.
pub open spec fn plain_values(v: Seq<Seq<char>>) -> bool {
    forall|i: int| 0 <= i < v.len() ==> plain_value(#[trigger] v[i])
}

// ---------------------------------------------------------------------------
// White space
// ---------------------------------------------------------------------------

spec fn blank(s: Seq<char>) -> bool {
    forall|i: int| 0 <= i < s.len() ==> is_space(#[trigger] s[i])
}

proof fn lemma_start(pre: Seq<char>, s: Seq<char>)
    requires
        blank(pre),
        s.len() == 0 || !is_space(s[0]),
    ensures
        trimmed_start(pre + s) == s,
    decreases pre.len(),
{
    if pre.len() == 0 {
        assert(pre + s =~= s);
    } else {
        let rest = pre.subrange(1, pre.len() as int);
        assert(is_space(pre[0]));
        assert((pre + s)[0] == pre[0]);
        assert((pre + s).subrange(1, (pre + s).len() as int) =~= rest + s);
        assert forall|i: int| 0 <= i < rest.len() implies is_space(#[trigger] rest[i]) by {
            assert(rest[i] == pre[i + 1]);
        }
        lemma_start(rest, s);
    }
}

proof fn lemma_end(s: Seq<char>, post: Seq<char>)
    requires
        blank(post),
        s.len() == 0 || !is_space(s.last()),
    ensures
        trimmed_end(s + post) == s,
    decreases post.len(),
{
    if post.len() == 0 {
        assert(s + post =~= s);
    } else {
        let rest = post.drop_last();
        assert(is_space(post[post.len() - 1]));
        assert((s + post).last() == post.last());
        assert((s + post).drop_last() =~= s + rest);
        assert forall|i: int| 0 <= i < rest.len() implies is_space(#[trigger] rest[i]) by {
            assert(rest[i] == post[i]);
        }
        lemma_end(s, rest);
    }
}

proof fn lemma_trim(pre: Seq<char>, s: Seq<char>, post: Seq<char>)
    requires
        blank(pre),
        blank(post),
        s.len() > 0,
        !is_space(s[0]),
        !is_space(s.last()),
    ensures
        trimmed(pre + s + post) == s,
{
    assert(pre + s + post =~= pre + (s + post));
    assert((s + post)[0] == s[0]);
    lemma_start(pre, s + post);
    lemma_end(s, post);
}

proof fn lemma_trim_blank(pre: Seq<char>)
    requires
        blank(pre),
    ensures
        trimmed(pre) == Seq::<char>::empty(),
{
    lemma_start(pre, seq![]);
    assert(pre + Seq::<char>::empty() =~= pre);
}

// ---------------------------------------------------------------------------
// Keys
// ---------------------------------------------------------------------------

spec fn key_text(s: Seq<char>) -> bool {
    forall|i: int| 0 <= i < s.len() ==> key_char(#[trigger] s[i]) && lower_char(s[i]) == s[i]
}

proof fn lemma_key_char(c: char)
    requires
        key_char(c),
    ensures
        !is_space(c),
        c != '"',
        c != '[',
        c != ']',
        c != '#',
        c != ';',
        c != '=',
        c != '\n',
{
}

proof fn lemma_key_part(s: Seq<char>, from: int, to: int)
    requires
        key_text(s),
        0 <= from <= to <= s.len(),
    ensures
        key_text(s.subrange(from, to)),
        lowered(s.subrange(from, to)) == s.subrange(from, to),
{
    let p = s.subrange(from, to);
    assert forall|i: int| 0 <= i < p.len() implies key_char(#[trigger] p[i]) && lower_char(p[i])
        == p[i] by {
        assert(p[i] == s[from + i]);
    }
    assert(lowered(p) =~= p);
}

proof fn lemma_no_space(s: Seq<char>, from: int)
    requires
        0 <= from,
        forall|i: int| from <= i < s.len() ==> !is_space(#[trigger] s[i]),
    ensures
        space_from(s, from) is None,
    decreases s.len() - from,
{
    if from < s.len() {
        lemma_no_space(s, from + 1);
    }
}

proof fn lemma_first_space(s: Seq<char>, n: int, from: int)
    requires
        0 <= from <= n < s.len(),
        is_space(s[n]),
        forall|i: int| from <= i < n ==> !is_space(#[trigger] s[i]),
    ensures
        space_from(s, from) == Some(n),
    decreases n - from,
{
    if from < n {
        lemma_first_space(s, n, from + 1);
    }
}

proof fn lemma_dot_somewhere(s: Seq<char>, from: int, at: int)
    requires
        0 <= from <= at < s.len(),
        s[at] == '.',
    ensures
        index_from(s, '.', from) is Some,
    decreases at - from,
{
    if s[from] != '.' {
        lemma_dot_somewhere(s, from + 1, at);
    }
}

proof fn lemma_quotes_off(s: Seq<char>)
    requires
        s.len() > 0,
        s[0] != '"',
        s.last() != '"',
    ensures
        without_quotes(seq!['"'] + s + seq!['"']) == s,
{
    let t = seq!['"'] + s + seq!['"'];
    let u = s + seq!['"'];
    assert(t[0] == '"');
    assert(t.subrange(1, t.len() as int) =~= u);
    assert(u[0] == s[0]);
    assert(without_leading(u, '"') == u);
    assert(without_leading(t, '"') == u);
    assert(u.last() == '"' && u.drop_last() =~= s);
    assert(without_trailing(s, '"') == s);
    assert(without_trailing(u, '"') == s);
}

/// The key that a heading and a name below it stand for is the one that they were made from.
proof fn lemma_key_split(key: Seq<char>)
    requires
        proper_key(key),
        lowered(key) == key,
    ensures
        ({
            let (heading, name) = split_key(key);
            &&& key_prefix(heading) + name == key
            &&& key_text(name)
            &&& name.len() > 0
            &&& heading.len() > 0
            &&& !heading.contains('\n')
        }),
{
    reveal_strlit(".");
    reveal_strlit("..");
    reveal_strlit(" \"");
    reveal_strlit("\"");
    assert("."@ =~= seq!['.']);
    assert forall|i: int| 0 <= i < key.len() implies key_char(#[trigger] key[i]) && lower_char(key[i])
        == key[i] by {
        assert(lowered(key)[i] == lower_char(key[i]));
    }
    assert(key_text(key));
    // There is a first dot, neither at the start nor at the end.
    let at = find_from(key, "."@, 0)->0;
    lemma_find_from(key, "."@, 0);
    assert(occurs_at(key, "."@, at));
    assert(key.subrange(at, at + 1)[0] == key[at]);
    lemma_dot_somewhere(key, 0, at);
    lemma_index_from(key, '.', 0);
    let i = index_from(key, '.', 0)->0;
    let a = key.subrange(0, i);
    let rest = key.subrange(i + 1, key.len() as int);
    lemma_key_part(key, 0, i);
    lemma_key_part(key, i + 1, key.len() as int);
    assert(i > 0) by {
        if i == 0 {
            assert(key.subrange(0, 1) =~= "."@);
            assert(starts(key, "."@));
        }
    }
    assert(rest.len() > 0) by {
        if rest.len() == 0 {
            assert(key.subrange(key.len() - 1, key.len() as int) =~= "."@);
            assert(ends(key, "."@));
        }
    }
    assert(key =~= a + seq!['.'] + rest);
    assert(cut_once(key, '.') == Some((a, rest)));
    reveal_with_fuel(first_pieces, 4);
    assert forall|k: int| 0 <= k < a.len() implies !is_space(#[trigger] a[k]) && a[k] != '\n' by {
        lemma_key_char(a[k]);
    }
    match index_from(rest, '.', 0) {
        None => {
            assert(cut_once(rest, '.') is None);
            assert(first_pieces(rest, '.', 2) =~= seq![rest]);
            assert(first_pieces(key, '.', 3) =~= seq![a, rest]);
            lemma_no_space(a, 0);
            assert(key_prefix(a) =~= a + "."@);
            assert(a + "."@ + rest =~= key);
        },
        Some(j) => {
            lemma_index_from(rest, '.', 0);
            let b = rest.subrange(0, j);
            let c = rest.subrange(j + 1, rest.len() as int);
            lemma_key_part(rest, 0, j);
            lemma_key_part(rest, j + 1, rest.len() as int);
            assert(rest =~= b + seq!['.'] + c);
            assert(first_pieces(rest, '.', 2) =~= seq![b, c]);
            assert(first_pieces(key, '.', 3) =~= seq![a, b, c]);
            assert(b.len() > 0) by {
                if b.len() == 0 {
                    assert(rest[0] == '.');
                    assert(key[i + 1] == '.');
                    assert(key.subrange(i, i + 2) =~= ".."@);
                    lemma_occurs_holds(key, ".."@, i, 0);
                }
            }
            assert(c.len() > 0) by {
                if c.len() == 0 {
                    assert(rest.last() == '.');
                    assert(key.last() == '.');
                    assert(key.subrange(key.len() - 1, key.len() as int) =~= "."@);
                    assert(ends(key, "."@));
                }
            }
            let heading = a + " \""@ + b + "\""@;
            let inner = seq!['"'] + b + seq!['"'];
            assert forall|k: int| 0 <= k < b.len() implies !is_space(#[trigger] b[k]) && b[k] != '\n'
                && b[k] != '"' by {
                lemma_key_char(b[k]);
            }
            let n = a.len() as int;
            assert(heading[n] == ' ');
            assert forall|k: int| 0 <= k < n implies !is_space(#[trigger] heading[k]) by {
                assert(heading[k] == a[k]);
            }
            lemma_first_space(heading, n, 0);
            assert(heading.subrange(0, n) =~= a);
            assert(heading.subrange(n + 1, heading.len() as int) =~= inner);
            lemma_trim(seq![], inner, seq![]);
            assert(Seq::<char>::empty() + inner + Seq::<char>::empty() =~= inner);
            assert(b[0] != '"' && b[b.len() - 1] != '"');
            lemma_quotes_off(b);
            assert(key_prefix(heading) =~= a + "."@ + b + "."@);
            assert(a + "."@ + b + "."@ + c =~= key);
            assert(!heading.contains('\n')) by {
                if heading.contains('\n') {
                    let k = choose|k: int| 0 <= k < heading.len() && heading[k] == '\n';
                    if k < n {
                        assert(heading[k] == a[k]);
                    } else if n + 2 <= k < n + 2 + b.len() {
                        assert(heading[k] == b[k - n - 2]);
                    }
                }
            }
        },
    }
    assert(!a.contains('\n')) by {
        if a.contains('\n') {
            let k = choose|k: int| 0 <= k < a.len() && a[k] == '\n';
            assert(a[k] != '\n');
        }
    }
}

proof fn lemma_occurs_holds(s: Seq<char>, pat: Seq<char>, at: int, from: int)
    requires
        0 <= from <= at,
        occurs_at(s, pat, at),
    ensures
        find_from(s, pat, from) is Some,
    decreases at - from,
{
    if from < at && !occurs_at(s, pat, from) {
        lemma_occurs_holds(s, pat, at, from + 1);
    }
}

// ---------------------------------------------------------------------------
// Lines
// ---------------------------------------------------------------------------

proof fn lemma_heading_step(c: Keys, prefix: Seq<char>, heading: Seq<char>, rest: Seq<char>)
    requires
        !heading.contains('\n'),
    ensures
        settings_with(c, prefix, line_list("["@ + heading + "]\n"@ + rest)) == settings_with(
            c,
            key_prefix(heading),
            line_list(rest),
        ),
{
    reveal_strlit("[");
    reveal_strlit("]");
    reveal_strlit("]\n");
    reveal_strlit("#");
    reveal_strlit(";");
    let line = "["@ + heading + "]"@;
    assert("["@ + heading + "]\n"@ + rest =~= line + seq!['\n'] + rest);
    assert(!line.contains('\n')) by {
        if line.contains('\n') {
            let k = choose|k: int| 0 <= k < line.len() && line[k] == '\n';
            if 1 <= k <= heading.len() {
                assert(line[k] == heading[k - 1]);
                assert(heading.contains(heading[k - 1]));
            }
        }
    }
    assert(line.last() == ']');
    lemma_first_line(line, rest);
    let all = seq![line] + line_list(rest);
    assert(all[0] == line);
    assert(all.subrange(1, all.len() as int) =~= line_list(rest));
    assert(line[0] == '[');
    lemma_trim(seq![], line, seq![]);
    assert(Seq::<char>::empty() + line + Seq::<char>::empty() =~= line);
    assert(!starts(line, "#"@)) by {
        if starts(line, "#"@) {
            assert(line.subrange(0, 1)[0] == line[0]);
        }
    }
    assert(!starts(line, ";"@)) by {
        if starts(line, ";"@) {
            assert(line.subrange(0, 1)[0] == line[0]);
        }
    }
    assert(line.subrange(0, 1) =~= "["@);
    let inner = line.subrange(1, line.len() as int);
    assert(inner =~= heading + "]"@);
    assert(inner.subrange(inner.len() - 1, inner.len() as int) =~= "]"@);
    assert(inner.subrange(0, inner.len() - 1) =~= heading);
    assert(heading_of(line) == Some(heading));
}

#[verifier::spinoff_prover]
#[verifier::rlimit(60)]
proof fn lemma_value_step(c: Keys, prefix: Seq<char>, name: Seq<char>, value: Seq<char>, rest: Seq<char>)
    requires
        key_text(name),
        name.len() > 0,
        plain_value(value),
        c.len() < MAX_KEYS,
    ensures
        settings_with(c, prefix, line_list("\t"@ + name + " = "@ + value + "\n"@ + rest))
            == settings_with(with_value(c, prefix + name, value), prefix, line_list(rest)),
{
    reveal_strlit("\t");
    reveal_strlit(" = ");
    reveal_strlit("\n");
    reveal_strlit("#");
    reveal_strlit(";");
    reveal_strlit("[");
    let line = "\t"@ + name + " = "@ + value;
    let n = name.len() as int;
    assert("\t"@ + name + " = "@ + value + "\n"@ + rest =~= line + seq!['\n'] + rest);
    assert forall|k: int| 0 <= k < n implies !is_space(#[trigger] name[k]) && name[k] != '\n'
        && name[k] != '=' by {
        lemma_key_char(name[k]);
    }
    assert(!line.contains('\n')) by {
        if line.contains('\n') {
            let k = choose|k: int| 0 <= k < line.len() && line[k] == '\n';
            if 1 <= k <= n {
                assert(line[k] == name[k - 1]);
            } else if k >= n + 4 {
                assert(line[k] == value[k - n - 4]);
                assert(value.contains(value[k - n - 4]));
            }
        }
    }
    assert(line.last() != '\r') by {
        if value.len() > 0 {
            assert(line.last() == value.last());
        } else {
            assert(line.last() == ' ');
        }
    }
    lemma_first_line(line, rest);
    let all = seq![line] + line_list(rest);
    assert(all[0] == line);
    assert(all.subrange(1, all.len() as int) =~= line_list(rest));
    // Without the white space around it the line is the name, an equals sign and the value.
    let tail = if value.len() > 0 {
        " "@ + value
    } else {
        Seq::<char>::empty()
    };
    reveal_strlit(" ");
    let inner = name + seq![' '] + seq!['='] + tail;
    let post = if value.len() > 0 {
        Seq::<char>::empty()
    } else {
        seq![' ']
    };
    assert(line =~= seq!['\t'] + inner + post);
    assert(inner[0] == name[0]);
    assert(inner.last() == (if value.len() > 0 {
        value.last()
    } else {
        '='
    }));
    lemma_trim(seq!['\t'], inner, post);
    lemma_key_char(name[0]);
    assert(!starts(inner, "#"@)) by {
        if starts(inner, "#"@) {
            assert(inner.subrange(0, 1)[0] == inner[0]);
        }
    }
    assert(!starts(inner, ";"@)) by {
        if starts(inner, ";"@) {
            assert(inner.subrange(0, 1)[0] == inner[0]);
        }
    }
    assert(!starts(inner, "["@)) by {
        if starts(inner, "["@) {
            assert(inner.subrange(0, 1)[0] == inner[0]);
        }
    }
    let left = name + seq![' '];
    assert(!left.contains('=')) by {
        if left.contains('=') {
            let k = choose|k: int| 0 <= k < left.len() && left[k] == '=';
            if k < n {
                assert(left[k] == name[k]);
            }
        }
    }
    lemma_cut_once(left, '=', tail);
    assert(inner =~= left + seq!['='] + tail);
    lemma_trim(seq![], name, seq![' ']);
    assert(Seq::<char>::empty() + name + seq![' '] =~= left);
    assert(trimmed(tail) == value) by {
        if value.len() > 0 {
            lemma_trim(seq![' '], value, seq![]);
            assert(seq![' '] + value + Seq::<char>::empty() =~= tail);
        } else {
            lemma_trim_blank(tail);
            assert(value =~= Seq::<char>::empty());
        }
    }
    assert(lowered(name) =~= name);
}

// ---------------------------------------------------------------------------
// All settings
// ---------------------------------------------------------------------------

proof fn lemma_absent_key(c: Keys, key: Seq<char>)
    requires
        forall|i: int| 0 <= i < c.len() ==> before(#[trigger] c[i].0, key),
    ensures
        lookup(c, key) is None,
    decreases c.len(),
{
    if c.len() > 0 {
        let rest = c.subrange(1, c.len() as int);
        assert(before(c[0].0, key));
        lemma_before_irreflexive(key);
        assert forall|i: int| 0 <= i < rest.len() implies before(#[trigger] rest[i].0, key) by {
            assert(rest[i] == c[i + 1]);
        }
        lemma_absent_key(rest, key);
    }
}

proof fn lemma_last_key(c: Keys, key: Seq<char>, v: Seq<Seq<char>>, w: Seq<Seq<char>>)
    requires
        forall|i: int| 0 <= i < c.len() ==> before(#[trigger] c[i].0, key),
    ensures
        bind(c.push((key, v)), key, w) == c.push((key, w)),
        lookup(c.push((key, v)), key) == Some(v),
    decreases c.len(),
{
    let all = c.push((key, v));
    if c.len() == 0 {
        assert(all.subrange(1, all.len() as int) =~= seq![]);
        assert(bind(all, key, w) =~= c.push((key, w)));
    } else {
        let rest = c.subrange(1, c.len() as int);
        assert(before(c[0].0, key));
        lemma_before_irreflexive(key);
        assert(all.subrange(1, all.len() as int) =~= rest.push((key, v)));
        assert forall|i: int| 0 <= i < rest.len() implies before(#[trigger] rest[i].0, key) by {
            assert(rest[i] == c[i + 1]);
        }
        lemma_last_key(rest, key, v, w);
        if before(key, c[0].0) {
            crate::order::lemma_before_transitive(c[0].0, key, c[0].0);
            lemma_before_irreflexive(c[0].0);
        }
        assert(all[0] == c[0]);
        assert(bind(all, key, w) =~= c.push((key, w)));
    }
}

proof fn lemma_more_values(
    c: Keys,
    prefix: Seq<char>,
    name: Seq<char>,
    read: Seq<Seq<char>>,
    values: Seq<Seq<char>>,
    rest: Seq<char>,
)
    requires
        key_text(name),
        name.len() > 0,
        plain_values(values),
        read.len() > 0,
        forall|i: int| 0 <= i < c.len() ==> before(#[trigger] c[i].0, prefix + name),
        values.len() > 0 ==> c.len() + 1 < MAX_KEYS,
    ensures
        settings_with(
            c.push((prefix + name, read)),
            prefix,
            line_list(value_lines(name, values) + rest),
        ) == settings_with(c.push((prefix + name, read + values)), prefix, line_list(rest)),
    decreases values.len(),
{
    if values.len() == 0 {
        assert(value_lines(name, values) + rest =~= rest);
        assert(read + values =~= read);
    } else {
        let fewer = values.subrange(1, values.len() as int);
        let after = value_lines(name, fewer) + rest;
        assert(plain_value(values[0]));
        assert(value_lines(name, values) + rest =~= "\t"@ + name + " = "@ + values[0] + "\n"@
            + after);
        lemma_value_step(c.push((prefix + name, read)), prefix, name, values[0], after);
        lemma_last_key(c, prefix + name, read, read.push(values[0]));
        assert forall|i: int| 0 <= i < fewer.len() implies plain_value(#[trigger] fewer[i]) by {
            assert(fewer[i] == values[i + 1]);
        }
        lemma_more_values(c, prefix, name, read.push(values[0]), fewer, rest);
        assert(read.push(values[0]) + fewer =~= read + values);
    }
}

proof fn lemma_key_values(
    c: Keys,
    prefix: Seq<char>,
    name: Seq<char>,
    values: Seq<Seq<char>>,
    rest: Seq<char>,
)
    requires
        key_text(name),
        name.len() > 0,
        plain_values(values),
        values.len() > 0,
        forall|i: int| 0 <= i < c.len() ==> before(#[trigger] c[i].0, prefix + name),
        c.len() < MAX_KEYS,
        values.len() > 1 ==> c.len() + 1 < MAX_KEYS,
    ensures
        settings_with(c, prefix, line_list(value_lines(name, values) + rest)) == settings_with(
            c.push((prefix + name, values)),
            prefix,
            line_list(rest),
        ),
{
    let fewer = values.subrange(1, values.len() as int);
    let after = value_lines(name, fewer) + rest;
    assert(plain_value(values[0]));
    assert(value_lines(name, values) + rest =~= "\t"@ + name + " = "@ + values[0] + "\n"@ + after);
    lemma_value_step(c, prefix, name, values[0], after);
    lemma_absent_key(c, prefix + name);
    lemma_bind_last(c, prefix + name, seq![values[0]]);
    assert forall|i: int| 0 <= i < fewer.len() implies plain_value(#[trigger] fewer[i]) by {
        assert(fewer[i] == values[i + 1]);
    }
    lemma_more_values(c, prefix, name, seq![values[0]], fewer, rest);
    assert(seq![values[0]] + fewer =~= values);
}

proof fn lemma_settings_from(c: Keys, current: Seq<char>, prefix: Seq<char>, i: int)
    requires
        storable_settings(c),
        0 <= i <= c.len(),
        current.len() > 0 ==> prefix == key_prefix(current),
    ensures
        settings_with(
            c.take(i),
            prefix,
            line_list(settings_text(c.subrange(i, c.len() as int), current)),
        ) == c,
    decreases c.len() - i,
{
    let left = c.subrange(i, c.len() as int);
    if i == c.len() {
        assert(left =~= seq![]);
        assert(line_list(settings_text(left, current)) =~= seq![]);
        assert(c.take(i) =~= c);
    } else {
        let (key, values) = c[i];
        assert(left[0] == c[i]);
        assert(proper_key(c[i].0));
        lemma_key_split(key);
        let (heading, name) = split_key(key);
        let next = left.subrange(1, left.len() as int);
        assert(next =~= c.subrange(i + 1, c.len() as int));
        let rest = settings_text(next, heading);
        let head = if heading != current {
            "["@ + heading + "]\n"@
        } else {
            ""@
        };
        let body = value_lines(name, values) + rest;
        assert(settings_text(left, current) =~= head + body);
        reveal_strlit("");
        let p = key_prefix(heading);
        assert(settings_with(c.take(i), prefix, line_list(head + body)) == settings_with(
            c.take(i),
            p,
            line_list(body),
        )) by {
            if heading != current {
                lemma_heading_step(c.take(i), prefix, heading, body);
            } else {
                assert(head + body =~= body);
            }
        }
        assert forall|k: int| 0 <= k < c.take(i).len() implies before(
            #[trigger] c.take(i)[k].0,
            key,
        ) by {
            assert(c.take(i)[k] == c[k]);
            assert(c[i].0 == key);
        }
        assert(values.len() > 1 ==> i + 1 < MAX_KEYS) by {
            if i + 1 >= MAX_KEYS {
                assert(c.last() == c[i]);
            }
        }
        lemma_key_values(c.take(i), p, name, values, rest);
        assert(c.take(i).push((key, values)) =~= c.take(i + 1));
        lemma_settings_from(c, heading, p, i + 1);
    }
}

/// Settings that can be written are read back as they were.
pub proof fn lemma_settings_read_back(c: Keys)
    requires
        storable_settings(c),
    ensures
        settings_of(loose_text(settings_bytes(c))) == c,
{
    reveal_strlit("");
    lemma_text_round_trip(settings_text(c, ""@));
    lemma_settings_from(c, ""@, ""@, 0);
    assert(c.take(0) =~= seq![]);
    assert(c.subrange(0, c.len() as int) =~= c);
}

} // verus!
