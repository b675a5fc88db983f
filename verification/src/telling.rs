//! What logs, descriptions and dates tell: which commits are selected, what placeholders stand for, which
//! tag is nearest, and what day it was.

use vstd::arithmetic::div_mod::lemma_mod_multiples_vanish;
use vstd::prelude::*;

use crate::common::{covered, tree_or_empty};
use crate::compare::changed_paths;
use crate::dates::{civil_date, civil_days, lemma_civil_round_trip, moment_of};
use crate::deeds::lemma_changed_paths;
use crate::history::Listed;
use crate::logging::{parent_files, portion, signs_of, sifted, touches, wanted, LogWish};
use crate::numbers::signed_decimal;
use crate::objects::short_id;
use crate::order::{lemma_lookup_bind, lookup};
use crate::patterns::found_in;
use crate::pretty::{expanded_from, expansion, person_field, simple_field, step_at, Entry};
use crate::records::subject_of;
use crate::repo::reference_of;
use crate::reporting::{counted_author, ledger_of, nearest_tag, tags_by_commit};
use crate::system::Machine;
use crate::text::joined;

verus! {

// ---------------------------------------------------------------------------
// Which commits are selected
// ---------------------------------------------------------------------------

/// Whether a commit changes something at or below one of the paths, against its first parent.
pub open spec fn changes_below(m: Machine, root: Seq<char>, e: Listed, paths: Seq<Seq<char>>) -> bool {
    exists|path: Seq<char>| #[trigger]
        covered(paths, path) && lookup(parent_files(m, root, e.1), path) != lookup(tree_or_empty(m, root, e.0), path)
}

proof fn lemma_touches(m: Machine, root: Seq<char>, e: Listed, paths: Seq<Seq<char>>)
    ensures
        touches(m, root, e, paths) <==> changes_below(m, root, e, paths),
{
    let before = parent_files(m, root, e.1);
    let after = tree_or_empty(m, root, e.0);
    let v = changed_paths(before, after, paths);
    if v.len() > 0 {
        lemma_changed_paths(before, after, paths, v[0]);
        assert(v.contains(v[0]));
        assert(covered(paths, v[0]));
    }
    if changes_below(m, root, e, paths) {
        let path = choose|path: Seq<char>| #[trigger]
            covered(paths, path) && lookup(before, path) != lookup(after, path);
        lemma_changed_paths(before, after, paths, path);
        assert(v.contains(path));
    }
}

proof fn lemma_sifted_contains(m: Machine, root: Seq<char>, x: LogWish, v: Seq<Listed>, e: Listed)
    ensures
        sifted(m, root, x, v).contains(e) <==> v.contains(e) && wanted(x, e.1, signs_of(m, root, x, e)),
    decreases v.len(),
{
    let out = sifted(m, root, x, v);
    if v.len() > 0 {
        let less = v.drop_last();
        let a = sifted(m, root, x, less);
        lemma_sifted_contains(m, root, x, less, e);
        if v.contains(e) && wanted(x, e.1, signs_of(m, root, x, e)) {
            let i = choose|i: int| 0 <= i < v.len() && v[i] == e;
            if i < less.len() {
                assert(less[i] == e);
                let k = choose|k: int| 0 <= k < a.len() && a[k] == e;
                assert(out[k] == e);
            } else {
                assert(out.last() == e);
            }
        }
        if out.contains(e) {
            let k = choose|k: int| 0 <= k < out.len() && out[k] == e;
            if k < a.len() {
                assert(a[k] == e);
                let i = choose|i: int| 0 <= i < less.len() && less[i] == e;
                assert(v[i] == e);
            } else {
                assert(v[v.len() - 1] == e);
            }
        }
    }
}

/// What a log selects, where the contents of changes are not searched: exactly the commits that are no
/// merge, or nothing else, where that is asked for; whose author and message hold what is asked for; that
/// are from after the one moment and up to the other; and that change one of the paths.
pub proof fn lemma_log_selects(m: Machine, root: Seq<char>, x: LogWish, v: Seq<Listed>, e: Listed)
    requires
        x.pickaxe is None,
        x.changed_lines is None,
    ensures
        sifted(m, root, x, v).contains(e) <==> {
            &&& v.contains(e)
            &&& x.no_merges ==> e.1.parents.len() <= 1
            &&& x.merges_only ==> e.1.parents.len() >= 2
            &&& x.author matches Some(p) ==> found_in(p, x.ignore_case, e.1.author_name) || found_in(
                p,
                x.ignore_case,
                e.1.author_email,
            )
            &&& x.message matches Some(p) ==> found_in(p, x.ignore_case, e.1.message)
            &&& x.since matches Some(t) ==> t < e.1.timestamp
            &&& x.until matches Some(t) ==> e.1.timestamp <= t
            &&& x.paths.len() > 0 ==> changes_below(m, root, e, x.paths)
        },
{
    lemma_sifted_contains(m, root, x, v, e);
    lemma_touches(m, root, e, x.paths);
}

/// A log leaves out as many commits from the start as it is asked to skip and then lists no more than
/// its limit, in the order in which they come or the reverse.
pub proof fn lemma_portion(v: Seq<Listed>, skip: int, limit: int, i: int)
    requires
        skip >= 0,
        limit >= 0,
    ensures
        portion(v, skip, limit, false).len() == (if v.len() <= skip {
            0
        } else if v.len() - skip <= limit {
            v.len() - skip
        } else {
            limit
        }),
        0 <= i < portion(v, skip, limit, false).len() ==> portion(v, skip, limit, false)[i] == v[skip + i],
        portion(v, skip, limit, true).len() == portion(v, skip, limit, false).len(),
        0 <= i < portion(v, skip, limit, true).len() ==> portion(v, skip, limit, true)[i] == portion(
            v,
            skip,
            limit,
            false,
        )[portion(v, skip, limit, false).len() - 1 - i],
{
}

// ---------------------------------------------------------------------------
// What placeholders stand for
// ---------------------------------------------------------------------------

/// Whether a text holds no percent sign.
pub open spec fn plain(s: Seq<char>) -> bool {
    forall|i: int| 0 <= i < s.len() ==> (#[trigger] s[i]) != '%'
}

/// Plain characters of a template stand for themselves.
proof fn lemma_plain_run(e: Entry, f: Seq<char>, i: int, k: int, out: Seq<char>)
    requires
        0 <= i <= k <= f.len(),
        forall|x: int| i <= x < k ==> (#[trigger] f[x]) != '%',
    ensures
        expanded_from(e, f, i, out) == expanded_from(e, f, k, out + f.subrange(i, k)),
    decreases k - i,
{
    if i < k {
        assert(f[i] != '%');
        assert(step_at(e, f, i) == Some((seq![f[i]], i + 1)));
        lemma_plain_run(e, f, i + 1, k, out + seq![f[i]]);
        assert(out + seq![f[i]] + f.subrange(i + 1, k) =~= out + f.subrange(i, k));
    } else {
        assert(out + f.subrange(i, k) =~= out);
    }
}

proof fn lemma_one_placeholder(e: Entry, p: Seq<char>, mark: Seq<char>, q: Seq<char>, text: Seq<char>)
    requires
        plain(p),
        plain(q),
        mark.len() > 0,
        ({
            let f = p + mark + q;
            step_at(e, f, p.len() as int) == Some((text, p.len() as int + mark.len()))
        }),
    ensures
        expansion(e, p + mark + q) == Some(p + text + q),
{
    let f = p + mark + q;
    let a = p.len() as int;
    let b = a + mark.len();
    reveal_strlit("");
    assert forall|x: int| 0 <= x < a implies (#[trigger] f[x]) != '%' by {
        assert(f[x] == p[x]);
    }
    assert forall|x: int| b <= x < f.len() implies (#[trigger] f[x]) != '%' by {
        assert(f[x] == q[x - b]);
    }
    lemma_plain_run(e, f, 0, a, ""@);
    assert(f.subrange(0, a) =~= p);
    assert(""@ + p =~= p);
    lemma_plain_run(e, f, b, f.len() as int, p + text);
    assert(f.subrange(b, f.len() as int) =~= q);
}

proof fn lemma_letter(e: Entry, p: Seq<char>, c: char, q: Seq<char>, text: Seq<char>)
    requires
        plain(p),
        plain(q),
        c != 'a',
        c != 'c',
        c != 'C',
        c != 'x',
        simple_field(e, c) == Some(text),
    ensures
        expansion(e, p + seq!['%', c] + q) == Some(p + text + q),
{
    let f = p + seq!['%', c] + q;
    let n = p.len() as int;
    assert(f[n] == '%' && f[n + 1] == c);
    lemma_one_placeholder(e, p, seq!['%', c], q, text);
}

proof fn lemma_letters(e: Entry, p: Seq<char>, c: char, q: Seq<char>, text: Seq<char>)
    requires
        plain(p),
        plain(q),
        person_field(e, c) == Some(text),
    ensures
        expansion(e, p + seq!['%', 'a', c] + q) == Some(p + text + q),
        expansion(e, p + seq!['%', 'c', c] + q) == Some(p + text + q),
{
    let f = p + seq!['%', 'a', c] + q;
    let g = p + seq!['%', 'c', c] + q;
    let n = p.len() as int;
    assert(f[n] == '%' && f[n + 1] == 'a' && f[n + 2] == c);
    assert(g[n] == '%' && g[n + 1] == 'c' && g[n + 2] == c);
    lemma_one_placeholder(e, p, seq!['%', 'a', c], q, text);
    lemma_one_placeholder(e, p, seq!['%', 'c', c], q, text);
}

/// What the placeholders of a template stand for, between plain text that stands for itself: `%H` the id
/// of the commit, `%h` its first characters, `%P` its parents, `%s` the first line of its message, `%an`
/// and `%ae` who wrote it, `%at` when, `%n` a line end and `%%` a percent sign.
pub proof fn lemma_placeholders(e: Entry, p: Seq<char>, q: Seq<char>)
    requires
        plain(p),
        plain(q),
    ensures
        expansion(e, p) == Some(p),
        expansion(e, p + seq!['%', 'H'] + q) == Some(p + e.id + q),
        expansion(e, p + seq!['%', 'h'] + q) == Some(
            p + (if e.id.len() < 7 {
                e.id
            } else {
                e.id.subrange(0, 7)
            }) + q,
        ),
        expansion(e, p + seq!['%', 'P'] + q) == Some(p + joined(e.note.parents, " "@) + q),
        expansion(e, p + seq!['%', 's'] + q) == Some(p + subject_of(e.note.message) + q),
        expansion(e, p + seq!['%', 'a', 'n'] + q) == Some(p + e.note.author_name + q),
        expansion(e, p + seq!['%', 'a', 'e'] + q) == Some(p + e.note.author_email + q),
        expansion(e, p + seq!['%', 'a', 't'] + q) == Some(p + signed_decimal(e.note.timestamp) + q),
        expansion(e, p + seq!['%', 'n'] + q) == Some(p + seq!['\n'] + q),
        expansion(e, p + seq!['%', '%'] + q) == Some(p + seq!['%'] + q),
{
    reveal_strlit("");
    reveal_strlit("\n");
    reveal_strlit("%");
    assert("\n"@ =~= seq!['\n']);
    assert("%"@ =~= seq!['%']);
    lemma_plain_run(e, p, 0, p.len() as int, ""@);
    assert(""@ + p.subrange(0, p.len() as int) =~= p);
    lemma_letter(e, p, 'H', q, e.id);
    lemma_letter(e, p, 'h', q, short_id(e.id));
    if e.id.len() >= 7 {
        assert(e.id.take(7) =~= e.id.subrange(0, 7));
    }
    lemma_letter(e, p, 'P', q, joined(e.note.parents, " "@));
    lemma_letter(e, p, 's', q, subject_of(e.note.message));
    lemma_letters(e, p, 'n', q, e.note.author_name);
    lemma_letters(e, p, 'e', q, e.note.author_email);
    lemma_letters(e, p, 't', q, signed_decimal(e.note.timestamp));
    lemma_letter(e, p, 'n', q, "\n"@);
    lemma_letter(e, p, '%', q, "%"@);
}

// ---------------------------------------------------------------------------
// Tags and authors
// ---------------------------------------------------------------------------

/// The nearest tag is the first along the list: its commit has it, and no commit before has any. Where
/// there is none, no commit of the list has a tag.
pub proof fn lemma_nearest_tag(tags: Seq<(Seq<char>, Seq<char>)>, v: Seq<Listed>, i: int)
    requires
        0 <= i <= v.len(),
    ensures
        match nearest_tag(tags, v, i) {
            Some((d, tag)) => {
                &&& i <= d < v.len()
                &&& lookup(tags, v[d].0) == Some(tag)
                &&& forall|k: int| i <= k < d ==> lookup(tags, (#[trigger] v[k]).0) is None
            },
            None => forall|k: int| i <= k < v.len() ==> lookup(tags, (#[trigger] v[k]).0) is None,
        },
    decreases v.len() - i,
{
    if i < v.len() && lookup(tags, v[i].0) is None {
        lemma_nearest_tag(tags, v, i + 1);
    }
}

/// A commit has a tag exactly where one of the tags stands for it, and then one that does.
pub proof fn lemma_tags_by_commit(m: Machine, root: Seq<char>, names: Seq<Seq<char>>, id: Seq<char>)
    ensures
        match lookup(tags_by_commit(m, root, true, names), id) {
            Some(tag) => names.contains(tag) && reference_of(m, root, "refs/tags/"@ + tag) == Some(id),
            None => forall|k: int|
                0 <= k < names.len() ==> reference_of(m, root, "refs/tags/"@ + #[trigger] names[k]) != Some(id),
        },
    decreases names.len(),
{
    if names.len() > 0 {
        let less = names.drop_last();
        let tag = names.last();
        lemma_tags_by_commit(m, root, less, id);
        let tags = tags_by_commit(m, root, true, less);
        assert(names[names.len() - 1] == tag);
        if let Some(at) = reference_of(m, root, "refs/tags/"@ + tag) {
            lemma_lookup_bind(tags, at, tag, id);
        }
        match lookup(tags_by_commit(m, root, true, names), id) {
            Some(found) => {
                if found != tag || reference_of(m, root, "refs/tags/"@ + tag) != Some(id) {
                    let k = choose|k: int| 0 <= k < less.len() && less[k] == found;
                    assert(names[k] == found);
                }
            },
            None => {
                assert forall|k: int| 0 <= k < names.len() implies reference_of(
                    m,
                    root,
                    "refs/tags/"@ + #[trigger] names[k],
                ) != Some(id) by {
                    if k < less.len() {
                        assert(less[k] == names[k]);
                    }
                }
            },
        }
    }
}

/// The subjects of the commits that an author is counted for, in the order of the commits.
pub open spec fn subjects_by(v: Seq<Listed>, author: Seq<char>, with_email: bool) -> Seq<Seq<char>> {
    v.filter(|e: Listed| counted_author(e.1, with_email) == author).map_values(
        |e: Listed| subject_of(e.1.message),
    )
}

/// The report by authors holds for each of them the subjects of all of their commits, in the order of the
/// commits, and has nothing for anyone else.
pub proof fn lemma_ledger(v: Seq<Listed>, with_email: bool, author: Seq<char>)
    ensures
        lookup(ledger_of(v, with_email), author) == (if subjects_by(v, author, with_email).len() == 0 {
            None
        } else {
            Some(subjects_by(v, author, with_email))
        }),
    decreases v.len(),
{
    reveal_with_fuel(Seq::filter, 2);
    let pred = |e: Listed| counted_author(e.1, with_email) == author;
    if v.len() > 0 {
        let less = v.drop_last();
        lemma_ledger(less, with_email, author);
        let ledger = ledger_of(less, with_email);
        let at = counted_author(v.last().1, with_email);
        let subject = subject_of(v.last().1.message);
        let list = match lookup(ledger, at) {
            Some(list) => list.push(subject),
            None => seq![subject],
        };
        lemma_lookup_bind(ledger, at, list, author);
        let all = subjects_by(v, author, with_email);
        let before = subjects_by(less, author, with_email);
        if at == author {
            assert(v.filter(pred) =~= less.filter(pred).push(v.last()));
            assert(all =~= before.push(subject));
            if before.len() == 0 {
                assert(before.push(subject) =~= seq![subject]);
            }
        } else {
            assert(v.filter(pred) =~= less.filter(pred));
            assert(all =~= before);
        }
    }
}

// ---------------------------------------------------------------------------
// Days
// ---------------------------------------------------------------------------

/// Whether a year has a day more.
pub open spec fn leap(year: int) -> bool {
    year % 4 == 0 && (year % 100 != 0 || year % 400 == 0)
}

/// How many days a month has.
pub open spec fn month_length(year: int, month: int) -> int {
    if month == 2 {
        if leap(year) {
            29
        } else {
            28
        }
    } else if month == 4 || month == 6 || month == 9 || month == 11 {
        30
    } else {
        31
    }
}

/// The calendar: the first of January 1970 is day zero, each day of a month is one after the one before,
/// each month starts when the one before has had its days, and each year when December has.
#[verifier::spinoff_prover]
#[verifier::rlimit(60)]
pub proof fn lemma_calendar(year: int, month: int, day: int)
    requires
        1 <= month <= 12,
    ensures
        civil_days(1970, 1, 1) == 0,
        civil_days(year, month, day + 1) == civil_days(year, month, day) + 1,
        month < 12 ==> civil_days(year, month + 1, 1) == civil_days(year, month, 1) + month_length(year, month),
        civil_days(year + 1, 1, 1) == civil_days(year, 12, 1) + 31,
{
    if month == 2 {
        lemma_february(year);
    }
}

/// What is left of a year by four, by a hundred and by four hundred depends on its place among four
/// hundred.
proof fn lemma_leap(year: int, q: int, x: int)
    requires
        year == q * 400 + x,
        0 <= x < 400,
    ensures
        leap(year) <==> x % 4 == 0 && (x % 100 != 0 || x == 0),
{
    lemma_mod_multiples_vanish(100 * q, x, 4);
    lemma_mod_multiples_vanish(4 * q, x, 100);
    lemma_mod_multiples_vanish(q, x, 400);
    assert(4 * (100 * q) + x == year);
    assert(100 * (4 * q) + x == year);
    assert(400 * q + x == year);
}

/// How quotients grow by one step.
proof fn lemma_quotients(w: int)
    requires
        0 <= w < 399,
    ensures
        (w + 1) / 4 == w / 4 + (if (w + 1) % 4 == 0 {
            1int
        } else {
            0
        }),
        (w + 1) / 100 == w / 100 + (if (w + 1) % 100 == 0 {
            1int
        } else {
            0
        }),
        (w + 1) % 100 == 0 ==> (w + 1) % 4 == 0,
{
}

/// February ends where March starts.
proof fn lemma_february(year: int)
    ensures
        civil_days(year, 3, 1) == civil_days(year, 2, 1) + month_length(year, 2),
{
    let y = year - 1;
    let w = y % 400;
    let q = y / 400;
    let early = q * 146_097 + w * 365 + w / 4 - w / 100 + 337 - 719_468;
    assert(civil_days(year, 2, 1) == early);
    if w == 399 {
        assert(year == (q + 1) * 400);
        assert(year % 400 == 0 && year / 400 == q + 1);
        assert(civil_days(year, 3, 1) == (q + 1) * 146_097 - 719_468);
        lemma_leap(year, q + 1, 0);
    } else {
        let x = w + 1;
        assert(year == q * 400 + x);
        assert(year % 400 == x && year / 400 == q);
        assert(civil_days(year, 3, 1) == q * 146_097 + x * 365 + x / 4 - x / 100 - 719_468);
        lemma_quotients(w);
        lemma_leap(year, q, x);
    }
}

/// A moment is taken apart into a day and a time of that day that come to it again.
#[verifier::spinoff_prover]
#[verifier::rlimit(40)]
pub proof fn lemma_moment(timestamp: int)
    requires
        -0x8000_0000_0000_0000 <= timestamp < 0x8000_0000_0000_0000,
    ensures
        ({
            let t = moment_of(timestamp);
            &&& civil_days(t.year as int, t.month as int, t.day as int) * 86_400 + t.hour * 3_600 + t.minute * 60
                + t.second == timestamp
            &&& t.hour < 24 && t.minute < 60 && t.second < 60
            &&& 1 <= t.month <= 12
            &&& t.weekday == (civil_days(t.year as int, t.month as int, t.day as int) + 4) % 7
        }),
{
    let days = timestamp / 86_400;
    let d = civil_date(days);
    lemma_civil_round_trip(days);
    assert(-0x4000_0000_0000_0000 <= d.year < 0x4000_0000_0000_0000);
}

} // verus!
