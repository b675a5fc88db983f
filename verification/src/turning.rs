//! The order of a log: `--reverse` turns it round, and changes nothing else.

use vstd::prelude::*;

use crate::console::{printed, Done, Objection, Screen};
use crate::dates::clock_seconds;
use crate::flags::{all_within, expanded, is_cluster, next_word, word_of, Pass, Word};
use crate::history::Listed;
use crate::logging::{
    block_text, diff_part, log_done, log_header, log_operand, log_plain, log_text, log_valued, log_wants, log_within, log_words,
    plain_log, portion, refused_pattern, sifted, signs_of, wanted, LogWish,
};
use crate::numbers::{is_digit, read_unsigned, without_plus};
use crate::pretty::{
    blank_entry, decoration_of, expanded_from, expansion, set_apart, step_at, usable_layout, Entry, Layout,
};
use crate::repo::repo_root;
use crate::revset::{history_of, starting_points};
use crate::syntax::{pass_for, value_for, Want};
use crate::system::Machine;
use crate::text::{
    flat, holds, index_from, is_line, lemma_cut_once, lemma_find_from, lemma_index_from, lemma_last_line, line_list,
    occurs_at, starts,
};

verus! {

/// The commits that a log lists, in the order of listing. There are none where the history cannot be
/// read or a pattern is refused.
pub open spec fn log_commits(m: Machine, root: Seq<char>, x: LogWish) -> Option<Seq<Listed>> {
    match history_of(m, root, starting_points(m, root, x.revisions, x.all_references), x.first_parent) {
        None => None,
        Some(v) => if refused_pattern(x) is Some {
            None
        } else {
            Some(portion(sifted(m, root, x, v), x.skip, x.limit, x.reverse))
        },
    }
}

/// What is asked for, in the reverse order.
pub open spec fn reversed(x: LogWish) -> LogWish {
    LogWish { reverse: true, ..x }
}

proof fn lemma_same_sifted(m: Machine, root: Seq<char>, x: LogWish, v: Seq<Listed>)
    ensures
        sifted(m, root, reversed(x), v) == sifted(m, root, x, v),
    decreases v.len(),
{
    if v.len() > 0 {
        lemma_same_sifted(m, root, x, v.drop_last());
        assert(signs_of(m, root, reversed(x), v.last()) == signs_of(m, root, x, v.last()));
        assert(wanted(reversed(x), v.last().1, signs_of(m, root, x, v.last())) == wanted(
            x,
            v.last().1,
            signs_of(m, root, x, v.last()),
        ));
    }
}

/// The limit comes before the turn: the reverse order lists the same commits, turned round, and no
/// more of them than the limit.
pub proof fn lemma_commits_turned(m: Machine, root: Seq<char>, x: LogWish)
    requires
        !x.reverse,
        0 <= x.skip,
        0 <= x.limit,
    ensures
        log_commits(m, root, reversed(x)) is Some == log_commits(m, root, x) is Some,
        log_commits(m, root, x) is Some ==> log_commits(m, root, reversed(x))->0 == log_commits(
            m,
            root,
            x,
        )->0.reverse() && log_commits(m, root, x)->0.len() <= x.limit,
{
    assert(refused_pattern(reversed(x)) == refused_pattern(x));
    let revisions = starting_points(m, root, x.revisions, x.all_references);
    if let Some(v) = history_of(m, root, revisions, x.first_parent) {
        lemma_same_sifted(m, root, x, v);
    }
}

// ---------------------------------------------------------------------------
// What is printed
// ---------------------------------------------------------------------------

/// What is printed of each of the commits.
pub open spec fn blocks(m: Machine, root: Seq<char>, x: LogWish, v: Seq<Listed>) -> Seq<Seq<char>> {
    v.map_values(|e: Listed| block_text(m, root, x, e, true))
}

proof fn lemma_blocks(m: Machine, root: Seq<char>, x: LogWish, v: Seq<Listed>)
    requires
        !x.graph,
        !set_apart(x.pretty),
    ensures
        log_text(m, root, x, v).0 == flat(blocks(m, root, x, v)),
    decreases v.len(),
{
    let all = blocks(m, root, x, v);
    if v.len() > 0 {
        lemma_blocks(m, root, x, v.drop_last());
        assert(all.drop_last() =~= blocks(m, root, x, v.drop_last()));
        assert(all.last() == block_text(m, root, x, v.last(), true));
        assert(block_text(m, root, x, v.last(), true) == block_text(m, root, x, v.last(), false));
    } else {
        reveal_strlit("");
        assert(""@ =~= seq![]);
    }
}

proof fn lemma_same_blocks(m: Machine, root: Seq<char>, x: LogWish, v: Seq<Listed>)
    ensures
        blocks(m, root, reversed(x), v.reverse()) == blocks(m, root, x, v).reverse(),
{
    let y = reversed(x);
    assert forall|e: Listed| block_text(m, root, y, e, true) == block_text(m, root, x, e, true) by {
        assert(log_header(m, root, y, e) == log_header(m, root, x, e));
        assert(diff_part(m, root, y, e, x.stat) == diff_part(m, root, x, e, x.stat));
        assert(diff_part(m, root, y, e, x.patch) == diff_part(m, root, x, e, x.patch));
    }
    assert(blocks(m, root, y, v.reverse()) =~= blocks(m, root, x, v).reverse());
}

/// Where entries are not set apart by lines between them and no rail is drawn, the reverse order
/// prints the same for each commit, turned round.
pub proof fn lemma_print_turned(m: Machine, s: Screen, root: Seq<char>, x: LogWish)
    requires
        !x.reverse,
        0 <= x.skip,
        0 <= x.limit,
        !x.graph,
        !set_apart(x.pretty),
        log_commits(m, root, x) is Some,
    ensures
        ({
            let lines = blocks(m, root, x, log_commits(m, root, x)->0);
            &&& lines.len() <= x.limit
            &&& log_within(m, s, root, x) == (Done { m, s: printed(s, flat(lines)), status: 0 })
            &&& log_within(m, s, root, reversed(x)) == (Done {
                m,
                s: printed(s, flat(lines.reverse())),
                status: 0,
            })
        }),
{
    reveal(log_within);
    let v = log_commits(m, root, x)->0;
    lemma_commits_turned(m, root, x);
    lemma_blocks(m, root, x, v);
    lemma_blocks(m, root, reversed(x), v.reverse());
    lemma_same_blocks(m, root, x, v);
}

// ---------------------------------------------------------------------------
// What is asked for
// ---------------------------------------------------------------------------

proof fn lemma_no_clusters(args: Seq<Seq<char>>)
    ensures
        expanded(args, ""@) == args,
    decreases args.len(),
{
    reveal_strlit("");
    if args.len() > 0 && args[0] != "--"@ {
        let rest = args.subrange(1, args.len() as int);
        lemma_no_clusters(rest);
        if is_cluster(args[0], ""@) {
            assert(all_within(args[0], 1, ""@));
            assert(""@.contains(args[0][1]));
        }
        assert(seq![args[0]] + rest =~= args);
    }
}

proof fn lemma_reverse_word(x: LogWish)
    ensures
        "--reverse"@ != "--"@,
        word_of("--reverse"@, "nSG"@) == (Word::Option { name: "--reverse"@, attached: None }),
        log_wants("--reverse"@) == Want::Attached,
        log_plain(x, "--reverse"@, None) == Ok::<LogWish, Objection>(reversed(x)),
{
    let w = "--reverse"@;
    reveal_strlit("--reverse");
    reveal_strlit("--");
    reveal_strlit("-");
    reveal_strlit("-n");
    reveal_strlit("-S");
    reveal_strlit("-G");
    reveal_strlit("--max-count");
    reveal_strlit("--skip");
    reveal_strlit("--since");
    reveal_strlit("--after");
    reveal_strlit("--until");
    reveal_strlit("--before");
    reveal_strlit("--grep");
    reveal_strlit("--author");
    reveal_strlit("--oneline");
    assert(w.len() == 9);
    assert(w[2] == 'r');
    assert("--max-count"@.len() == 11);
    assert("--skip"@.len() == 6);
    assert("--since"@.len() == 7);
    assert("--after"@.len() == 7);
    assert("--until"@.len() == 7);
    assert("--before"@.len() == 8);
    assert("--grep"@.len() == 6);
    assert("--author"@.len() == 8);
    assert("--oneline"@[2] == 'o');
    assert(w.subrange(0, 1) =~= "-"@);
    assert(w.subrange(0, 2) =~= "--"@);
    let long = w.subrange(2, 9);
    lemma_index_from(long, '=', 0);
    if let Some(i) = index_from(long, '=', 0) {
        assert(long[i] == w[i + 2]);
    }
}

proof fn lemma_reverse_behind(m: Machine, root: Seq<char>, p: Pass, x: LogWish)
    requires
        0 <= p.at <= p.args.len(),
        !p.operands_only,
        !p.args.contains("--"@),
        p.valued == "nSG"@,
        log_words(m, root, p, x) is Ok,
    ensures
        log_words(m, root, Pass { args: p.args.push("--reverse"@), ..p }, x) == Ok::<
            LogWish,
            Objection,
        >(reversed(log_words(m, root, p, x)->Ok_0)),
    decreases p.args.len() - p.at,
{
    reveal(log_words);
    let more = p.args.push("--reverse"@);
    let wide = Pass { args: more, ..p };
    if p.at >= p.args.len() {
        lemma_reverse_word(x);
        assert(more[p.at] == "--reverse"@);
        let after = Pass { at: p.at + 1, ..wide };
        assert(next_word(wide) == (
            Some((Word::Option { name: "--reverse"@, attached: None })),
            after,
        ));
        assert(next_word(after).0 is None);
        assert(log_words(m, root, after, reversed(x)) == Ok::<LogWish, Objection>(
            reversed(x),
        ));
    } else {
        assert(more[p.at] == p.args[p.at]);
        assert(p.args.contains(p.args[p.at]));
        let (word, q) = next_word(p);
        let wide_q = Pass { args: more, ..q };
        assert(next_word(wide) == (word, wide_q));
        match word {
            Some(Word::Operand(value)) => {
                let y = log_operand(m, root, x, q.operands_only, value)->Ok_0;
                lemma_reverse_behind(m, root, q, y);
            },
            Some(Word::Option { name, attached }) => {
                let (value, after) = value_for(log_wants(name), q, attached);
                if log_wants(name) == Want::Needed {
                    if value is None {
                        assert(log_valued(x, name, value, clock_seconds(m)) is Err);
                    }
                    if attached is None {
                        assert(more[q.at] == p.args[q.at]);
                    }
                    assert(value_for(log_wants(name), wide_q, attached) == (
                        value,
                        Pass { args: more, ..after },
                    ));
                    let y = log_valued(x, name, value, clock_seconds(m))->Ok_0;
                    lemma_reverse_behind(m, root, after, y);
                } else {
                    let y = log_plain(x, name, value)->Ok_0;
                    lemma_reverse_behind(m, root, after, y);
                }
            },
            None => {},
        }
    }
}

/// `--reverse` behind arguments without `--` asks for the same in the reverse order.
pub proof fn lemma_reverse_asked(m: Machine, root: Seq<char>, args: Seq<Seq<char>>)
    requires
        !args.contains("--"@),
        log_words(m, root, pass_for(args, ""@, "nSG"@), plain_log()) is Ok,
    ensures
        log_words(m, root, pass_for(args.push("--reverse"@), ""@, "nSG"@), plain_log()) == Ok::<
            LogWish,
            Objection,
        >(reversed(log_words(m, root, pass_for(args, ""@, "nSG"@), plain_log())->Ok_0)),
{
    lemma_no_clusters(args);
    lemma_no_clusters(args.push("--reverse"@));
    lemma_reverse_behind(m, root, pass_for(args, ""@, "nSG"@), plain_log());
}

/// `git log` with `--reverse` prints what it prints without, turned round commit by commit: the limit
/// keeps the same commits. This holds where entries are not set apart by lines between them and no
/// rail is drawn.
pub proof fn lemma_log_turned(m: Machine, s: Screen, root: Seq<char>, args: Seq<Seq<char>>, x: LogWish)
    requires
        repo_root(m) == Some(root),
        !args.contains("--"@),
        log_words(m, root, pass_for(args, ""@, "nSG"@), plain_log()) == Ok::<
            LogWish,
            Objection,
        >(x),
        !x.reverse,
        0 <= x.skip,
        0 <= x.limit,
        !x.graph,
        !set_apart(x.pretty),
        log_commits(m, root, x) is Some,
    ensures
        ({
            let lines = blocks(m, root, x, log_commits(m, root, x)->0);
            &&& lines.len() <= x.limit
            &&& log_done(m, s, args) == (Done { m, s: printed(s, flat(lines)), status: 0 })
            &&& log_done(m, s, args.push("--reverse"@)) == (Done {
                m,
                s: printed(s, flat(lines.reverse())),
                status: 0,
            })
        }),
{
    lemma_reverse_asked(m, root, args);
    lemma_print_turned(m, s, root, x);
}

// ---------------------------------------------------------------------------
// Lists of ids
// ---------------------------------------------------------------------------

/// What `--format=%H -n COUNT` asks for.
pub open spec fn ids_wish(limit: int) -> LogWish {
    LogWish { pretty: Layout::Custom { format: "%H"@, terminated: true }, limit, ..plain_log() }
}

proof fn lemma_id_format(e: Entry)
    ensures
        expansion(e, "%H"@) == Some(e.id),
{
    let f = "%H"@;
    reveal_strlit("%H");
    reveal_strlit("");
    assert(f.len() == 2 && f[0] == '%' && f[1] == 'H');
    assert(step_at(e, f, 0) == Some((e.id, 2int)));
    assert(""@ + e.id =~= e.id);
    assert(expanded_from(e, f, 2, ""@ + e.id) == Some(""@ + e.id));
}

proof fn lemma_id_layout()
    ensures
        usable_layout("%H"@, true) == Some((Layout::Custom { format: "%H"@, terminated: true })),
{
    let f = "%H"@;
    reveal_strlit("%H");
    reveal_strlit("");
    reveal_strlit("%");
    reveal_strlit("oneline");
    reveal_strlit("short");
    reveal_strlit("medium");
    reveal_strlit("full");
    reveal_strlit("fuller");
    reveal_strlit("format:");
    reveal_strlit("tformat:");
    assert(f.len() == 2);
    assert("oneline"@.len() == 7 && "short"@.len() == 5 && "medium"@.len() == 6 && "full"@.len() == 4
        && "fuller"@.len() == 6 && ""@.len() == 0);
    assert("format:"@.len() == 7 && "tformat:"@.len() == 8);
    assert(occurs_at(f, "%"@, 0)) by {
        assert(f.subrange(0, 1) =~= "%"@);
    }
    lemma_find_from(f, "%"@, 0);
    assert(holds(f, "%"@));
    lemma_id_format(blank_entry());
}

proof fn lemma_format_word()
    ensures
        "--format=%H"@ != "--"@,
        word_of("--format=%H"@, "nSG"@) == (Word::Option {
            name: "--format"@,
            attached: Some("%H"@),
        }),
        log_wants("--format"@) == Want::Attached,
{
    let w = "--format=%H"@;
    reveal_strlit("--format=%H");
    reveal_strlit("--format");
    reveal_strlit("%H");
    reveal_strlit("--");
    reveal_strlit("-");
    reveal_strlit("-n");
    reveal_strlit("-S");
    reveal_strlit("-G");
    reveal_strlit("--max-count");
    reveal_strlit("--skip");
    reveal_strlit("--since");
    reveal_strlit("--after");
    reveal_strlit("--until");
    reveal_strlit("--before");
    reveal_strlit("--grep");
    reveal_strlit("--author");
    assert(w.len() == 11);
    assert(w.subrange(0, 1) =~= "-"@);
    assert(w.subrange(0, 2) =~= "--"@);
    let long = w.subrange(2, 11);
    let name = seq!['f', 'o', 'r', 'm', 'a', 't'];
    assert(long =~= name + seq!['='] + "%H"@);
    lemma_cut_once(name, '=', "%H"@);
    assert("--"@ + name =~= "--format"@);
    assert("--format"@.len() == 8 && "--format"@[2] == 'f');
    assert("--before"@[2] == 'b' && "--author"@[2] == 'a');
    assert("--max-count"@.len() == 11 && "--skip"@.len() == 6 && "--since"@.len() == 7);
    assert("--after"@.len() == 7 && "--until"@.len() == 7 && "--grep"@.len() == 6);
}

proof fn lemma_format_asked(x: LogWish)
    ensures
        log_plain(x, "--format"@, Some("%H"@)) == Ok::<LogWish, Objection>(
            LogWish { pretty: Layout::Custom { format: "%H"@, terminated: true }, ..x },
        ),
{
    reveal_strlit("--format");
    reveal_strlit("--oneline");
    reveal_strlit("--reverse");
    reveal_strlit("--decorate");
    reveal_strlit("--no-decorate");
    reveal_strlit("--no-color");
    reveal_strlit("--color");
    reveal_strlit("--no-merges");
    reveal_strlit("--merges");
    reveal_strlit("--abbrev-commit");
    reveal_strlit("--first-parent");
    reveal_strlit("--all");
    reveal_strlit("-i");
    reveal_strlit("--regexp-ignore-case");
    reveal_strlit("--graph");
    reveal_strlit("--no-graph");
    reveal_strlit("--stat");
    reveal_strlit("--name-only");
    reveal_strlit("--name-status");
    reveal_strlit("-p");
    reveal_strlit("-u");
    reveal_strlit("--patch");
    let w = "--format"@;
    assert(w.len() == 8 && w[2] == 'f');
    assert("--merges"@[2] == 'm');
    assert("--oneline"@.len() == 9 && "--reverse"@.len() == 9 && "--decorate"@.len() == 10);
    assert("--no-decorate"@.len() == 13 && "--no-color"@.len() == 10 && "--color"@.len() == 7);
    assert("--no-merges"@.len() == 11 && "--abbrev-commit"@.len() == 15);
    assert("--first-parent"@.len() == 14 && "--all"@.len() == 5 && "-i"@.len() == 2);
    assert("--regexp-ignore-case"@.len() == 20 && "--graph"@.len() == 7);
    assert("--no-graph"@.len() == 10 && "--stat"@.len() == 6 && "--name-only"@.len() == 11);
    assert("--name-status"@.len() == 13 && "-p"@.len() == 2 && "-u"@.len() == 2);
    assert("--patch"@.len() == 7);
    lemma_id_layout();
}

proof fn lemma_count_word()
    ensures
        "-n"@ != "--"@,
        word_of("-n"@, "nSG"@) == (Word::Option { name: "-n"@, attached: None }),
{
    reveal_strlit("-n");
    reveal_strlit("--");
    reveal_strlit("-");
    let w = "-n"@;
    assert(w.len() == 2 && w[1] == 'n');
    assert(w.subrange(0, 1) =~= "-"@);
    assert(!starts(w, "--"@)) by {
        if starts(w, "--"@) {
            assert(w.subrange(0, 2)[1] == '-');
        }
    }
}

proof fn lemma_ids_asked(m: Machine, root: Seq<char>, count: Seq<char>, k: nat)
    requires
        read_unsigned(count, usize::MAX as nat) == Some(k),
    ensures
        !seq!["--format=%H"@, "-n"@, count].contains("--"@),
        log_words(
            m,
            root,
            pass_for(seq!["--format=%H"@, "-n"@, count], ""@, "nSG"@),
            plain_log(),
        ) == Ok::<LogWish, Objection>(ids_wish(k as int)),
{
    reveal(log_words);
    let args = seq!["--format=%H"@, "-n"@, count];
    lemma_format_word();
    lemma_count_word();
    assert(count != "--"@) by {
        reveal_strlit("--");
        if count == "--"@ {
            let digits = without_plus(count);
            assert(digits == count);
            assert(!is_digit(count[0]));
        }
    }
    assert forall|i: int| 0 <= i < args.len() implies #[trigger] args[i] != "--"@ by {}
    lemma_no_clusters(args);
    let p0 = pass_for(args, ""@, "nSG"@);
    let p1 = Pass { at: 1, ..p0 };
    let p2 = Pass { at: 2, ..p0 };
    let p3 = Pass { at: 3, ..p0 };
    let x = LogWish { pretty: Layout::Custom { format: "%H"@, terminated: true }, ..plain_log() };
    assert(args[0] == "--format=%H"@ && args[1] == "-n"@ && args[2] == count);
    lemma_format_asked(plain_log());
    assert(next_word(p0) == (
        Some((Word::Option { name: "--format"@, attached: Some("%H"@) })),
        p1,
    ));
    assert(log_words(m, root, p0, plain_log()) == log_words(m, root, p1, x));
    assert(next_word(p1) == (Some((Word::Option { name: "-n"@, attached: None })), p2));
    assert(log_wants("-n"@) == Want::Needed);
    assert(value_for(Want::Needed, p2, None) == (Some(count), p3));
    assert(log_words(m, root, p1, x) == log_words(m, root, p3, ids_wish(k as int)));
    assert(next_word(p3).0 is None);
}

/// The ids of commits, one on a line.
pub open spec fn id_lines(v: Seq<Listed>) -> Seq<Seq<char>> {
    v.map_values(|e: Listed| e.0 + "\n"@)
}

/// `git log --format=%H -n COUNT` prints the ids of the newest commits, at most so many, and with
/// `--reverse` it prints the same lines in the reverse order. Both end well.
pub proof fn lemma_newest_turned(m: Machine, s: Screen, root: Seq<char>, count: Seq<char>, k: nat)
    requires
        repo_root(m) == Some(root),
        history_of(m, root, seq!["HEAD"@], false) is Some,
        read_unsigned(count, usize::MAX as nat) == Some(k),
    ensures
        ({
            let args = seq!["--format=%H"@, "-n"@, count];
            let v = history_of(m, root, seq!["HEAD"@], false)->0;
            let lines = id_lines(portion(v, 0, k as int, false));
            &&& lines.len() <= k
            &&& log_done(m, s, args) == (Done { m, s: printed(s, flat(lines)), status: 0 })
            &&& log_done(m, s, args.push("--reverse"@)) == (Done {
                m,
                s: printed(s, flat(lines.reverse())),
                status: 0,
            })
        }),
{
    let args = seq!["--format=%H"@, "-n"@, count];
    let x = ids_wish(k as int);
    let v = history_of(m, root, seq!["HEAD"@], false)->0;
    lemma_ids_asked(m, root, count, k);
    assert(starting_points(m, root, x.revisions, x.all_references) == seq!["HEAD"@]);
    lemma_all_wanted(m, root, x, v);
    assert(log_commits(m, root, x) == Some(portion(v, 0, k as int, false)));
    lemma_log_turned(m, s, root, args, x);
    let chosen = portion(v, 0, k as int, false);
    assert(blocks(m, root, x, chosen) =~= id_lines(chosen)) by {
        assert forall|i: int| 0 <= i < chosen.len() implies blocks(m, root, x, chosen)[i] == #[trigger] id_lines(
            chosen,
        )[i] by {
            lemma_id_block(m, root, x, chosen[i]);
        }
    }
}

proof fn lemma_all_wanted(m: Machine, root: Seq<char>, x: LogWish, v: Seq<Listed>)
    requires
        x == ids_wish(x.limit),
    ensures
        sifted(m, root, x, v) == v,
    decreases v.len(),
{
    if v.len() > 0 {
        lemma_all_wanted(m, root, x, v.drop_last());
        assert(wanted(x, v.last().1, signs_of(m, root, x, v.last())));
        assert(v.drop_last().push(v.last()) =~= v);
    } else {
        assert(sifted(m, root, x, v) =~= v);
    }
}

proof fn lemma_id_block(m: Machine, root: Seq<char>, x: LogWish, e: Listed)
    requires
        x == ids_wish(x.limit),
    ensures
        block_text(m, root, x, e, true) == e.0 + "\n"@,
{
    reveal_strlit("");
    let entry = Entry {
        id: e.0,
        note: e.1,
        decoration: decoration_of(m, root, e.0),
        now: clock_seconds(m),
    };
    lemma_id_format(entry);
    assert(log_header(m, root, x, e) == e.0);
    assert(""@ + e.0 + "\n"@ + ""@ + ""@ =~= e.0 + "\n"@);
}

/// The ids of commits.
pub open spec fn ids_of(v: Seq<Listed>) -> Seq<Seq<char>> {
    v.map_values(|e: Listed| e.0)
}

proof fn lemma_lines_read_back(v: Seq<Listed>)
    requires
        forall|i: int| 0 <= i < v.len() ==> is_line((#[trigger] v[i]).0),
    ensures
        line_list(flat(id_lines(v))) == ids_of(v),
        flat(id_lines(v)).len() == 0 || flat(id_lines(v)).last() == '\n',
    decreases v.len(),
{
    let all = id_lines(v);
    reveal_strlit("\n");
    if v.len() == 0 {
        assert(line_list(flat(all)) =~= seq![]);
        assert(ids_of(v) =~= seq![]);
    } else {
        let less = v.drop_last();
        assert forall|i: int| 0 <= i < less.len() implies is_line((#[trigger] less[i]).0) by {
            assert(less[i] == v[i]);
        }
        lemma_lines_read_back(less);
        assert(all.drop_last() =~= id_lines(less));
        let id = v[v.len() - 1].0;
        assert(all.last() == id + "\n"@);
        let front = flat(id_lines(less));
        lemma_last_line(front, id);
        assert(front + (id + "\n"@) =~= front + id + "\n"@);
        assert(ids_of(v) =~= ids_of(less).push(id));
    }
}

/// The lines that `git log --format=%H -n COUNT` and the same with `--reverse` print are the ids of the
/// newest commits, at most so many, and the same ids in the reverse order. Every id is one line.
pub proof fn lemma_ids_turned(m: Machine, s: Screen, root: Seq<char>, count: Seq<char>, k: nat)
    requires
        repo_root(m) == Some(root),
        history_of(m, root, seq!["HEAD"@], false) is Some,
        read_unsigned(count, usize::MAX as nat) == Some(k),
        forall|i: int|
            0 <= i < history_of(m, root, seq!["HEAD"@], false)->0.len() ==> is_line(
                (#[trigger] history_of(m, root, seq!["HEAD"@], false)->0[i]).0,
            ),
    ensures
        ({
            let v = history_of(m, root, seq!["HEAD"@], false)->0;
            let chosen = portion(v, 0, k as int, false);
            let a = flat(id_lines(chosen));
            let b = flat(id_lines(chosen.reverse()));
            let args = seq!["--format=%H"@, "-n"@, count];
            &&& log_done(m, s, args) == (Done { m, s: printed(s, a), status: 0 })
            &&& log_done(m, s, args.push("--reverse"@)) == (Done { m, s: printed(s, b), status: 0 })
            &&& line_list(a) == ids_of(chosen)
            &&& line_list(a).len() <= k
            &&& line_list(b) == line_list(a).reverse()
        }),
{
    let v = history_of(m, root, seq!["HEAD"@], false)->0;
    let chosen = portion(v, 0, k as int, false);
    lemma_newest_turned(m, s, root, count, k);
    assert forall|i: int| 0 <= i < chosen.len() implies is_line((#[trigger] chosen[i]).0) by {
        assert(chosen[i] == v[i]);
    }
    assert forall|i: int| 0 <= i < chosen.reverse().len() implies is_line(
        (#[trigger] chosen.reverse()[i]).0,
    ) by {
        assert(chosen.reverse()[i] == chosen[chosen.len() - 1 - i]);
    }
    lemma_lines_read_back(chosen);
    lemma_lines_read_back(chosen.reverse());
    assert(id_lines(chosen.reverse()) =~= id_lines(chosen).reverse());
    assert(ids_of(chosen.reverse()) =~= ids_of(chosen).reverse());
}

} // verus!
