//! What is noted is read back: the laws of the records that are kept as lines.

use vstd::prelude::*;
use vstd::utf8::encode_utf8;

use crate::bytes::lemma_text_round_trip;
use crate::numbers::{decimal, is_digit, lemma_decimal_digits, lemma_unsigned_round_trip};
use crate::order::{
    ascending, before, bind, lemma_before_irreflexive, lemma_bind_ascending, lemma_bind_last, lemma_lookup_unbind,
    lookup,
};
use crate::progress::{
    bit, mainline_number, parent_number, rebase_from, rebase_in, rebase_of, rebase_stored, rebase_text, rebase_with,
    run_from, run_in, run_of, run_stored, run_text, run_with, todo_lines, Rebase, Run,
};
use crate::repo::{
    git_file, head_steps, kept_steps, move_logged, no_commit, one_line, readable_text, step_lines, step_of,
    steps_in, written, Step,
};
use crate::stages::{
    conflicts_of, conflicts_stored, lemma_others_stay_unmerged, no_sides, resolved_paths, side_line, stages_in,
    stages_text, with_stage, without_paths, Conflicts, Sides,
};
use crate::stashing::{entries_in, entries_of, entries_stored, entries_text, entry_in, Saved};
use crate::storage::lemma_written;
use crate::system::Machine;
use crate::text::{cut_once, first_pieces, is_line, lemma_cut_once, lemma_last_line, line_list};

verus! {

proof fn lemma_pieces_of_three(a: Seq<char>, b: Seq<char>, c: Seq<char>)
    requires
        !a.contains('\t'),
        !b.contains('\t'),
    ensures
        first_pieces(a + "\t"@ + b + "\t"@ + c, '\t', 3) == seq![a, b, c],
{
    reveal_strlit("\t");
    assert("\t"@ =~= seq!['\t']);
    let s = a + "\t"@ + b + "\t"@ + c;
    let rest = b + seq!['\t'] + c;
    assert(s =~= a + seq!['\t'] + rest);
    lemma_cut_once(a, '\t', rest);
    lemma_cut_once(b, '\t', c);
    reveal_with_fuel(first_pieces, 4);
    assert(first_pieces(rest, '\t', 2) =~= seq![b, c]);
    assert(first_pieces(s, '\t', 3) =~= seq![a, b, c]);
}

proof fn lemma_pieces_of_four(a: Seq<char>, b: Seq<char>, c: Seq<char>, d: Seq<char>)
    requires
        !a.contains('\t'),
        !b.contains('\t'),
        !c.contains('\t'),
    ensures
        first_pieces(a + "\t"@ + b + "\t"@ + c + "\t"@ + d, '\t', 4) == seq![a, b, c, d],
{
    reveal_strlit("\t");
    assert("\t"@ =~= seq!['\t']);
    let s = a + "\t"@ + b + "\t"@ + c + "\t"@ + d;
    let rest = b + "\t"@ + c + "\t"@ + d;
    assert(s =~= a + seq!['\t'] + rest);
    lemma_cut_once(a, '\t', rest);
    lemma_pieces_of_three(b, c, d);
    assert(first_pieces(s, '\t', 4) =~= seq![a] + first_pieces(rest, '\t', 3));
    assert(first_pieces(s, '\t', 4) =~= seq![a, b, c, d]);
}

// ---------------------------------------------------------------------------
// The moves of HEAD
// ---------------------------------------------------------------------------

/// Whether a move can be noted: its line is one line, and only its last part may hold tabs.
pub open spec fn notable(x: Step) -> bool {
    &&& !x.0.contains('\t')
    &&& !x.1.contains('\t')
    &&& is_line(x.0 + "\t"@ + x.1 + "\t"@ + x.2)
}

proof fn lemma_steps_end(v: Seq<Step>)
    ensures
        step_lines(v).len() == 0 || step_lines(v).last() == '\n',
{
    reveal_strlit("\n");
}

/// Moves of HEAD that can be noted are read back in their order.
pub proof fn lemma_steps_read_back(v: Seq<Step>)
    requires
        forall|i: int| 0 <= i < v.len() ==> notable(#[trigger] v[i]),
    ensures
        steps_in(line_list(step_lines(v))) == v,
    decreases v.len(),
{
    if v.len() == 0 {
        assert(line_list(step_lines(v)) =~= seq![]);
        assert(v =~= seq![]);
    } else {
        let w = v.drop_last();
        let x = v.last();
        assert(notable(v[v.len() - 1]));
        assert forall|i: int| 0 <= i < w.len() implies notable(#[trigger] w[i]) by {
            assert(w[i] == v[i]);
        }
        lemma_steps_read_back(w);
        let line = x.0 + "\t"@ + x.1 + "\t"@ + x.2;
        lemma_steps_end(w);
        lemma_last_line(step_lines(w), line);
        assert(step_lines(v) =~= step_lines(w) + line + "\n"@);
        let all = line_list(step_lines(w));
        assert(all.push(line).drop_last() =~= all);
        lemma_pieces_of_three(x.0, x.1, x.2);
        assert(step_of(line) == Some(x));
        assert(v =~= w.push(x));
    }
}

/// The moves that are noted once HEAD has moved.
pub open spec fn moves_then(
    m: Machine,
    root: Seq<char>,
    from: Option<Seq<char>>,
    after: Seq<char>,
    action: Seq<char>,
) -> Seq<Step> {
    let start = match from {
        Some(b) => b,
        None => no_commit(),
    };
    kept_steps(head_steps(m, root).push((start, after, one_line(action))))
}

/// Once a move of HEAD is noted it is the last of those that are read, the older ones before it, up
/// to the most that are kept.
pub proof fn lemma_move_read_back(
    m: Machine,
    root: Seq<char>,
    from: Option<Seq<char>>,
    after: Seq<char>,
    action: Seq<char>,
)
    requires
        forall|i: int|
            0 <= i < moves_then(m, root, from, after, action).len() ==> notable(
                #[trigger] moves_then(m, root, from, after, action)[i],
            ),
        encode_utf8(step_lines(moves_then(m, root, from, after, action))).len() <= m.memory_limit,
        written(
            m,
            git_file(root, "logs/HEAD"@),
            encode_utf8(step_lines(moves_then(m, root, from, after, action))),
        ).1 is Ok,
    ensures
        head_steps(move_logged(m, root, from, after, action), root) == moves_then(
            m,
            root,
            from,
            after,
            action,
        ),
{
    let all = moves_then(m, root, from, after, action);
    let path = git_file(root, "logs/HEAD"@);
    lemma_written(m, path, encode_utf8(step_lines(all)), path);
    lemma_text_round_trip(step_lines(all));
    lemma_steps_read_back(all);
}

// ---------------------------------------------------------------------------
// Rebases and runs
// ---------------------------------------------------------------------------

proof fn lemma_word_line(key: Seq<char>, value: Seq<char>, line: Seq<char>)
    requires
        !key.contains(' '),
        line == key + " "@ + value,
    ensures
        cut_once(line, ' ') == Some((key, value)),
{
    reveal_strlit(" ");
    assert(" "@ =~= seq![' ']);
    lemma_cut_once(key, ' ', value);
}

/// Whether a value can stand at the end of a line that starts with a key.
pub open spec fn line_value(s: Seq<char>) -> bool {
    is_line(s)
}

proof fn lemma_keyed_line(key: Seq<char>, value: Seq<char>)
    requires
        is_line(key),
        is_line(value),
        key.len() > 0,
        key.last() == ' ',
    ensures
        is_line(key + value),
{
    let s = key + value;
    assert forall|k: int| 0 <= k < s.len() implies s[k] != '\n' by {
        if k < key.len() {
            assert(key.contains(key[k]));
        } else {
            assert(value.contains(value[k - key.len()]));
        }
    }
    if value.len() > 0 {
        assert(s.last() == value.last());
    } else {
        assert(s =~= key);
    }
}

/// Whether every commit that is left can be noted.
pub open spec fn all_values(v: Seq<Seq<char>>) -> bool {
    forall|i: int| 0 <= i < v.len() ==> line_value(#[trigger] v[i])
}

proof fn lemma_todo_end(a: Seq<char>, todo: Seq<Seq<char>>)
    requires
        a.len() > 0,
        a.last() == '\n',
    ensures
        (a + todo_lines(todo)).last() == '\n',
        (a + todo_lines(todo)).len() > 0,
{
    reveal_strlit("\n");
    if todo.len() == 0 {
        assert(a + todo_lines(todo) =~= a);
    } else {
        assert((a + todo_lines(todo)).last() == todo_lines(todo).last());
    }
}

proof fn lemma_todo_step(a: Seq<char>, todo: Seq<Seq<char>>)
    requires
        a.len() > 0,
        a.last() == '\n',
        todo.len() > 0,
        line_value(todo.last()),
    ensures
        line_list(a + todo_lines(todo)) == line_list(a + todo_lines(todo.drop_last())).push(
            "todo "@ + todo.last(),
        ),
        cut_once("todo "@ + todo.last(), ' ') == Some(("todo"@, todo.last())),
{
    reveal_strlit("todo ");
    reveal_strlit("todo");
    reveal_strlit(" ");
    let line = "todo "@ + todo.last();
    assert(!"todo "@.contains('\n'));
    lemma_keyed_line("todo "@, todo.last());
    let front = a + todo_lines(todo.drop_last());
    lemma_todo_end(a, todo.drop_last());
    lemma_last_line(front, line);
    assert(a + todo_lines(todo) =~= front + line + "\n"@);
    assert(line =~= "todo"@ + " "@ + todo.last());
    assert(!"todo"@.contains(' '));
    lemma_word_line("todo"@, todo.last(), line);
}

proof fn lemma_rebase_todo(a: Seq<char>, x: Rebase, todo: Seq<Seq<char>>)
    requires
        a.len() > 0,
        a.last() == '\n',
        rebase_in(line_list(a)) == x,
        x.todo.len() == 0,
        all_values(todo),
    ensures
        rebase_in(line_list(a + todo_lines(todo))) == (Rebase { todo, ..x }),
    decreases todo.len(),
{
    if todo.len() == 0 {
        assert(a + todo_lines(todo) =~= a);
        assert(x.todo =~= todo);
    } else {
        let less = todo.drop_last();
        assert(line_value(todo[todo.len() - 1]));
        assert forall|i: int| 0 <= i < less.len() implies line_value(#[trigger] less[i]) by {
            assert(less[i] == todo[i]);
        }
        lemma_rebase_todo(a, x, less);
        lemma_todo_step(a, todo);
        let lines = line_list(a + todo_lines(less));
        let line = "todo "@ + todo.last();
        assert(lines.push(line).drop_last() =~= lines);
        reveal_strlit("todo");
        reveal_strlit("branch");
        reveal_strlit("orig");
        reveal_strlit("onto");
        assert("todo"@[0] == 't' && "branch"@[0] == 'b' && "orig"@[0] == 'o' && "onto"@[0] == 'o');
        assert(less.push(todo.last()) =~= todo);
    }
}

/// Whether the record of a rebase can be stored.
pub open spec fn storable_rebase(x: Rebase) -> bool {
    &&& x.branch.len() > 0 && line_value(x.branch)
    &&& x.original.len() > 0 && line_value(x.original)
    &&& line_value(x.onto)
    &&& all_values(x.todo)
}

/// The record of a rebase that can be stored is read back.
pub proof fn lemma_rebase_read_back(x: Rebase)
    requires
        storable_rebase(x),
    ensures
        rebase_from(rebase_text(x)) == Some(x),
{
    reveal_strlit("branch ");
    reveal_strlit("\norig ");
    reveal_strlit("\nonto ");
    reveal_strlit("orig ");
    reveal_strlit("onto ");
    reveal_strlit("branch");
    reveal_strlit("orig");
    reveal_strlit("onto");
    reveal_strlit("todo");
    reveal_strlit(" ");
    reveal_strlit("\n");
    let none = Seq::<char>::empty();
    let one = "branch "@ + x.branch;
    let two = "orig "@ + x.original;
    let three = "onto "@ + x.onto;
    assert(!"branch "@.contains('\n') && !"orig "@.contains('\n') && !"onto "@.contains('\n'));
    lemma_keyed_line("branch "@, x.branch);
    lemma_keyed_line("orig "@, x.original);
    lemma_keyed_line("onto "@, x.onto);
    let a1 = none + one + "\n"@;
    let a2 = a1 + two + "\n"@;
    let a3 = a2 + three + "\n"@;
    lemma_last_line(none, one);
    lemma_last_line(a1, two);
    lemma_last_line(a2, three);
    let l0 = line_list(none);
    let l1 = line_list(a1);
    let l2 = line_list(a2);
    let l3 = line_list(a3);
    assert(l0 =~= seq![]);
    assert(l1.drop_last() =~= l0 && l2.drop_last() =~= l1 && l3.drop_last() =~= l2);
    assert(one =~= "branch"@ + " "@ + x.branch);
    assert(two =~= "orig"@ + " "@ + x.original);
    assert(three =~= "onto"@ + " "@ + x.onto);
    assert(!"branch"@.contains(' ') && !"orig"@.contains(' ') && !"onto"@.contains(' '));
    lemma_word_line("branch"@, x.branch, one);
    lemma_word_line("orig"@, x.original, two);
    lemma_word_line("onto"@, x.onto, three);
    assert("orig"@[0] == 'o' && "onto"@[0] == 'o' && "branch"@[0] == 'b');
    assert("orig"@[1] == 'r' && "onto"@[1] == 'n');
    let y = Rebase { todo: seq![], ..x };
    let r0 = rebase_in(l0);
    let r1 = rebase_in(l1);
    let r2 = rebase_in(l2);
    assert(r1 == rebase_with(r0, one));
    assert(r2 == rebase_with(r1, two));
    assert(rebase_in(l3) == rebase_with(r2, three));
    assert(r1 == (Rebase { branch: x.branch, ..r0 }));
    assert(r2 == (Rebase { original: x.original, ..r1 }));
    assert(rebase_in(l3) == (Rebase { onto: x.onto, ..r2 }));
    assert(rebase_in(l3) =~= y);
    lemma_rebase_todo(a3, y, x.todo);
    assert(rebase_text(x) =~= a3 + todo_lines(x.todo));
}

/// The record of a rebase that was stored and fits into memory is the one that is found.
pub proof fn lemma_rebase_resumes(m: Machine, root: Seq<char>, x: Rebase)
    requires
        storable_rebase(x),
        rebase_stored(m, root, x).1,
        encode_utf8(rebase_text(x)).len() <= m.memory_limit,
    ensures
        rebase_of(rebase_stored(m, root, x).0, root) == Some(x),
{
    let path = git_file(root, "REBASE_STATE"@);
    lemma_written(m, path, encode_utf8(rebase_text(x)), path);
    lemma_text_round_trip(rebase_text(x));
    lemma_rebase_read_back(x);
}

proof fn lemma_run_todo(a: Seq<char>, x: Run, todo: Seq<Seq<char>>)
    requires
        a.len() > 0,
        a.last() == '\n',
        run_in(line_list(a)) == x,
        x.todo.len() == 0,
        all_values(todo),
    ensures
        run_in(line_list(a + todo_lines(todo))) == (Run { todo, ..x }),
    decreases todo.len(),
{
    if todo.len() == 0 {
        assert(a + todo_lines(todo) =~= a);
        assert(x.todo =~= todo);
    } else {
        let less = todo.drop_last();
        assert(line_value(todo[todo.len() - 1]));
        assert forall|i: int| 0 <= i < less.len() implies line_value(#[trigger] less[i]) by {
            assert(less[i] == todo[i]);
        }
        lemma_run_todo(a, x, less);
        lemma_todo_step(a, todo);
        let lines = line_list(a + todo_lines(less));
        let line = "todo "@ + todo.last();
        assert(lines.push(line).drop_last() =~= lines);
        reveal_strlit("todo");
        reveal_strlit("revert");
        reveal_strlit("nocommit");
        reveal_strlit("mainline");
        reveal_strlit("orig");
        assert("todo"@[0] == 't' && "revert"@[0] == 'r' && "nocommit"@[0] == 'n' && "mainline"@[0]
            == 'm' && "orig"@[0] == 'o');
        assert(less.push(todo.last()) =~= todo);
    }
}

/// Whether the record of a run can be stored.
pub open spec fn storable_run(x: Run) -> bool {
    &&& x.original.len() > 0 && line_value(x.original)
    &&& x.mainline matches Some(n) ==> 0 < n <= usize::MAX
    &&& all_values(x.todo)
}

proof fn lemma_decimal_line(n: nat)
    ensures
        is_line(decimal(n)),
{
    lemma_decimal_digits(n);
    let s = decimal(n);
    assert forall|i: int| 0 <= i < s.len() implies s[i] != '\n' && s[i] != '\r' by {
        assert(is_digit(s[i]));
    }
}

proof fn lemma_bit_line(b: bool)
    ensures
        is_line(bit(b)),
        (bit(b) == "1"@) == b,
{
    reveal_strlit("1");
    reveal_strlit("0");
    assert("0"@[0] == '0' && "1"@[0] == '1');
}

/// The text of a record of a run up to the commits that are left.
spec fn run_head(x: Run) -> Seq<char> {
    let a1 = Seq::<char>::empty() + ("revert"@ + " "@ + bit(x.revert)) + "\n"@;
    let a2 = a1 + ("nocommit"@ + " "@ + bit(x.no_commit)) + "\n"@;
    let a3 = a2 + ("mainline"@ + " "@ + decimal(mainline_number(x.mainline))) + "\n"@;
    a3 + ("orig"@ + " "@ + x.original) + "\n"@
}

proof fn lemma_run_head_text(x: Run)
    ensures
        run_text(x) == run_head(x) + todo_lines(x.todo),
{
    reveal_strlit("revert ");
    reveal_strlit("\nnocommit ");
    reveal_strlit("\nmainline ");
    reveal_strlit("\norig ");
    reveal_strlit("revert");
    reveal_strlit("nocommit");
    reveal_strlit("mainline");
    reveal_strlit("orig");
    reveal_strlit(" ");
    reveal_strlit("\n");
    assert("revert "@ =~= "revert"@ + " "@);
    assert("\nnocommit "@ =~= "\n"@ + "nocommit"@ + " "@);
    assert("\nmainline "@ =~= "\n"@ + "mainline"@ + " "@);
    assert("\norig "@ =~= "\n"@ + "orig"@ + " "@);
    assert(run_text(x) =~= run_head(x) + todo_lines(x.todo));
}

proof fn lemma_run_line(a: Seq<char>, key: Seq<char>, value: Seq<char>)
    requires
        a.len() == 0 || a.last() == '\n',
        is_line(key),
        !key.contains(' '),
        is_line(value),
    ensures
        run_in(line_list(a + (key + " "@ + value) + "\n"@)) == run_with(
            run_in(line_list(a)),
            key + " "@ + value,
        ),
        cut_once(key + " "@ + value, ' ') == Some((key, value)),
        (a + (key + " "@ + value) + "\n"@).last() == '\n',
        (a + (key + " "@ + value) + "\n"@).len() > 0,
{
    reveal_strlit(" ");
    reveal_strlit("\n");
    let line = key + " "@ + value;
    let front = key + " "@;
    assert forall|k: int| 0 <= k < front.len() implies front[k] != '\n' by {
        if k < key.len() {
            assert(key.contains(key[k]));
        }
    }
    lemma_keyed_line(front, value);
    lemma_last_line(a, line);
    let all = line_list(a);
    assert(all.push(line).drop_last() =~= all);
    lemma_word_line(key, value, line);
}

proof fn lemma_run_keys()
    ensures
        is_line("revert"@) && !"revert"@.contains(' '),
        is_line("nocommit"@) && !"nocommit"@.contains(' '),
        is_line("mainline"@) && !"mainline"@.contains(' '),
        is_line("orig"@) && !"orig"@.contains(' '),
        "revert"@ != "nocommit"@ && "revert"@ != "mainline"@ && "revert"@ != "orig"@,
        "nocommit"@ != "mainline"@ && "nocommit"@ != "orig"@ && "mainline"@ != "orig"@,
{
    reveal_strlit("revert");
    reveal_strlit("nocommit");
    reveal_strlit("mainline");
    reveal_strlit("orig");
    assert("revert"@[0] == 'r' && "nocommit"@[0] == 'n' && "mainline"@[0] == 'm' && "orig"@[0]
        == 'o');
}

/// The record of a run that can be stored is read back.
pub proof fn lemma_run_read_back(x: Run)
    requires
        storable_run(x),
    ensures
        run_from(run_text(x)) == Some(x),
{
    let number = decimal(mainline_number(x.mainline));
    lemma_run_keys();
    lemma_bit_line(x.revert);
    lemma_bit_line(x.no_commit);
    lemma_decimal_line(mainline_number(x.mainline));
    let a0 = Seq::<char>::empty();
    let a1 = a0 + ("revert"@ + " "@ + bit(x.revert)) + "\n"@;
    let a2 = a1 + ("nocommit"@ + " "@ + bit(x.no_commit)) + "\n"@;
    let a3 = a2 + ("mainline"@ + " "@ + number) + "\n"@;
    let a4 = a3 + ("orig"@ + " "@ + x.original) + "\n"@;
    lemma_run_line(a0, "revert"@, bit(x.revert));
    lemma_run_line(a1, "nocommit"@, bit(x.no_commit));
    lemma_run_line(a2, "mainline"@, number);
    lemma_run_line(a3, "orig"@, x.original);
    assert(line_list(a0) =~= seq![]);
    lemma_unsigned_round_trip(mainline_number(x.mainline), usize::MAX as nat);
    assert(parent_number(number) == x.mainline);
    let y = Run { todo: seq![], ..x };
    let r0 = run_in(line_list(a0));
    assert(run_in(line_list(a1)) == (Run { revert: x.revert, ..r0 }));
    assert(run_in(line_list(a2)) == (Run { revert: x.revert, no_commit: x.no_commit, ..r0 }));
    assert(run_in(line_list(a4)) =~= y);
    lemma_run_todo(a4, y, x.todo);
    lemma_run_head_text(x);
    assert(run_head(x) == a4);
}

/// The record of a run that was stored and fits into memory is the one that is found.
pub proof fn lemma_run_resumes(m: Machine, root: Seq<char>, x: Run)
    requires
        storable_run(x),
        written(m, git_file(root, "SEQUENCER"@), encode_utf8(run_text(x))).1 is Ok,
        encode_utf8(run_text(x)).len() <= m.memory_limit,
    ensures
        run_of(run_stored(m, root, x), root) == Some(x),
{
    let path = git_file(root, "SEQUENCER"@);
    lemma_written(m, path, encode_utf8(run_text(x)), path);
    lemma_text_round_trip(run_text(x));
    lemma_run_read_back(x);
}

// ---------------------------------------------------------------------------
// The list of stashes
// ---------------------------------------------------------------------------

/// Whether an entry of the list can be stored.
pub open spec fn storable_saved(e: Saved) -> bool {
    &&& e.id <= u64::MAX
    &&& !e.base.contains('\t')
    &&& !e.branch.contains('\t')
    &&& is_line(e.base + "\t"@ + e.branch + "\t"@ + e.message)
}

proof fn lemma_entries_end(v: Seq<Saved>)
    ensures
        entries_text(v).len() == 0 || entries_text(v).last() == '\n',
{
    reveal_strlit("\n");
    reveal_strlit("");
}

/// Entries that can be stored are read back in their order.
pub proof fn lemma_entries_read_back(v: Seq<Saved>)
    requires
        forall|i: int| 0 <= i < v.len() ==> storable_saved(#[trigger] v[i]),
    ensures
        entries_in(line_list(entries_text(v))) == v,
    decreases v.len(),
{
    reveal_strlit("");
    if v.len() == 0 {
        assert(line_list(entries_text(v)) =~= seq![]);
        assert(v =~= seq![]);
    } else {
        let w = v.drop_last();
        let e = v.last();
        assert(storable_saved(v[v.len() - 1]));
        assert forall|i: int| 0 <= i < w.len() implies storable_saved(#[trigger] w[i]) by {
            assert(w[i] == v[i]);
        }
        lemma_entries_read_back(w);
        let number = decimal(e.id);
        let tail = e.base + "\t"@ + e.branch + "\t"@ + e.message;
        let line = number + "\t"@ + e.base + "\t"@ + e.branch + "\t"@ + e.message;
        reveal_strlit("\t");
        lemma_decimal_digits(e.id);
        assert(line =~= number + "\t"@ + tail);
        assert(is_line(line)) by {
            assert forall|k: int| 0 <= k < line.len() implies line[k] != '\n' by {
                if k < number.len() {
                    assert(is_digit(number[k]));
                } else if k > number.len() {
                    assert(line[k] == tail[k - number.len() - 1]);
                    assert(tail.contains(tail[k - number.len() - 1]));
                }
            }
            assert(line.last() == tail.last());
        }
        assert(!number.contains('\t')) by {
            if number.contains('\t') {
                let k = choose|k: int| 0 <= k < number.len() && number[k] == '\t';
                assert(is_digit(number[k]));
            }
        }
        lemma_entries_end(w);
        lemma_last_line(entries_text(w), line);
        assert(entries_text(v) =~= entries_text(w) + line + "\n"@);
        let all = line_list(entries_text(w));
        assert(all.push(line).drop_last() =~= all);
        lemma_pieces_of_four(number, e.base, e.branch, e.message);
        lemma_unsigned_round_trip(e.id, u64::MAX as nat);
        assert(entry_in(line) == Some(e));
        assert(v =~= w.push(e));
    }
}

/// The list of stashes that was stored is the one that is found.
pub proof fn lemma_stashes_read_back(m: Machine, root: Seq<char>, v: Seq<Saved>)
    requires
        forall|i: int| 0 <= i < v.len() ==> storable_saved(#[trigger] v[i]),
        entries_stored(m, root, v).1,
    ensures
        entries_of(entries_stored(m, root, v).0, root) == v,
{
    let path = git_file(root, "stash-list"@);
    lemma_written(m, path, encode_utf8(entries_text(v)), path);
    lemma_text_round_trip(entries_text(v));
    lemma_entries_read_back(v);
}

// ---------------------------------------------------------------------------
// Unmerged paths
// ---------------------------------------------------------------------------

/// Whether a side can be stored.
pub open spec fn storable_side(side: Option<Seq<char>>) -> bool {
    side matches Some(hash) ==> !hash.contains('\t') && !hash.contains('\n')
}

/// Whether an unmerged path can be stored: it is one line, and has some side.
pub open spec fn storable_conflict(e: (Seq<char>, Sides)) -> bool {
    &&& e.0.len() > 0 && is_line(e.0)
    &&& storable_side(e.1.base) && storable_side(e.1.ours) && storable_side(e.1.theirs)
    &&& e.1.base is Some || e.1.ours is Some || e.1.theirs is Some
}

proof fn lemma_bind_same_last<T>(m: Seq<(Seq<char>, T)>, k: Seq<char>, v: T, w: T)
    requires
        forall|i: int| 0 <= i < m.len() ==> before(#[trigger] m[i].0, k),
    ensures
        bind(m.push((k, v)), k, w) == m.push((k, w)),
        lookup(m.push((k, v)), k) == Some(v),
    decreases m.len(),
{
    let all = m.push((k, v));
    if m.len() == 0 {
        assert(all.subrange(1, all.len() as int) =~= seq![]);
        assert(bind(all, k, w) =~= m.push((k, w)));
    } else {
        let rest = m.subrange(1, m.len() as int);
        assert(before(m[0].0, k));
        lemma_before_irreflexive(k);
        assert(all.subrange(1, all.len() as int) =~= rest.push((k, v)));
        assert forall|i: int| 0 <= i < rest.len() implies before(#[trigger] rest[i].0, k) by {
            assert(rest[i] == m[i + 1]);
        }
        lemma_bind_same_last(rest, k, v, w);
        if before(k, m[0].0) {
            crate::order::lemma_before_transitive(m[0].0, k, m[0].0);
            lemma_before_irreflexive(m[0].0);
        }
        assert(all[0] == m[0]);
        assert(bind(all, k, w) =~= m.push((k, w)));
    }
}

proof fn lemma_absent<T>(m: Seq<(Seq<char>, T)>, k: Seq<char>)
    requires
        forall|i: int| 0 <= i < m.len() ==> before(#[trigger] m[i].0, k),
    ensures
        lookup(m, k) is None,
    decreases m.len(),
{
    if m.len() > 0 {
        let rest = m.subrange(1, m.len() as int);
        assert(before(m[0].0, k));
        lemma_before_irreflexive(k);
        assert forall|i: int| 0 <= i < rest.len() implies before(#[trigger] rest[i].0, k) by {
            assert(rest[i] == m[i + 1]);
        }
        lemma_absent(rest, k);
    }
}

/// The record so far, with the sides of the last path that are read.
spec fn partial_sides(c: Conflicts, path: Seq<char>, u: Sides) -> Conflicts {
    if u.base is None && u.ours is None && u.theirs is None {
        c
    } else {
        c.push((path, u))
    }
}

proof fn lemma_side_step(
    a: Seq<char>,
    c: Conflicts,
    path: Seq<char>,
    u: Sides,
    number: Seq<char>,
    side: Option<Seq<char>>,
    w: Sides,
)
    requires
        a.len() == 0 || a.last() == '\n',
        path.len() > 0,
        is_line(path),
        forall|i: int| 0 <= i < c.len() ==> before(#[trigger] c[i].0, path),
        stages_in(line_list(a)) == partial_sides(c, path, u),
        storable_side(side),
        number == "1"@ && u.base is None && w == (Sides { base: side, ..u }) || number == "2"@
            && u.ours is None && w == (Sides { ours: side, ..u }) || number == "3"@
            && u.theirs is None && w == (Sides { theirs: side, ..u }),
    ensures
        stages_in(line_list(a + side_line(number, side, path))) == partial_sides(c, path, w),
        (a + side_line(number, side, path)).len() == 0 || (a + side_line(
            number,
            side,
            path,
        )).last() == '\n',
{
    reveal_strlit("1");
    reveal_strlit("2");
    reveal_strlit("3");
    reveal_strlit("\t");
    reveal_strlit("\n");
    reveal_strlit("");
    match side {
        None => {
            assert(a + side_line(number, side, path) =~= a);
            assert(w == u);
        },
        Some(hash) => {
            let line = number + "\t"@ + hash + "\t"@ + path;
            assert("1"@[0] == '1' && "2"@[0] == '2' && "3"@[0] == '3');
            assert(!number.contains('\t'));
            assert(is_line(line)) by {
                assert forall|k: int| 0 <= k < line.len() implies line[k] != '\n' by {
                    let h = hash.len() as int;
                    if k == 0 {
                        assert(line[0] == number[0]);
                    } else if 2 <= k < 2 + h {
                        assert(line[k] == hash[k - 2]);
                        assert(hash.contains(hash[k - 2]));
                    } else if k >= 3 + h {
                        assert(line[k] == path[k - 3 - h]);
                        assert(path.contains(path[k - 3 - h]));
                    }
                }
                assert(line.last() == path.last());
            }
            lemma_last_line(a, line);
            assert(a + side_line(number, side, path) =~= a + line + "\n"@);
            let all = line_list(a);
            assert(all.push(line).drop_last() =~= all);
            lemma_pieces_of_three(number, hash, path);
            lemma_absent(c, path);
            lemma_bind_last(c, path, w);
            lemma_bind_same_last(c, path, u, w);
            let now = partial_sides(c, path, u);
            assert(with_stage(now, line) == c.push((path, w)));
        },
    }
}

proof fn lemma_stages_end(c: Conflicts)
    ensures
        stages_text(c).len() == 0 || stages_text(c).last() == '\n',
    decreases c.len(),
{
    reveal_strlit("\n");
    reveal_strlit("");
    if c.len() > 0 {
        lemma_stages_end(c.drop_last());
        let u = c.last().1;
        let p = c.last().0;
        let x = side_line("1"@, u.base, p);
        let y = side_line("2"@, u.ours, p);
        let z = side_line("3"@, u.theirs, p);
        assert(x.len() == 0 || x.last() == '\n');
        assert(y.len() == 0 || y.last() == '\n');
        assert(z.len() == 0 || z.last() == '\n');
        let front = stages_text(c.drop_last());
        let s = x + y + z;
        assert(s.len() == 0 || s.last() == '\n');
        assert((front + s).len() == 0 || (front + s).last() == '\n');
    }
}

/// Unmerged paths that can be stored are read back.
pub proof fn lemma_stages_text_read_back(c: Conflicts)
    requires
        ascending(c),
        forall|i: int| 0 <= i < c.len() ==> storable_conflict(#[trigger] c[i]),
    ensures
        stages_in(line_list(stages_text(c))) == c,
    decreases c.len(),
{
    if c.len() == 0 {
        assert(line_list(stages_text(c)) =~= seq![]);
        assert(c =~= seq![]);
    } else {
        let less = c.drop_last();
        let (path, u) = c.last();
        assert(storable_conflict(c[c.len() - 1]));
        assert(ascending(less)) by {
            assert forall|i: int, j: int| 0 <= i < j < less.len() implies before(
                #[trigger] less[i].0,
                #[trigger] less[j].0,
            ) by {
                assert(less[i] == c[i] && less[j] == c[j]);
            }
        }
        assert forall|i: int| 0 <= i < less.len() implies storable_conflict(#[trigger] less[i]) by {
            assert(less[i] == c[i]);
        }
        assert forall|i: int| 0 <= i < less.len() implies before(#[trigger] less[i].0, path) by {
            assert(less[i] == c[i]);
            assert(c[c.len() - 1].0 == path);
        }
        lemma_stages_text_read_back(less);
        lemma_stages_end(less);
        let a0 = stages_text(less);
        let none = no_sides();
        let w1 = Sides { base: u.base, ..none };
        let w2 = Sides { ours: u.ours, ..w1 };
        let w3 = Sides { theirs: u.theirs, ..w2 };
        lemma_side_step(a0, less, path, none, "1"@, u.base, w1);
        let a1 = a0 + side_line("1"@, u.base, path);
        lemma_side_step(a1, less, path, w1, "2"@, u.ours, w2);
        let a2 = a1 + side_line("2"@, u.ours, path);
        lemma_side_step(a2, less, path, w2, "3"@, u.theirs, w3);
        let a3 = a2 + side_line("3"@, u.theirs, path);
        assert(stages_text(c) =~= a3);
        assert(w3 == u);
        assert(less.push((path, u)) =~= c);
    }
}

/// Unmerged paths that were stored and fit into memory are the ones that are found.
pub proof fn lemma_conflicts_read_back(m: Machine, root: Seq<char>, c: Conflicts)
    requires
        ascending(c),
        c.len() > 0,
        forall|i: int| 0 <= i < c.len() ==> storable_conflict(#[trigger] c[i]),
        conflicts_stored(m, root, c).1,
        encode_utf8(stages_text(c)).len() <= m.memory_limit,
    ensures
        conflicts_of(conflicts_stored(m, root, c).0, root) == c,
{
    let path = git_file(root, "MERGE_STAGES"@);
    lemma_written(m, path, encode_utf8(stages_text(c)), path);
    lemma_text_round_trip(stages_text(c));
    lemma_stages_text_read_back(c);
}

proof fn lemma_stages_ascending(lines: Seq<Seq<char>>)
    ensures
        ascending(stages_in(lines)),
    decreases lines.len(),
{
    if lines.len() > 0 {
        let c = stages_in(lines.drop_last());
        lemma_stages_ascending(lines.drop_last());
        let p = first_pieces(lines.last(), '\t', 3);
        if p.len() >= 3 {
            let u = match lookup(c, p[2]) {
                Some(u) => u,
                None => no_sides(),
            };
            lemma_bind_ascending(c, p[2], Sides { base: Some(p[1]), ..u });
            lemma_bind_ascending(c, p[2], Sides { ours: Some(p[1]), ..u });
            lemma_bind_ascending(c, p[2], Sides { theirs: Some(p[1]), ..u });
            lemma_bind_ascending(c, p[2], u);
        }
    }
}

/// Once some paths are settled, they are no longer unmerged, and every other path is as unmerged as it
/// was.
pub proof fn lemma_settled_paths(m: Machine, root: Seq<char>, paths: Seq<Seq<char>>, path: Seq<char>)
    requires
        ascending(m.files),
        forall|i: int|
            0 <= i < conflicts_of(m, root).len() ==> storable_conflict(
                #[trigger] conflicts_of(m, root)[i],
            ),
        conflicts_stored(m, root, without_paths(conflicts_of(m, root), paths)).1,
        encode_utf8(stages_text(without_paths(conflicts_of(m, root), paths))).len() <= m.memory_limit,
    ensures
        lookup(conflicts_of(resolved_paths(m, root, paths), root), path) == (if paths.contains(path) {
            None
        } else {
            lookup(conflicts_of(m, root), path)
        }),
{
    let c = conflicts_of(m, root);
    let d = without_paths(c, paths);
    let file = git_file(root, "MERGE_STAGES"@);
    if let Some(s) = readable_text(m, file) {
        lemma_stages_ascending(line_list(s));
    }
    assert(ascending(c));
    if c.len() > 0 {
        lemma_others_stay_unmerged(c, paths, path);
        if d.len() == 0 {
            lemma_lookup_unbind(m.files, file, file);
            assert(lookup(d, path) is None);
        } else {
            assert forall|i: int| 0 <= i < d.len() implies storable_conflict(#[trigger] d[i]) by {
                assert(c.contains(d[i]));
                let j = choose|j: int| 0 <= j < c.len() && c[j] == d[i];
                assert(storable_conflict(c[j]));
            }
            lemma_conflicts_read_back(m, root, d);
        }
    }
}

} // verus!
