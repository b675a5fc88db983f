//! What is recorded of a rebase, and of a run of cherry-picks or reverts, that is not finished.

use vstd::prelude::*;
use vstd::utf8::encode_utf8;

use crate::numbers::{decimal, format_usize, parse_usize, read_unsigned};
use crate::repo::{git_file, git_path, read_text, readable_text, write_vfs, written};
use crate::stages::{cleared, drop_file, dropped, in_progress, pending_commit};
use crate::system::{Machine, System};
use crate::text::{
    copy_text, cut_once, join3, join5, lemma_texts_push, line_list, lines, opt_pair, same, split_once, texts,
};

verus! {

// ---------------------------------------------------------------------------
// Rebase
// ---------------------------------------------------------------------------

/// What a rebase still has to do.
pub struct State {
    /// The branch that is rebased, which moves once every commit has landed.
    pub branch: String,
    /// Where that branch pointed before.
    pub original: String,
    /// The commit that the branch is replayed onto.
    pub onto: String,
    /// The commits still to apply, oldest first; the first is the one under way.
    pub todo: Vec<String>,
}

/// What the record of a rebase holds.
#[verifier::ext_equal]
pub struct Rebase {
    pub branch: Seq<char>,
    pub original: Seq<char>,
    pub onto: Seq<char>,
    pub todo: Seq<Seq<char>>,
}

impl View for State {
    type V = Rebase;

    open spec fn view(&self) -> Rebase {
        Rebase {
            branch: self.branch@,
            original: self.original@,
            onto: self.onto@,
            todo: texts(self.todo@),
        }
    }
}

/// The record once one line is read.
pub open spec fn rebase_with(x: Rebase, line: Seq<char>) -> Rebase {
    match cut_once(line, ' ') {
        Some((key, value)) => if key == "branch"@ {
            Rebase { branch: value, ..x }
        } else if key == "orig"@ {
            Rebase { original: value, ..x }
        } else if key == "onto"@ {
            Rebase { onto: value, ..x }
        } else if key == "todo"@ {
            Rebase { todo: x.todo.push(value), ..x }
        } else {
            x
        },
        None => x,
    }
}

/// The record that lines hold.
pub open spec fn rebase_in(lines: Seq<Seq<char>>) -> Rebase
    decreases lines.len(),
{
    if lines.len() == 0 {
        Rebase { branch: ""@, original: ""@, onto: ""@, todo: seq![] }
    } else {
        rebase_with(rebase_in(lines.drop_last()), lines.last())
    }
}

/// The record that a text holds; one without a branch or an original commit is none.
pub open spec fn rebase_from(text: Seq<char>) -> Option<Rebase> {
    let x = rebase_in(line_list(text));
    if x.branch.len() > 0 && x.original.len() > 0 {
        Some(x)
    } else {
        None
    }
}

/// The rebase that is not finished.
pub open spec fn rebase_of(m: Machine, root: Seq<char>) -> Option<Rebase> {
    match readable_text(m, git_file(root, "REBASE_STATE"@)) {
        Some(text) => rebase_from(text),
        None => None,
    }
}

/// What an optional record of a rebase holds.
pub open spec fn opt_rebase(o: Option<State>) -> Option<Rebase> {
    match o {
        Some(x) => Some(x@),
        None => None,
    }
}

/// The rebase that is not finished.
pub fn load_rebase(system: &System, root: &str) -> (r: Option<State>)
    ensures
        opt_rebase(r) == rebase_of(system@, root@),
{
    let text = match read_text(system, git_path(root, "REBASE_STATE").as_str()) {
        Some(t) => t,
        None => return None,
    };
    let all = lines(text.as_str());
    let ghost list = line_list(text@);
    let mut x = State {
        branch: copy_text(""),
        original: copy_text(""),
        onto: copy_text(""),
        todo: Vec::new(),
    };
    assert(texts(x.todo@) =~= seq![]);
    let mut i: usize = 0;
    while i < all.len()
        invariant
            i <= all.len(),
            texts(all@) == list,
            x@ == rebase_in(list.take(i as int)),
        decreases all.len() - i,
    {
        broadcast use lemma_texts_push;

        assert(list.take(i + 1).drop_last() =~= list.take(i as int));
        assert(list.take(i + 1).last() == all@[i as int]@);
        if let Some((key, value)) = split_once(all[i].as_str(), ' ') {
            if same(key.as_str(), "branch") {
                x.branch = value;
            } else if same(key.as_str(), "orig") {
                x.original = value;
            } else if same(key.as_str(), "onto") {
                x.onto = value;
            } else if same(key.as_str(), "todo") {
                x.todo.push(value);
            }
        }
        i += 1;
    }
    assert(list.take(i as int) =~= list);
    if !x.branch.as_str().is_empty() && !x.original.as_str().is_empty() {
        Some(x)
    } else {
        None
    }
}

/// The lines of the commits still to apply.
pub open spec fn todo_lines(todo: Seq<Seq<char>>) -> Seq<char>
    decreases todo.len(),
{
    if todo.len() == 0 {
        seq![]
    } else {
        todo_lines(todo.drop_last()) + ("todo "@ + todo.last() + "\n"@)
    }
}

fn todo_text(todo: &[String]) -> (r: String)
    ensures
        r@ == todo_lines(texts(todo@)),
{
    let ghost all = texts(todo@);
    let mut out = String::new();
    let mut i: usize = 0;
    while i < todo.len()
        invariant
            i <= todo.len(),
            all == texts(todo@),
            out@ == todo_lines(all.take(i as int)),
        decreases todo.len() - i,
    {
        assert(all.take(i + 1).drop_last() =~= all.take(i as int));
        assert(all.take(i + 1).last() == todo@[i as int]@);
        out.append(join3("todo ", todo[i].as_str(), "\n").as_str());
        i += 1;
    }
    assert(all.take(i as int) =~= all);
    out
}

/// The text of the record of a rebase.
pub open spec fn rebase_text(x: Rebase) -> Seq<char> {
    ("branch "@ + x.branch + "\norig "@ + x.original + "\nonto "@) + x.onto + "\n"@ + todo_lines(
        x.todo,
    )
}

/// Storing the record of a rebase.
pub open spec fn rebase_stored(m: Machine, root: Seq<char>, x: Rebase) -> (Machine, bool) {
    let (n, r) = written(m, git_file(root, "REBASE_STATE"@), encode_utf8(rebase_text(x)));
    (n, r is Ok)
}

/// Stores the record of a rebase; whether that was possible.
pub fn store_rebase(system: &mut System, root: &str, x: &State) -> (r: bool)
    ensures
        (final(system)@, r) == rebase_stored(old(system)@, root@, x@),
{
    let mut text = join5(
        "branch ",
        x.branch.as_str(),
        "\norig ",
        x.original.as_str(),
        "\nonto ",
    );
    text.append(x.onto.as_str());
    text.append("\n");
    text.append(todo_text(x.todo.as_slice()).as_str());
    write_vfs(
        system,
        git_path(root, "REBASE_STATE").as_str(),
        text.as_str().as_bytes(),
    ).is_ok()
}

/// Whether a rebase is not finished.
pub fn rebasing(system: &System, root: &str) -> (r: bool)
    ensures
        r == (rebase_of(system@, root@) is Some),
{
    load_rebase(system, root).is_some()
}

/// The branch that a rebase replays and the commit that it replays onto.
pub open spec fn replayed_branch(m: Machine, root: Seq<char>) -> Option<(Seq<char>, Seq<char>)> {
    match rebase_of(m, root) {
        Some(x) => Some((x.branch, x.onto)),
        None => None,
    }
}

/// The branch that a rebase replays and the commit that it replays onto.
pub fn replaying(system: &System, root: &str) -> (r: Option<(String, String)>)
    ensures
        opt_pair(r) == replayed_branch(system@, root@),
{
    match load_rebase(system, root) {
        Some(x) => Some((x.branch, x.onto)),
        None => None,
    }
}

/// The machine once the record of a rebase is gone, along with its conflicts.
pub open spec fn rebase_cleared(m: Machine, root: Seq<char>) -> Machine {
    cleared(dropped(m, root, "REBASE_STATE"@), root)
}

/// Forgets a rebase and its conflicts.
pub fn clear_rebase(system: &mut System, root: &str)
    ensures
        final(system)@ == rebase_cleared(old(system)@, root@),
{
    drop_file(system, root, "REBASE_STATE");
    crate::stages::clear(system, root);
}

// ---------------------------------------------------------------------------
// Cherry-picks and reverts
// ---------------------------------------------------------------------------

/// What a run of cherry-picks or reverts still has to replay.
pub struct Sequence {
    pub revert: bool,
    pub no_commit: bool,
    /// The parent of a merge commit that the change is measured against.
    pub mainline: Option<usize>,
    /// Where HEAD was before the first commit was replayed.
    pub original: String,
    /// The commits left to apply, oldest first.
    pub todo: Vec<String>,
}

/// What the record of a run holds.
#[verifier::ext_equal]
pub struct Run {
    pub revert: bool,
    pub no_commit: bool,
    pub mainline: Option<nat>,
    pub original: Seq<char>,
    pub todo: Seq<Seq<char>>,
}

/// An optional number as a number.
pub open spec fn opt_nat(o: Option<usize>) -> Option<nat> {
    match o {
        Some(n) => Some(n as nat),
        None => None,
    }
}

impl View for Sequence {
    type V = Run;

    open spec fn view(&self) -> Run {
        Run {
            revert: self.revert,
            no_commit: self.no_commit,
            mainline: opt_nat(self.mainline),
            original: self.original@,
            todo: texts(self.todo@),
        }
    }
}

/// A parent number; zero is none.
pub open spec fn parent_number(s: Seq<char>) -> Option<nat> {
    match read_unsigned(s, usize::MAX as nat) {
        Some(n) => if n > 0 {
            Some(n)
        } else {
            None
        },
        None => None,
    }
}

/// Reads a parent number; zero is none.
pub fn read_parent_number(s: &str) -> (r: Option<usize>)
    ensures
        opt_nat(r) == parent_number(s@),
{
    match parse_usize(s) {
        Some(n) => if n > 0 {
            Some(n)
        } else {
            None
        },
        None => None,
    }
}

/// The record once one line is read.
pub open spec fn run_with(x: Run, line: Seq<char>) -> Run {
    match cut_once(line, ' ') {
        Some((key, value)) => if key == "revert"@ {
            Run { revert: value == "1"@, ..x }
        } else if key == "nocommit"@ {
            Run { no_commit: value == "1"@, ..x }
        } else if key == "mainline"@ {
            Run { mainline: parent_number(value), ..x }
        } else if key == "orig"@ {
            Run { original: value, ..x }
        } else if key == "todo"@ {
            Run { todo: x.todo.push(value), ..x }
        } else {
            x
        },
        None => x,
    }
}

/// The record that lines hold.
pub open spec fn run_in(lines: Seq<Seq<char>>) -> Run
    decreases lines.len(),
{
    if lines.len() == 0 {
        Run { revert: false, no_commit: false, mainline: None, original: ""@, todo: seq![] }
    } else {
        run_with(run_in(lines.drop_last()), lines.last())
    }
}

/// The record that a text holds; one without an original commit is none.
pub open spec fn run_from(text: Seq<char>) -> Option<Run> {
    let x = run_in(line_list(text));
    if x.original.len() > 0 {
        Some(x)
    } else {
        None
    }
}

/// The run that is not finished.
pub open spec fn run_of(m: Machine, root: Seq<char>) -> Option<Run> {
    match readable_text(m, git_file(root, "SEQUENCER"@)) {
        Some(text) => run_from(text),
        None => None,
    }
}

/// What an optional record of a run holds.
pub open spec fn opt_run(o: Option<Sequence>) -> Option<Run> {
    match o {
        Some(x) => Some(x@),
        None => None,
    }
}

/// The run that is not finished.
pub fn load_sequence(system: &System, root: &str) -> (r: Option<Sequence>)
    ensures
        opt_run(r) == run_of(system@, root@),
{
    let text = match read_text(system, git_path(root, "SEQUENCER").as_str()) {
        Some(t) => t,
        None => return None,
    };
    let all = lines(text.as_str());
    let ghost list = line_list(text@);
    let mut x = Sequence {
        revert: false,
        no_commit: false,
        mainline: None,
        original: copy_text(""),
        todo: Vec::new(),
    };
    assert(texts(x.todo@) =~= seq![]);
    let mut i: usize = 0;
    while i < all.len()
        invariant
            i <= all.len(),
            texts(all@) == list,
            x@ == run_in(list.take(i as int)),
        decreases all.len() - i,
    {
        broadcast use lemma_texts_push;

        assert(list.take(i + 1).drop_last() =~= list.take(i as int));
        assert(list.take(i + 1).last() == all@[i as int]@);
        if let Some((key, value)) = split_once(all[i].as_str(), ' ') {
            if same(key.as_str(), "revert") {
                x.revert = same(value.as_str(), "1");
            } else if same(key.as_str(), "nocommit") {
                x.no_commit = same(value.as_str(), "1");
            } else if same(key.as_str(), "mainline") {
                x.mainline = read_parent_number(value.as_str());
            } else if same(key.as_str(), "orig") {
                x.original = value;
            } else if same(key.as_str(), "todo") {
                x.todo.push(value);
            }
        }
        i += 1;
    }
    assert(list.take(i as int) =~= list);
    if !x.original.as_str().is_empty() {
        Some(x)
    } else {
        None
    }
}

/// A truth value as a digit.
pub open spec fn bit(b: bool) -> Seq<char> {
    if b {
        "1"@
    } else {
        "0"@
    }
}

fn bit_text(b: bool) -> (r: &'static str)
    ensures
        r@ == bit(b),
{
    if b {
        "1"
    } else {
        "0"
    }
}

/// A parent number as it is stored.
pub open spec fn mainline_number(o: Option<nat>) -> nat {
    match o {
        Some(n) => n,
        None => 0,
    }
}

/// The text of the record of a run.
pub open spec fn run_text(x: Run) -> Seq<char> {
    ("revert "@ + bit(x.revert) + "\nnocommit "@ + bit(x.no_commit) + "\nmainline "@) + decimal(
        mainline_number(x.mainline),
    ) + "\norig "@ + x.original + "\n"@ + todo_lines(x.todo)
}

/// Storing the record of a run.
pub open spec fn run_stored(m: Machine, root: Seq<char>, x: Run) -> Machine {
    written(m, git_file(root, "SEQUENCER"@), encode_utf8(run_text(x))).0
}

/// Stores the record of a run, as far as that is possible.
pub fn store_sequence(system: &mut System, root: &str, x: &Sequence)
    ensures
        final(system)@ == run_stored(old(system)@, root@, x@),
{
    let mut text = join5(
        "revert ",
        bit_text(x.revert),
        "\nnocommit ",
        bit_text(x.no_commit),
        "\nmainline ",
    );
    let n: usize = match x.mainline {
        Some(n) => n,
        None => 0,
    };
    text.append(format_usize(n).as_str());
    text.append("\norig ");
    text.append(x.original.as_str());
    text.append("\n");
    text.append(todo_text(x.todo.as_slice()).as_str());
    let _ = write_vfs(system, git_path(root, "SEQUENCER").as_str(), text.as_str().as_bytes());
}

// ---------------------------------------------------------------------------
// The operation under way
// ---------------------------------------------------------------------------

/// The operation that waits to be finished: the file that records it, and the commit it brings in.
pub open spec fn pending(m: Machine, root: Seq<char>) -> Option<(Seq<char>, Seq<char>)> {
    match pending_commit(m, root, "MERGE_HEAD"@) {
        Some(id) => Some(("MERGE_HEAD"@, id)),
        None => match pending_commit(m, root, "CHERRY_PICK_HEAD"@) {
            Some(id) => Some(("CHERRY_PICK_HEAD"@, id)),
            None => match pending_commit(m, root, "REVERT_HEAD"@) {
                Some(id) => Some(("REVERT_HEAD"@, id)),
                None => None,
            },
        },
    }
}

/// The operation that waits to be finished.
pub fn pending_operation(system: &System, root: &str) -> (r: Option<(String, String)>)
    ensures
        opt_pair(r) == pending(system@, root@),
{
    if let Some(id) = in_progress(system, root, "MERGE_HEAD") {
        return Some((copy_text("MERGE_HEAD"), id));
    }
    if let Some(id) = in_progress(system, root, "CHERRY_PICK_HEAD") {
        return Some((copy_text("CHERRY_PICK_HEAD"), id));
    }
    if let Some(id) = in_progress(system, root, "REVERT_HEAD") {
        return Some((copy_text("REVERT_HEAD"), id));
    }
    None
}

} // verus!
