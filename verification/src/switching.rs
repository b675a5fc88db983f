//! Moving HEAD: `git switch` and `git checkout`.

use vstd::prelude::*;
use vstd::utf8::encode_utf8;

use crate::bytes::bytes_of;
use crate::common::{done, names_a_path, path_named};
use crate::console::{
    cannot_write, complained, failed, fatal, misused, no_repo, repo_error, usage, write_message, Done, Io, Screen,
};
use crate::flags::{in_range, next_word, Arg, Flags, Pass, Word};
use crate::moves::{checked_out, checkout_commit};
use crate::objects::{short, short_id};
use crate::references::{branch_done, first_of, git_branch, take_first};
use crate::repo::{
    branch_before, branch_of, current_branch, find_repo_root, head_detached, head_on_branch, previous_branch,
    read_reference, reference_of, repo_root, set_head_detached, set_head_to_branch,
};
use crate::restoring::{
    checkout_side, git_restore, restore_done, side_taken, subject_at, subject_of_commit,
};
use crate::revisions::{resolve_revision, revision};
use crate::syntax::{flags_for, pass_for, read_words, words_read, Syntax, Want};
use crate::system::{Machine, System};
use crate::text::{
    copy_text, copy_texts, join2, join3, join4, join5, lemma_texts_push, opt_text, same, texts,
};

verus! {

/// Moving to a branch.
pub open spec fn switched_to(m: Machine, s: Screen, root: Seq<char>, branch: Seq<char>, announce: bool) -> Done {
    match reference_of(m, root, "refs/heads/"@ + branch) {
        None => failed(m, s, "invalid reference: "@ + branch),
        Some(id) => if branch_of(m, root) == Some(branch) {
            Done { m, s: complained(s, "Already on '"@ + branch + "'\n"@), status: 0 }
        } else {
            let d = checked_out(m, s, root, id);
            if d.status != 0 {
                d
            } else {
                let from = match branch_of(d.m, root) {
                    Some(b) => b,
                    None => "HEAD"@,
                };
                match head_on_branch(
                    d.m,
                    root,
                    branch,
                    "checkout: moving from "@ + from + " to "@ + branch,
                ) {
                    (n, Err(e)) => failed(n, d.s, write_message("HEAD"@, e)),
                    (n, Ok(())) => Done {
                        m: n,
                        s: if announce {
                            complained(d.s, "Switched to branch '"@ + branch + "'\n"@)
                        } else {
                            d.s
                        },
                        status: 0,
                    },
                }
            }
        },
    }
}

fn is_named(o: &Option<String>, name: &str) -> (r: bool)
    ensures
        r == (opt_text(*o) == Some(name@)),
{
    match o {
        Some(s) => same(s.as_str(), name),
        None => false,
    }
}

/// Moves to a branch, and says so where that is asked for.
pub fn switch_to_branch(system: &mut System, root: &str, branch: &str, announce: bool, io: &mut Io) -> (r: i32)
    ensures
        done(final(system)@, final(io)@, r) == switched_to(
            old(system)@,
            old(io)@,
            root@,
            branch@,
            announce,
        ),
{
    let id = match read_reference(system, root, join2("refs/heads/", branch).as_str()) {
        Some(id) => id,
        None => return fatal(io, join2("invalid reference: ", branch).as_str()),
    };
    if is_named(&current_branch(system, root), branch) {
        io.print_err(join3("Already on '", branch, "'\n").as_str());
        return 0;
    }
    let status = checkout_commit(system, root, id.as_str(), io);
    if status != 0 {
        return status;
    }
    let from = match current_branch(system, root) {
        Some(b) => b,
        None => copy_text("HEAD"),
    };
    let action = join4("checkout: moving from ", from.as_str(), " to ", branch);
    match set_head_to_branch(system, root, branch, action.as_str()) {
        Ok(()) => {},
        Err(e) => return cannot_write(io, "HEAD", &e),
    }
    if announce {
        io.print_err(join3("Switched to branch '", branch, "'\n").as_str());
    }
    0
}

/// Moving to a commit without a branch.
pub open spec fn switched_away(m: Machine, s: Screen, root: Seq<char>, rev: Seq<char>) -> Done {
    match revision(m, root, rev) {
        None => failed(m, s, "invalid reference: "@ + rev),
        Some(id) => {
            let d = checked_out(m, s, root, id);
            if d.status != 0 {
                d
            } else {
                match head_detached(d.m, root, id, "checkout: moving to "@ + rev) {
                    (n, Err(e)) => failed(n, d.s, write_message("HEAD"@, e)),
                    (n, Ok(())) => Done {
                        m: n,
                        s: complained(
                            d.s,
                            "Note: switching to '"@ + rev + "'.\nHEAD is now at "@ + short_id(id)
                                + " "@ + subject_at(n, root, id) + "\n"@,
                        ),
                        status: 0,
                    },
                }
            }
        },
    }
}

fn switch_detached(system: &mut System, root: &str, rev: &str, io: &mut Io) -> (r: i32)
    ensures
        done(final(system)@, final(io)@, r) == switched_away(
            old(system)@,
            old(io)@,
            root@,
            rev@,
        ),
{
    let id = match resolve_revision(system, root, rev) {
        Some(id) => id,
        None => return fatal(io, join2("invalid reference: ", rev).as_str()),
    };
    let status = checkout_commit(system, root, id.as_str(), io);
    if status != 0 {
        return status;
    }
    match set_head_detached(
        system,
        root,
        id.as_str(),
        join2("checkout: moving to ", rev).as_str(),
    ) {
        Ok(()) => {},
        Err(e) => return cannot_write(io, "HEAD", &e),
    }
    let mut out = join5(
        "Note: switching to '",
        rev,
        "'.\nHEAD is now at ",
        short(id.as_str()).as_str(),
        " ",
    );
    out.append(subject_of_commit(system, root, id.as_str()).as_str());
    out.append("\n");
    io.print_err(out.as_str());
    0
}

/// Bytes with another end, where they end in one way.
pub open spec fn with_tail(b: Seq<u8>, from: Seq<u8>, to: Seq<u8>) -> Seq<u8> {
    if from.len() <= b.len() && b.skip(b.len() - from.len()) == from {
        b.take(b.len() - from.len()) + to
    } else {
        b
    }
}

fn replace_tail(buffer: &[u8], from: &[u8], to: &[u8]) -> (r: Vec<u8>)
    ensures
        r@ == with_tail(buffer@, from@, to@),
{
    if from.len() > buffer.len() {
        return crate::text::copy_bytes(buffer);
    }
    let keep: usize = buffer.len() - from.len();
    let mut i: usize = 0;
    while i < from.len()
        invariant
            i <= from@.len(),
            keep + from@.len() == buffer@.len(),
            buffer@.len() == buffer.len(),
            forall|k: int| 0 <= k < i ==> buffer@[keep + k] == #[trigger] from@[k],
        decreases from@.len() - i,
    {
        if buffer[keep + i] != from[i] {
            assert(buffer@.skip(keep as int)[i as int] == buffer@[keep + i]);
            return crate::text::copy_bytes(buffer);
        }
        i += 1;
    }
    assert(buffer@.skip(keep as int) =~= from@);
    let mut out: Vec<u8> = Vec::new();
    let mut k: usize = 0;
    while k < keep
        invariant
            k <= keep <= buffer@.len(),
            out@ =~= buffer@.take(k as int),
        decreases keep - k,
    {
        out.push(buffer[k]);
        k += 1;
    }
    let mut more = crate::text::copy_bytes(to);
    out.append(&mut more);
    out
}

/// The arguments with which a branch is made.
pub open spec fn making_arguments(branch: Seq<char>, start: Option<Seq<char>>, force: bool) -> Seq<Seq<char>> {
    let front: Seq<Seq<char>> = if force {
        seq!["-f"@, branch]
    } else {
        seq![branch]
    };
    match start {
        Some(v) => front.push(v),
        None => front,
    }
}

/// Making a branch and moving to it. The report says that the branch is new.
pub open spec fn created_and_switched(
    m: Machine,
    s: Screen,
    root: Seq<char>,
    branch: Seq<char>,
    start: Option<Seq<char>>,
    force: bool,
) -> Done {
    let made = branch_done(m, s, making_arguments(branch, start, force));
    if made.status != 0 {
        made
    } else {
        let d = switched_to(made.m, made.s, root, branch, true);
        if d.status != 0 {
            d
        } else {
            Done {
                s: Screen {
                    err: with_tail(
                        d.s.err,
                        encode_utf8("Switched to branch '"@ + branch + "'\n"@),
                        encode_utf8("Switched to a new branch '"@ + branch + "'\n"@),
                    ),
                    ..d.s
                },
                ..d
            }
        }
    }
}

fn create_and_switch(
    system: &mut System,
    root: &str,
    branch: &str,
    start: &Option<String>,
    force: bool,
    io: &mut Io,
) -> (r: i32)
    ensures
        done(final(system)@, final(io)@, r) == created_and_switched(
            old(system)@,
            old(io)@,
            root@,
            branch@,
            opt_text(*start),
            force,
        ),
{
    broadcast use lemma_texts_push;

    let mut args: Vec<String> = Vec::new();
    assert(texts(args@) =~= seq![]);
    if force {
        args.push(copy_text("-f"));
    }
    args.push(copy_text(branch));
    assert(texts(args@) =~= making_arguments(branch@, None, force));
    if let Some(v) = start {
        args.push(copy_text(v.as_str()));
    }
    let status = git_branch(system, args.as_slice(), io);
    if status != 0 {
        return status;
    }
    let status = switch_to_branch(system, root, branch, true, io);
    if status == 0 {
        let switched = join3("Switched to branch '", branch, "'\n");
        let created = join3("Switched to a new branch '", branch, "'\n");
        io.err = replace_tail(
            io.err.as_slice(),
            bytes_of(switched.as_str()).as_slice(),
            bytes_of(created.as_str()).as_slice(),
        );
    }
    status
}

/// The branch that a name stands for: `-` is the one before.
pub open spec fn branch_meant(m: Machine, root: Seq<char>, name: Seq<char>) -> Option<Seq<char>> {
    if name == "-"@ {
        branch_before(m, root)
    } else {
        Some(name)
    }
}

fn resolve_previous(system: &System, root: &str, name: &str) -> (r: Option<String>)
    ensures
        opt_text(r) == branch_meant(system@, root@, name@),
{
    if same(name, "-") {
        previous_branch(system, root)
    } else {
        Some(copy_text(name))
    }
}

// ---------------------------------------------------------------------------
// git switch
// ---------------------------------------------------------------------------

/// What the options of `git switch` and `git checkout` ask for.
#[derive(Clone, Copy)]
pub struct SwitchAsk {
    pub create: bool,
    pub force: bool,
    pub detach: bool,
}

impl View for SwitchAsk {
    type V = SwitchAsk;

    open spec fn view(&self) -> SwitchAsk {
        *self
    }
}

/// What is asked for without any option.
pub open spec fn plain_switch() -> SwitchAsk {
    SwitchAsk { create: false, force: false, detach: false }
}

impl Syntax for SwitchAsk {
    open spec fn wants(name: Seq<char>) -> Want {
        Want::Attached
    }

    open spec fn with(asked: SwitchAsk, name: Seq<char>, value: Option<Seq<char>>) -> Result<
        SwitchAsk,
        Seq<char>,
    > {
        if name == "-c"@ || name == "--create"@ {
            Ok(SwitchAsk { create: true, ..asked })
        } else if name == "-C"@ || name == "--force-create"@ {
            Ok(SwitchAsk { create: true, force: true, ..asked })
        } else if name == "-d"@ || name == "--detach"@ {
            Ok(SwitchAsk { detach: true, ..asked })
        } else if name == "-f"@ || name == "--force"@ || name == "--discard-changes"@ {
            Ok(SwitchAsk { force: true, ..asked })
        } else if name == "-q"@ || name == "--quiet"@ || name == "--no-guess"@ || name
            == "--no-track"@ {
            Ok(asked)
        } else {
            Err("unsupported switch option: "@ + name)
        }
    }

    fn wanted(name: &str) -> (r: Want) {
        Want::Attached
    }

    fn apply(&mut self, name: &str, value: Option<String>) -> (r: Result<(), String>) {
        if same(name, "-c") || same(name, "--create") {
            self.create = true;
        } else if same(name, "-C") || same(name, "--force-create") {
            self.create = true;
            self.force = true;
        } else if same(name, "-d") || same(name, "--detach") {
            self.detach = true;
        } else if same(name, "-f") || same(name, "--force") || same(name, "--discard-changes") {
            self.force = true;
        } else if same(name, "-q") || same(name, "--quiet") || same(name, "--no-guess") || same(
            name,
            "--no-track",
        ) {
        } else {
            return Err(join2("unsupported switch option: ", name));
        }
        Ok(())
    }
}

/// `git switch` in a repository.
pub open spec fn switch_within(m: Machine, s: Screen, root: Seq<char>, x: SwitchAsk, v: Seq<Seq<char>>) -> Done {
    if x.create && v.len() == 1 {
        created_and_switched(m, s, root, v[0], None, x.force)
    } else if x.create && v.len() == 2 {
        created_and_switched(m, s, root, v[0], Some(v[1]), x.force)
    } else if x.detach && v.len() == 1 {
        switched_away(m, s, root, v[0])
    } else if v.len() == 1 {
        match branch_meant(m, root, v[0]) {
            Some(b) => switched_to(m, s, root, b, true),
            None => failed(m, s, "no previous branch to switch to"@),
        }
    } else {
        misused(m, s, "usage: git switch [-c] BRANCH [START_POINT]"@)
    }
}

/// `git switch`.
pub open spec fn switch_done(m: Machine, s: Screen, args: Seq<Seq<char>>) -> Done {
    match repo_root(m) {
        None => no_repo(m, s),
        Some(root) => match words_read::<SwitchAsk>(
            pass_for(args, "qcdf"@, ""@),
            plain_switch(),
            seq![],
        ) {
            Err(message) => misused(m, s, message),
            Ok((x, v)) => switch_within(m, s, root, x, v),
        },
    }
}

/// `git switch`: moves to a branch.
pub fn git_switch(system: &mut System, args: &[String], io: &mut Io) -> (r: i32)
    ensures
        done(final(system)@, final(io)@, r) == switch_done(old(system)@, old(io)@, texts(args@)),
{
    let root = match find_repo_root(system) {
        Some(root) => root,
        None => return repo_error(io),
    };
    let start = SwitchAsk { create: false, force: false, detach: false };
    let (x, v) = match read_words(flags_for(args, "qcdf", ""), start) {
        Ok(words) => words,
        Err(message) => return usage(io, message.as_str()),
    };
    let ghost all = texts(v@);
    let n: usize = v.len();
    assert(all.len() == n);
    assert(forall|k: int| 0 <= k < n ==> all[k] == #[trigger] v@[k]@);
    if x.create && n == 1 {
        return create_and_switch(system, root.as_str(), v[0].as_str(), &None, x.force, io);
    }
    if x.create && n == 2 {
        let start = Some(copy_text(v[1].as_str()));
        return create_and_switch(system, root.as_str(), v[0].as_str(), &start, x.force, io);
    }
    if x.detach && n == 1 {
        return switch_detached(system, root.as_str(), v[0].as_str(), io);
    }
    if n == 1 {
        return match resolve_previous(system, root.as_str(), v[0].as_str()) {
            Some(b) => switch_to_branch(system, root.as_str(), b.as_str(), true, io),
            None => fatal(io, "no previous branch to switch to"),
        };
    }
    usage(io, "usage: git switch [-c] BRANCH [START_POINT]")
}

// ---------------------------------------------------------------------------
// git checkout
// ---------------------------------------------------------------------------

/// What the arguments of `git checkout` ask for.
pub struct CheckoutAsk {
    pub create: bool,
    pub force: bool,
    pub detach: bool,
    /// Which side of a conflict is taken; `true` is theirs.
    pub side: Option<bool>,
    pub operands: Vec<String>,
    pub paths: Vec<String>,
}

/// What is asked of `git checkout`.
#[verifier::ext_equal]
pub struct CheckoutWish {
    pub create: bool,
    pub force: bool,
    pub detach: bool,
    pub side: Option<bool>,
    pub operands: Seq<Seq<char>>,
    pub paths: Seq<Seq<char>>,
}

impl View for CheckoutAsk {
    type V = CheckoutWish;

    open spec fn view(&self) -> CheckoutWish {
        CheckoutWish {
            create: self.create,
            force: self.force,
            detach: self.detach,
            side: self.side,
            operands: texts(self.operands@),
            paths: texts(self.paths@),
        }
    }
}

/// What `git checkout` is asked for without any argument.
pub open spec fn plain_checkout() -> CheckoutWish {
    CheckoutWish {
        create: false,
        force: false,
        detach: false,
        side: None,
        operands: seq![],
        paths: seq![],
    }
}

/// What is asked for once an option is read.
pub open spec fn checkout_option(x: CheckoutWish, name: Seq<char>) -> Result<CheckoutWish, Seq<char>> {
    if name == "-b"@ {
        Ok(CheckoutWish { create: true, ..x })
    } else if name == "-B"@ {
        Ok(CheckoutWish { create: true, force: true, ..x })
    } else if name == "--detach"@ {
        Ok(CheckoutWish { detach: true, ..x })
    } else if name == "-f"@ || name == "--force"@ {
        Ok(CheckoutWish { force: true, ..x })
    } else if name == "-q"@ || name == "--quiet"@ {
        Ok(x)
    } else if name == "--ours"@ {
        Ok(CheckoutWish { side: Some(false), ..x })
    } else if name == "--theirs"@ {
        Ok(CheckoutWish { side: Some(true), ..x })
    } else {
        Err("unsupported checkout option: "@ + name)
    }
}

/// What the arguments ask for from where the pass stands. What follows `--` is a path.
pub open spec fn checkout_words(p: Pass, x: CheckoutWish) -> Result<CheckoutWish, Seq<char>>
    decreases p.args.len() - p.at,
{
    let (word, q) = next_word(p);
    match word {
        None => Ok(x),
        Some(Word::Operand(value)) => checkout_words(
            q,
            if q.operands_only {
                CheckoutWish { paths: x.paths.push(value), ..x }
            } else {
                CheckoutWish { operands: x.operands.push(value), ..x }
            },
        ),
        Some(Word::Option { name, .. }) => match checkout_option(x, name) {
            Ok(y) => checkout_words(q, y),
            Err(e) => Err(e),
        },
    }
}

/// What the words that were read say.
pub open spec fn checkout_result(r: Result<CheckoutAsk, String>) -> Result<CheckoutWish, Seq<char>> {
    match r {
        Ok(x) => Ok(x@),
        Err(e) => Err(e@),
    }
}

fn read_checkout_option(x: CheckoutAsk, name: &str) -> (r: Result<CheckoutAsk, String>)
    ensures
        checkout_result(r) == checkout_option(x@, name@),
{
    let mut x = x;
    if same(name, "-b") {
        x.create = true;
    } else if same(name, "-B") {
        x.create = true;
        x.force = true;
    } else if same(name, "--detach") {
        x.detach = true;
    } else if same(name, "-f") || same(name, "--force") {
        x.force = true;
    } else if same(name, "-q") || same(name, "--quiet") {
    } else if same(name, "--ours") {
        x.side = Some(false);
    } else if same(name, "--theirs") {
        x.side = Some(true);
    } else {
        return Err(join2("unsupported checkout option: ", name));
    }
    Ok(x)
}

fn read_checkout(flags: Flags) -> (r: Result<CheckoutAsk, String>)
    requires
        in_range(flags@),
    ensures
        checkout_result(r) == checkout_words(flags@, plain_checkout()),
{
    let mut pass = flags;
    let mut x = CheckoutAsk {
        create: false,
        force: false,
        detach: false,
        side: None,
        operands: Vec::new(),
        paths: Vec::new(),
    };
    assert(x@ =~= plain_checkout());
    let ghost goal = checkout_words(flags@, plain_checkout());
    loop
        invariant
            in_range(pass@),
            goal == checkout_words(flags@, plain_checkout()),
            goal == checkout_words(pass@, x@),
        decreases pass@.args.len() - pass@.at,
    {
        broadcast use lemma_texts_push;

        match pass.next() {
            None => return Ok(x),
            Some(Arg::Operand(value)) => {
                if pass.separated() {
                    x.paths.push(value);
                } else {
                    x.operands.push(value);
                }
            },
            Some(Arg::Option { name, .. }) => {
                x = match read_checkout_option(x, name.as_str()) {
                    Ok(y) => y,
                    Err(e) => return Err(e),
                };
            },
        }
    }
}

/// The arguments with which paths are restored. Taking them from a revision also stages them.
pub open spec fn restoring_arguments(source: Option<Seq<char>>, paths: Seq<Seq<char>>) -> Seq<Seq<char>> {
    (match source {
        Some(v) => seq!["--source"@, v, "--staged"@, "--worktree"@, "--"@],
        None => seq!["--"@],
    }) + paths
}

/// The arguments with which paths are restored.
pub fn restore_arguments(source: &Option<String>, paths: &[String]) -> (r: Vec<String>)
    ensures
        texts(r@) == restoring_arguments(opt_text(*source), texts(paths@)),
{
    let mut v: Vec<String> = Vec::new();
    if let Some(s) = source {
        v.push(copy_text("--source"));
        v.push(copy_text(s.as_str()));
        v.push(copy_text("--staged"));
        v.push(copy_text("--worktree"));
    }
    v.push(copy_text("--"));
    let ghost front = texts(v@);
    assert(front =~= restoring_arguments(opt_text(*source), seq![]));
    let ghost a = v@;
    let mut more = copy_texts(paths);
    let ghost b = more@;
    v.append(&mut more);
    assert(texts(v@) =~= restoring_arguments(opt_text(*source), texts(paths@)));
    v
}

/// What `git checkout` does with one operand: a branch, a revision or a path.
pub open spec fn target_checked_out(m: Machine, s: Screen, root: Seq<char>, target: Seq<char>) -> Done {
    let branch = branch_meant(m, root, target);
    if branch is Some && reference_of(m, root, "refs/heads/"@ + branch->0) is Some {
        switched_to(m, s, root, branch->0, true)
    } else if revision(m, root, target) is Some {
        switched_away(m, s, root, target)
    } else if !path_named(m, root, target) {
        Done {
            m,
            s: complained(
                s,
                "error: pathspec '"@ + target + "' did not match any file(s) known to git\n"@,
            ),
            status: 1,
        }
    } else {
        restore_done(m, s, restoring_arguments(None, seq![target]))
    }
}

/// `git checkout` in a repository.
pub open spec fn checkout_within(m: Machine, s: Screen, root: Seq<char>, x: CheckoutWish) -> Done {
    let v = x.operands;
    if x.side is Some {
        side_taken(
            m,
            s,
            root,
            x.side->0,
            if x.paths.len() == 0 {
                v
            } else {
                x.paths
            },
        )
    } else if x.paths.len() > 0 {
        restore_done(m, s, restoring_arguments(first_of(v), x.paths))
    } else if x.create && v.len() == 1 {
        created_and_switched(m, s, root, v[0], None, x.force)
    } else if x.create && v.len() == 2 {
        created_and_switched(m, s, root, v[0], Some(v[1]), x.force)
    } else if x.detach && v.len() == 1 {
        switched_away(m, s, root, v[0])
    } else if v.len() == 1 {
        target_checked_out(m, s, root, v[0])
    } else {
        misused(m, s, "usage: git checkout [-b] BRANCH | [REVISION] -- PATH..."@)
    }
}

/// `git checkout`.
pub open spec fn checkout_done(m: Machine, s: Screen, args: Seq<Seq<char>>) -> Done {
    match repo_root(m) {
        None => no_repo(m, s),
        Some(root) => match checkout_words(pass_for(args, "qbf"@, ""@), plain_checkout()) {
            Err(message) => misused(m, s, message),
            Ok(x) => checkout_within(m, s, root, x),
        },
    }
}

fn check_out_target(system: &mut System, root: &str, target: &str, io: &mut Io) -> (r: i32)
    ensures
        done(final(system)@, final(io)@, r) == target_checked_out(
            old(system)@,
            old(io)@,
            root@,
            target@,
        ),
{
    if let Some(b) = resolve_previous(system, root, target) {
        if read_reference(system, root, join2("refs/heads/", b.as_str()).as_str()).is_some() {
            return switch_to_branch(system, root, b.as_str(), true, io);
        }
    }
    if resolve_revision(system, root, target).is_some() {
        return switch_detached(system, root, target, io);
    }
    if !names_a_path(system, root, target) {
        io.print_err(
            join3(
                "error: pathspec '",
                target,
                "' did not match any file(s) known to git\n",
            ).as_str(),
        );
        return 1;
    }
    let mut one: Vec<String> = Vec::new();
    one.push(copy_text(target));
    assert(texts(one@) =~= seq![target@]);
    let args = restore_arguments(&None, one.as_slice());
    git_restore(system, args.as_slice(), io)
}

fn act_checkout(system: &mut System, root: &str, x: &CheckoutAsk, io: &mut Io) -> (r: i32)
    ensures
        done(final(system)@, final(io)@, r) == checkout_within(
            old(system)@,
            old(io)@,
            root@,
            x@,
        ),
{
    let ghost v = x@.operands;
    let n: usize = x.operands.len();
    assert(v.len() == n);
    assert(x@.paths.len() == x.paths@.len());
    assert(forall|k: int| 0 <= k < n ==> v[k] == #[trigger] x.operands@[k]@);
    if let Some(theirs) = x.side {
        if x.paths.len() == 0 {
            return checkout_side(system, root, theirs, x.operands.as_slice(), io);
        }
        return checkout_side(system, root, theirs, x.paths.as_slice(), io);
    }
    if x.paths.len() > 0 {
        let source = take_first(x.operands.as_slice());
        let args = restore_arguments(&source, x.paths.as_slice());
        return git_restore(system, args.as_slice(), io);
    }
    if x.create && n == 1 {
        return create_and_switch(system, root, x.operands[0].as_str(), &None, x.force, io);
    }
    if x.create && n == 2 {
        let start = Some(copy_text(x.operands[1].as_str()));
        return create_and_switch(system, root, x.operands[0].as_str(), &start, x.force, io);
    }
    if x.detach && n == 1 {
        return switch_detached(system, root, x.operands[0].as_str(), io);
    }
    if n == 1 {
        return check_out_target(system, root, x.operands[0].as_str(), io);
    }
    usage(io, "usage: git checkout [-b] BRANCH | [REVISION] -- PATH...")
}

/// `git checkout`: moves to a branch or a commit, or restores paths.
pub fn git_checkout(system: &mut System, args: &[String], io: &mut Io) -> (r: i32)
    ensures
        done(final(system)@, final(io)@, r) == checkout_done(old(system)@, old(io)@, texts(args@)),
{
    let root = match find_repo_root(system) {
        Some(root) => root,
        None => return repo_error(io),
    };
    let x = match read_checkout(flags_for(args, "qbf", "")) {
        Ok(x) => x,
        Err(message) => return usage(io, message.as_str()),
    };
    act_checkout(system, root.as_str(), &x, io)
}

/// A switch to the branch that is checked out changes nothing.
pub proof fn lemma_switch_to_current(m: Machine, s: Screen, root: Seq<char>, branch: Seq<char>, announce: bool)
    requires
        branch_of(m, root) == Some(branch),
    ensures
        switched_to(m, s, root, branch, announce).m == m,
{
}

} // verus!
