//! The `git` command: what holds for every subcommand, and which of them runs.
//!
//! What would need a network is refused and noted, and what is left out of the real command fails
//! visibly.

use vstd::prelude::*;

use crate::applying::{apply_begun, begin_apply, Errand, Plan};
use crate::common::done;
use crate::configuration::{alias, alias_of, alias_settings, count_settings, Globals, Overrides};
use crate::console::{complained, failed, fatal, misused, printed, usage, Done, Io, Screen};
use crate::flags::{in_range, needed_value, next_word, Arg, Pass, Word};
use crate::importing::{
    default_config, directories_made, first_settings, list_directories, make_directories, repository_directories,
};
use crate::order::{bind, lemma_no_more_than_keys, lookup, OrdMap};
use crate::registry::{CommandSpec, Program, Trust};
use crate::repo::{git_file, git_path, write_vfs, written};
use crate::settings::{proper_key, serialize_config, settings_bytes, valid_config_key};
use crate::syntax::{flags_for, pass_for};
use crate::system::{
    below, dir_at, path_join, refusal_text, resolve_against, resolved, settled, with_parents, Machine, System,
};
use crate::text::{
    chars_of, copy_text, copy_texts, cut_once, join2, join3, join4, lowered, opt_text, same, split_once, starts,
    starts_with, texts, to_ascii_lowercase,
};

verus! {

/// The table with this command.
pub open spec fn git_spec() -> CommandSpec {
    CommandSpec {
        trust: Trust::Partial,
        program: Program::Git,
        start_cost: 150,
        start_memory: 16_384,
    }
}

/// Enters this command.
pub fn register(m: &mut OrdMap<CommandSpec>)
    ensures
        final(m)@ == bind(old(m)@, "/usr/bin/git"@, git_spec()),
{
    m.insert(
        copy_text("/usr/bin/git"),
        CommandSpec {
            trust: Trust::Partial,
            program: Program::Git,
            start_cost: 150,
            start_memory: 16_384,
        },
    );
}

// ---------------------------------------------------------------------------
// Standard input
// ---------------------------------------------------------------------------

/// Whether some argument from `i` on is an operand.
pub open spec fn some_operand(v: Seq<Seq<char>>, i: int) -> bool
    decreases v.len() - i,
{
    if i < 0 || i >= v.len() {
        false
    } else {
        !starts(v[i], "-"@) || some_operand(v, i + 1)
    }
}

/// Whether the arguments from `i` on ask for content from standard input.
pub open spec fn asks_stdin(v: Seq<Seq<char>>, i: int) -> bool
    decreases v.len() - i,
{
    if i < 0 || i >= v.len() {
        false
    } else {
        v[i] == "--stdin"@ || asks_stdin(v, i + 1)
    }
}

/// Whether the arguments from `i` on take a message from standard input; `before` is the argument
/// before them.
pub open spec fn message_from_stdin(v: Seq<Seq<char>>, before: Seq<char>, i: int) -> bool
    decreases v.len() - i,
{
    if i < 0 || i >= v.len() {
        false
    } else {
        v[i] == "--file=-"@ || (v[i] == "-"@ && (before == "-F"@ || before == "--file"@))
            || message_from_stdin(v, v[i], i + 1)
    }
}

/// Whether a subcommand with its arguments reads standard input: `apply` without an operand, `commit`
/// for its message, and `hash-object` and `check-ignore` where they are told to. Every other leaves it
/// alone. What is no subcommand may be an alias of one of these.
pub open spec fn command_reads(v: Seq<Seq<char>>) -> bool {
    if v.len() == 0 || v[0] == "help"@ {
        false
    } else if v[0] == "apply"@ {
        !some_operand(v, 1)
    } else if v[0] == "commit"@ {
        message_from_stdin(v, ""@, 1)
    } else if v[0] == "hash-object"@ || v[0] == "check-ignore"@ {
        asks_stdin(v, 1)
    } else if known(v[0]) {
        false
    } else {
        asks_stdin(v, 1) || message_from_stdin(v, ""@, 1)
    }
}

/// Whether an invocation reads standard input, which the subcommand behind its options decides.
pub open spec fn reads_stdin(args: Seq<Seq<char>>) -> bool {
    match begun(pass_for(args, ""@, "Cc"@), "/"@, seq![], None) {
        Begin::Run { rest, .. } => command_reads(rest),
        _ => false,
    }
}

fn has_operand(args: &[String]) -> (r: bool)
    ensures
        r == some_operand(texts(args@), 1),
{
    let ghost all = texts(args@);
    assert(all.len() == args@.len());
    let mut i: usize = 1;
    while i < args.len()
        invariant
            1 <= i,
            all == texts(args@),
            all.len() == args@.len(),
            some_operand(all, 1) == some_operand(all, i as int),
        decreases args@.len() - i,
    {
        assert(all[i as int] == args@[i as int]@);
        if !starts_with(args[i].as_str(), "-") {
            return true;
        }
        i += 1;
    }
    false
}

fn asks_for_input(args: &[String]) -> (r: bool)
    ensures
        r == asks_stdin(texts(args@), 1),
{
    let ghost all = texts(args@);
    assert(all.len() == args@.len());
    let mut i: usize = 1;
    while i < args.len()
        invariant
            1 <= i,
            all == texts(args@),
            all.len() == args@.len(),
            asks_stdin(all, 1) == asks_stdin(all, i as int),
        decreases args@.len() - i,
    {
        assert(all[i as int] == args@[i as int]@);
        if same(args[i].as_str(), "--stdin") {
            return true;
        }
        i += 1;
    }
    false
}

fn takes_message(args: &[String]) -> (r: bool)
    ensures
        r == message_from_stdin(texts(args@), ""@, 1),
{
    let ghost all = texts(args@);
    assert(all.len() == args@.len());
    let mut before = copy_text("");
    let mut i: usize = 1;
    while i < args.len()
        invariant
            1 <= i,
            all == texts(args@),
            all.len() == args@.len(),
            message_from_stdin(all, ""@, 1) == message_from_stdin(all, before@, i as int),
        decreases args@.len() - i,
    {
        assert(all[i as int] == args@[i as int]@);
        let a = args[i].as_str();
        if same(a, "--file=-") {
            return true;
        }
        if same(a, "-") && (same(before.as_str(), "-F") || same(before.as_str(), "--file")) {
            return true;
        }
        before = copy_text(a);
        i += 1;
    }
    false
}

fn does_command_read(args: &[String]) -> (r: bool)
    ensures
        r == command_reads(texts(args@)),
{
    assert(texts(args@).len() == args@.len());
    if args.len() == 0 {
        return false;
    }
    assert(texts(args@)[0] == args@[0]@);
    let name = args[0].as_str();
    if same(name, "help") {
        false
    } else if same(name, "apply") {
        !has_operand(args)
    } else if same(name, "commit") {
        takes_message(args)
    } else if same(name, "hash-object") || same(name, "check-ignore") {
        asks_for_input(args)
    } else if is_known(name) {
        false
    } else {
        asks_for_input(args) || takes_message(args)
    }
}

/// Whether an invocation reads its message, its patch or the content of an object from standard input.
pub fn reads_standard_input(args: &[String]) -> (r: bool)
    ensures
        r == reads_stdin(texts(args@)),
{
    match read_opening(args, "/") {
        Opening::Run { rest, .. } => does_command_read(rest.as_slice()),
        _ => false,
    }
}

// ---------------------------------------------------------------------------
// git init
// ---------------------------------------------------------------------------

/// What the arguments of `git init` ask for.
#[verifier::ext_equal]
pub struct InitWish {
    pub branch: Seq<char>,
    pub quiet: bool,
    pub target: Option<Seq<char>>,
}

/// What the arguments of `git init` from where the pass stands ask for, or the complaint.
pub open spec fn init_words(p: Pass, x: InitWish) -> Result<InitWish, Seq<char>>
    decreases p.args.len() - p.at,
{
    let (word, q) = next_word(p);
    match word {
        None => Ok(x),
        Some(Word::Operand(value)) => if x.target is None {
            init_words(q, InitWish { target: Some(value), ..x })
        } else {
            Err("usage: git init [-b BRANCH] [DIRECTORY]"@)
        },
        Some(Word::Option { name, attached }) => if name == "--bare"@ {
            Err("--bare is unsupported"@)
        } else if name == "-q"@ || name == "--quiet"@ {
            init_words(q, InitWish { quiet: true, ..x })
        } else if name == "-b"@ || name == "--initial-branch"@ {
            let (value, after) = needed_value(q, attached);
            match value {
                Some(branch) => init_words(after, InitWish { branch, ..x }),
                None => Err("-b requires a branch name"@),
            }
        } else {
            Err("unsupported init option: "@ + name)
        },
    }
}

/// What the arguments of `git init` ask for.
pub struct InitAsk {
    pub branch: String,
    pub quiet: bool,
    pub target: Option<String>,
}

impl View for InitAsk {
    type V = InitWish;

    open spec fn view(&self) -> InitWish {
        InitWish { branch: self.branch@, quiet: self.quiet, target: opt_text(self.target) }
    }
}

/// What is asked for before any argument is read.
pub open spec fn plain_init() -> InitWish {
    InitWish { branch: "main"@, quiet: false, target: None }
}

fn read_init(args: &[String]) -> (r: Result<InitAsk, String>)
    ensures
        match r {
            Ok(x) => init_words(pass_for(texts(args@), "q"@, "b"@), plain_init()) == Ok::<
                InitWish,
                Seq<char>,
            >(x@),
            Err(e) => init_words(pass_for(texts(args@), "q"@, "b"@), plain_init()) == Err::<
                InitWish,
                Seq<char>,
            >(e@),
        },
{
    let mut pass = flags_for(args, "q", "b");
    let mut x = InitAsk { branch: copy_text("main"), quiet: false, target: None };
    let ghost start = pass@;
    let ghost goal = init_words(start, plain_init());
    loop
        invariant
            in_range(pass@),
            start == pass_for(texts(args@), "q"@, "b"@),
            goal == init_words(start, plain_init()),
            goal == init_words(pass@, x@),
        decreases pass@.args.len() - pass@.at,
    {
        match pass.next() {
            None => return Ok(x),
            Some(Arg::Operand(value)) => {
                if x.target.is_some() {
                    return Err(copy_text("usage: git init [-b BRANCH] [DIRECTORY]"));
                }
                x.target = Some(value);
            },
            Some(Arg::Option { name, attached }) => {
                if same(name.as_str(), "--bare") {
                    return Err(copy_text("--bare is unsupported"));
                } else if same(name.as_str(), "-q") || same(name.as_str(), "--quiet") {
                    x.quiet = true;
                } else if same(name.as_str(), "-b") || same(name.as_str(), "--initial-branch") {
                    match pass.value(attached) {
                        Some(branch) => x.branch = branch,
                        None => return Err(copy_text("-b requires a branch name")),
                    }
                } else {
                    return Err(join2("unsupported init option: ", name.as_str()));
                }
            },
        }
    }
}

/// The complaint of `git init` about files.
pub open spec fn init_failed(m: Machine, s: Screen, e: crate::system::Refusal) -> Done {
    Done { m, s: complained(s, "git init: "@ + refusal_text(e) + "\n"@), status: 1 }
}

fn fail_init(io: &mut Io, e: &crate::system::FileError) -> (r: i32)
    ensures
        forall|m: Machine|
            #![trigger init_failed(m, old(io)@, e@)]
            init_failed(m, old(io)@, e@) == (Done { m, s: final(io)@, status: r as int }),
{
    io.print_err(join3("git init: ", e.message().as_str(), "\n").as_str());
    1
}

/// Writing the first files of a repository: HEAD, an empty index and the settings.
pub open spec fn first_files(m: Machine, target: Seq<char>, branch: Seq<char>) -> (
    Machine,
    Result<(), crate::system::Refusal>,
) {
    match written(
        m,
        git_file(target, "HEAD"@),
        vstd::utf8::encode_utf8("ref: refs/heads/"@ + branch + "\n"@),
    ) {
        (m1, Err(e)) => (m1, Err(e)),
        (m1, Ok(())) => match written(m1, git_file(target, "index"@), seq![]) {
            (m2, Err(e)) => (m2, Err(e)),
            (m2, Ok(())) => written(
                m2,
                git_file(target, "config"@),
                settings_bytes(first_settings()),
            ),
        },
    }
}

fn write_first_files(system: &mut System, target: &str, branch: &str) -> (r: Result<
    (),
    crate::system::FileError,
>)
    ensures
        (final(system)@, crate::system::outcome(r)) == first_files(
            old(system)@,
            target@,
            branch@,
        ),
{
    match write_vfs(
        system,
        git_path(target, "HEAD").as_str(),
        join3("ref: refs/heads/", branch, "\n").as_str().as_bytes(),
    ) {
        Ok(()) => {},
        Err(e) => return Err(e),
    }
    let nothing: Vec<u8> = Vec::new();
    assert(nothing@ =~= seq![]);
    match write_vfs(system, git_path(target, "index").as_str(), nothing.as_slice()) {
        Ok(()) => {},
        Err(e) => return Err(e),
    }
    let settings = serialize_config(&default_config());
    write_vfs(system, git_path(target, "config").as_str(), settings.as_slice())
}

/// Making a repository at a directory that is there.
pub open spec fn initialized(m: Machine, s: Screen, target: Seq<char>, x: InitWish) -> Done {
    let git = below(target, ".git"@);
    let again = dir_at(m.files, git);
    match directories_made(m, repository_directories(target), 0) {
        (n, Err(e)) => init_failed(n, s, e),
        (n, Ok(())) => {
            let (k, r) = if again {
                (n, Ok::<(), crate::system::Refusal>(()))
            } else {
                first_files(n, target, x.branch)
            };
            match r {
                Err(e) => init_failed(k, s, e),
                Ok(()) => Done {
                    m: k,
                    s: if x.quiet {
                        s
                    } else {
                        printed(
                            s,
                            (if again {
                                "Reinitialized existing"@
                            } else {
                                "Initialized empty"@
                            }) + " Git repository in "@ + git + "/\n"@,
                        )
                    },
                    status: 0,
                },
            }
        },
    }
}

/// What `git init` does.
pub open spec fn init_done(m: Machine, s: Screen, args: Seq<Seq<char>>) -> Done {
    match init_words(pass_for(args, "q"@, "b"@), plain_init()) {
        Err(e) => misused(m, s, e),
        Ok(x) => {
            let target = match x.target {
                Some(path) => resolved(m.cwd, path),
                None => m.cwd,
            };
            if dir_at(m.files, target) {
                initialized(m, s, target, x)
            } else {
                match settled(m, with_parents(m.files, target + "/."@)) {
                    (n, Err(e)) => init_failed(n, s, e),
                    (n, Ok(())) => initialized(n, s, target, x),
                }
            }
        },
    }
}

fn initialize(system: &mut System, target: &str, x: &InitAsk, io: &mut Io) -> (r: i32)
    ensures
        done(final(system)@, final(io)@, r) == initialized(
            old(system)@,
            old(io)@,
            target@,
            x@,
        ),
{
    let git = path_join(target, ".git");
    let again = system.is_dir(git.as_str());
    match make_directories(system, list_directories(target).as_slice()) {
        Ok(()) => {},
        Err(e) => {
            assert(init_failed(system@, io@, e@).m == system@);
            return fail_init(io, &e);
        },
    }
    if !again {
        match write_first_files(system, target, x.branch.as_str()) {
            Ok(()) => {},
            Err(e) => {
                assert(init_failed(system@, io@, e@).m == system@);
                return fail_init(io, &e);
            },
        }
    }
    if !x.quiet {
        io.print(
            join4(
                if again {
                    "Reinitialized existing"
                } else {
                    "Initialized empty"
                },
                " Git repository in ",
                git.as_str(),
                "/\n",
            ).as_str(),
        );
    }
    0
}

/// `git init`: makes a repository.
pub fn git_init(system: &mut System, args: &[String], io: &mut Io) -> (r: i32)
    ensures
        done(final(system)@, final(io)@, r) == init_done(old(system)@, old(io)@, texts(args@)),
{
    let x = match read_init(args) {
        Ok(x) => x,
        Err(e) => return usage(io, e.as_str()),
    };
    let cwd = system.cwd();
    let target = match &x.target {
        Some(path) => resolve_against(cwd.as_str(), path.as_str()),
        None => cwd,
    };
    if !system.is_dir(target.as_str()) {
        match system.mkdir_all(target.as_str()) {
            Ok(()) => {},
            Err(e) => {
                assert(init_failed(system@, io@, e@).m == system@);
                return fail_init(io, &e);
            },
        }
    }
    initialize(system, target.as_str(), &x, io)
}

// ---------------------------------------------------------------------------
// Which subcommand runs
// ---------------------------------------------------------------------------

/// Whether a subcommand that may have run ended as it should: where the name was another one,
/// nothing happened.
pub open spec fn ended(
    m: Machine,
    s: Screen,
    r: Option<i32>,
    should: Option<Done>,
    before: Machine,
    shown: Screen,
) -> bool {
    match r {
        Some(status) => should == Some(done(m, s, status)),
        None => should is None && m == before && s == shown,
    }
}

/// The commands on files and the index. Nothing for another name.
pub open spec fn files_command(m: Machine, s: Screen, name: Seq<char>, args: Seq<Seq<char>>) -> Option<Done> {
    if name == "status"@ {
        Some(crate::status::status_done(m, s, args))
    } else if name == "add"@ {
        Some(crate::staging::add_done(m, s, args))
    } else if name == "rm"@ {
        Some(crate::moving::rm_done(m, s, args))
    } else if name == "mv"@ {
        Some(crate::moving::mv_done(m, s, args))
    } else if name == "restore"@ {
        Some(crate::restoring::restore_done(m, s, args))
    } else if name == "reset"@ {
        Some(crate::restoring::reset_done(m, s, args))
    } else if name == "clean"@ {
        Some(crate::listing::clean_done(m, s, args))
    } else if name == "ls-files"@ {
        Some(crate::listing::ls_done(m, s, args))
    } else {
        None
    }
}

#[verifier::spinoff_prover]
#[verifier::rlimit(60)]
fn run_files(system: &mut System, name: &str, args: &[String], io: &mut Io) -> (r: Option<i32>)
    ensures
        ended(final(system)@, final(io)@, r, files_command(old(system)@, old(io)@, name@, texts(args@)), old(system)@, old(io)@),
{
    if same(name, "status") {
        Some(crate::status::git_status(system, args, io))
    } else if same(name, "add") {
        Some(crate::staging::git_add(system, args, io))
    } else if same(name, "rm") {
        Some(crate::moving::git_rm(system, args, io))
    } else if same(name, "mv") {
        Some(crate::moving::git_mv(system, args, io))
    } else if same(name, "restore") {
        Some(crate::restoring::git_restore(system, args, io))
    } else if same(name, "reset") {
        Some(crate::restoring::git_reset(system, args, io))
    } else if same(name, "clean") {
        Some(crate::listing::git_clean(system, args, io))
    } else if same(name, "ls-files") {
        Some(crate::listing::git_ls_files(system, args, io))
    } else {
        None
    }
}

/// The commands on history and references. Nothing for another name.
pub open spec fn history_command(m: Machine, s: Screen, name: Seq<char>, args: Seq<Seq<char>>) -> Option<Done> {
    if name == "diff"@ {
        Some(crate::compare::diff_done(m, s, args))
    } else if name == "log"@ {
        Some(crate::logging::log_done(m, s, args))
    } else if name == "show"@ {
        Some(crate::showing::show_done(m, s, args))
    } else if name == "rev-parse"@ {
        Some(crate::references::rev_parse_done(m, s, args))
    } else if name == "rev-list"@ {
        Some(crate::references::rev_list_done(m, s, args))
    } else if name == "branch"@ {
        Some(crate::references::branch_done(m, s, args))
    } else {
        None
    }
}

#[verifier::spinoff_prover]
#[verifier::rlimit(60)]
fn run_history(system: &mut System, name: &str, args: &[String], io: &mut Io) -> (r: Option<i32>)
    ensures
        ended(final(system)@, final(io)@, r, history_command(old(system)@, old(io)@, name@, texts(args@)), old(system)@, old(io)@),
{
    if same(name, "diff") {
        Some(crate::compare::git_diff(system, args, io))
    } else if same(name, "log") {
        Some(crate::logging::git_log(system, args, io))
    } else if same(name, "show") {
        Some(crate::showing::git_show(system, args, io))
    } else if same(name, "rev-parse") {
        Some(crate::references::git_rev_parse(system, args, io))
    } else if same(name, "rev-list") {
        Some(crate::references::git_rev_list(system, args, io))
    } else if same(name, "branch") {
        Some(crate::references::git_branch(system, args, io))
    } else {
        None
    }
}

/// The commands that move between commits. Nothing for another name.
pub open spec fn movement_command(m: Machine, s: Screen, name: Seq<char>, args: Seq<Seq<char>>) -> Option<Done> {
    if name == "switch"@ {
        Some(crate::switching::switch_done(m, s, args))
    } else if name == "checkout"@ {
        Some(crate::switching::checkout_done(m, s, args))
    } else if name == "rebase"@ {
        Some(crate::rebasing::rebase_done(m, s, args))
    } else if name == "stash"@ {
        Some(crate::stashing::stash_done(m, s, args))
    } else {
        None
    }
}

#[verifier::spinoff_prover]
#[verifier::rlimit(60)]
fn run_movement(system: &mut System, name: &str, args: &[String], io: &mut Io) -> (r: Option<i32>)
    ensures
        ended(final(system)@, final(io)@, r, movement_command(old(system)@, old(io)@, name@, texts(args@)), old(system)@, old(io)@),
{
    if same(name, "switch") {
        Some(crate::switching::git_switch(system, args, io))
    } else if same(name, "checkout") {
        Some(crate::switching::git_checkout(system, args, io))
    } else if same(name, "rebase") {
        Some(crate::rebasing::git_rebase(system, args, io))
    } else if same(name, "stash") {
        Some(crate::stashing::git_stash(system, args, io))
    } else {
        None
    }
}

/// The commands that need to know who runs them, or the settings. Nothing for another name.
pub open spec fn authored_command(m: Machine, s: Screen, g: Overrides, name: Seq<char>, args: Seq<Seq<char>>) -> Option<Done> {
    if name == "commit"@ {
        Some(crate::committing::commit_done(m, s, g, args))
    } else if name == "tag"@ {
        Some(crate::tagging::tag_done(m, s, g, args))
    } else if name == "merge"@ {
        Some(crate::joining::merge_done(m, s, g, args))
    } else if name == "config"@ {
        Some(crate::configuration::config_done(m, s, g, args))
    } else if name == "remote"@ {
        Some(crate::configuration::remote_done(m, s, g, args))
    } else if name == "cherry-pick"@ {
        Some(crate::replaying::replay_done(m, s, g, false, args))
    } else if name == "revert"@ {
        Some(crate::replaying::replay_done(m, s, g, true, args))
    } else {
        None
    }
}

#[verifier::spinoff_prover]
#[verifier::rlimit(60)]
fn run_authored(system: &mut System, globals: &Globals, name: &str, args: &[String], io: &mut Io) -> (r: Option<i32>)
    ensures
        ended(final(system)@, final(io)@, r, authored_command(old(system)@, old(io)@, globals@, name@, texts(args@)), old(system)@, old(io)@),
{
    if same(name, "commit") {
        Some(crate::committing::git_commit(system, globals, args, io))
    } else if same(name, "tag") {
        Some(crate::tagging::git_tag(system, globals, args, io))
    } else if same(name, "merge") {
        Some(crate::joining::git_merge(system, globals, args, io))
    } else if same(name, "config") {
        Some(crate::configuration::git_config(system, globals, args, io))
    } else if same(name, "remote") {
        Some(crate::configuration::git_remote(system, globals, args, io))
    } else if same(name, "cherry-pick") {
        Some(crate::replaying::git_replay(system, globals, false, args, io))
    } else if same(name, "revert") {
        Some(crate::replaying::git_replay(system, globals, true, args, io))
    } else {
        None
    }
}

/// The commands that look at objects. Nothing for another name.
pub open spec fn inspection_command(m: Machine, s: Screen, name: Seq<char>, args: Seq<Seq<char>>) -> Option<Done> {
    if name == "grep"@ {
        Some(crate::searching::grep_done(m, s, args))
    } else if name == "cat-file"@ {
        Some(crate::inspecting::cat_file_done(m, s, args))
    } else if name == "hash-object"@ {
        Some(crate::inspecting::hash_object_done(m, s, args))
    } else if name == "ls-tree"@ {
        Some(crate::inspecting::ls_tree_done(m, s, args))
    } else if name == "check-ignore"@ {
        Some(crate::inspecting::check_ignore_done(m, s, args))
    } else if name == "merge-base"@ {
        Some(crate::inspecting::merge_base_done(m, s, args))
    } else {
        None
    }
}

#[verifier::spinoff_prover]
#[verifier::rlimit(60)]
fn run_inspection(system: &mut System, name: &str, args: &[String], io: &mut Io) -> (r: Option<i32>)
    ensures
        ended(final(system)@, final(io)@, r, inspection_command(old(system)@, old(io)@, name@, texts(args@)), old(system)@, old(io)@),
{
    if same(name, "grep") {
        Some(crate::searching::git_grep(system, args, io))
    } else if same(name, "cat-file") {
        Some(crate::inspecting::git_cat_file(system, args, io))
    } else if same(name, "hash-object") {
        Some(crate::inspecting::git_hash_object(system, args, io))
    } else if same(name, "ls-tree") {
        Some(crate::inspecting::git_ls_tree(system, args, io))
    } else if same(name, "check-ignore") {
        Some(crate::inspecting::git_check_ignore(system, args, io))
    } else if same(name, "merge-base") {
        Some(crate::inspecting::git_merge_base(system, args, io))
    } else {
        None
    }
}

/// The commands that report. Nothing for another name.
pub open spec fn report_command(m: Machine, s: Screen, name: Seq<char>, args: Seq<Seq<char>>) -> Option<Done> {
    if name == "describe"@ {
        Some(crate::reporting::describe_done(m, s, args))
    } else if name == "shortlog"@ {
        Some(crate::reporting::shortlog_done(m, s, args))
    } else if name == "show-ref"@ {
        Some(crate::reporting::show_ref_done(m, s, args))
    } else if name == "symbolic-ref"@ {
        Some(crate::reporting::symbolic_ref_done(m, s, args))
    } else if name == "for-each-ref"@ {
        Some(crate::reporting::for_each_ref_done(m, s, args))
    } else {
        None
    }
}

#[verifier::spinoff_prover]
#[verifier::rlimit(60)]
fn run_report(system: &mut System, name: &str, args: &[String], io: &mut Io) -> (r: Option<i32>)
    ensures
        ended(final(system)@, final(io)@, r, report_command(old(system)@, old(io)@, name@, texts(args@)), old(system)@, old(io)@),
{
    if same(name, "describe") {
        Some(crate::reporting::git_describe(system, args, io))
    } else if same(name, "shortlog") {
        Some(crate::reporting::git_shortlog(system, args, io))
    } else if same(name, "show-ref") {
        Some(crate::reporting::git_show_ref(system, args, io))
    } else if same(name, "symbolic-ref") {
        Some(crate::reporting::git_symbolic_ref(system, args, io))
    } else if same(name, "for-each-ref") {
        Some(crate::reporting::git_for_each_ref(system, args, io))
    } else {
        None
    }
}

/// Whether a subcommand would need a network.
pub open spec fn needs_network(name: Seq<char>) -> bool {
    name == "clone"@ || name == "fetch"@ || name == "pull"@ || name == "push"@ || name
        == "submodule"@ || name == "ls-remote"@
}

fn is_network(name: &str) -> (r: bool)
    ensures
        r == needs_network(name@),
{
    same(name, "clone") || same(name, "fetch") || same(name, "pull") || same(name, "push") || same(
        name,
        "submodule",
    ) || same(name, "ls-remote")
}

/// Whether a subcommand is left out on purpose.
pub open spec fn left_out(name: Seq<char>) -> bool {
    name == "am"@ || name == "bisect"@ || name == "blame"@ || name == "bundle"@ || name
        == "filter-branch"@ || name == "gc"@ || name == "notes"@ || name == "reflog"@ || name
        == "replace"@ || name == "worktree"@
}

fn is_left_out(name: &str) -> (r: bool)
    ensures
        r == left_out(name@),
{
    same(name, "am") || same(name, "bisect") || same(name, "blame") || same(name, "bundle") || same(
        name,
        "filter-branch",
    ) || same(name, "gc") || same(name, "notes") || same(name, "reflog") || same(name, "replace")
        || same(name, "worktree")
}

/// Whether a name is that of a subcommand, and not of an alias.
pub open spec fn known(name: Seq<char>) -> bool {
    name == "init"@ || name == "status"@ || name == "add"@ || name == "rm"@ || name == "mv"@ || name
        == "restore"@ || name == "reset"@ || name == "clean"@ || name == "ls-files"@ || name
        == "diff"@ || name == "commit"@ || name == "log"@ || name == "show"@ || name
        == "rev-parse"@ || name == "rev-list"@ || name == "branch"@ || name == "tag"@ || name
        == "switch"@ || name == "checkout"@ || name == "rebase"@ || name == "merge"@ || name
        == "cherry-pick"@ || name == "revert"@ || name == "config"@ || name == "remote"@ || name
        == "stash"@ || name == "apply"@ || name == "grep"@ || name == "cat-file"@ || name
        == "hash-object"@ || name == "ls-tree"@ || name == "check-ignore"@ || name
        == "merge-base"@ || name == "describe"@ || name == "shortlog"@ || name == "show-ref"@
        || name == "symbolic-ref"@ || name == "for-each-ref"@ || needs_network(name) || left_out(
        name,
    )
}

fn is_known(name: &str) -> (r: bool)
    ensures
        r == known(name@),
{
    same(name, "init") || same(name, "status") || same(name, "add") || same(name, "rm") || same(
        name,
        "mv",
    ) || same(name, "restore") || same(name, "reset") || same(name, "clean") || same(
        name,
        "ls-files",
    ) || same(name, "diff") || same(name, "commit") || same(name, "log") || same(name, "show")
        || same(name, "rev-parse") || same(name, "rev-list") || same(name, "branch") || same(
        name,
        "tag",
    ) || same(name, "switch") || same(name, "checkout") || same(name, "rebase") || same(
        name,
        "merge",
    ) || same(name, "cherry-pick") || same(name, "revert") || same(name, "config") || same(
        name,
        "remote",
    ) || same(name, "stash") || same(name, "apply") || same(name, "grep") || same(name, "cat-file")
        || same(name, "hash-object") || same(name, "ls-tree") || same(name, "check-ignore") || same(
        name,
        "merge-base",
    ) || same(name, "describe") || same(name, "shortlog") || same(name, "show-ref") || same(
        name,
        "symbolic-ref",
    ) || same(name, "for-each-ref") || is_network(name) || is_left_out(name)
}

/// The subcommand and the arguments that a name stands for once aliases are followed, `fuel` of
/// them at most. One that stands for itself is not followed.
pub open spec fn unaliased(m: Machine, g: Overrides, name: Seq<char>, args: Seq<Seq<char>>, fuel: nat) -> (
    Seq<char>,
    Seq<Seq<char>>,
)
    decreases fuel,
{
    if known(name) || fuel == 0 {
        (name, args)
    } else {
        match alias_of(m, g, name) {
            None => (name, args),
            Some(words) => if words[0] == name {
                (name, args)
            } else {
                unaliased(
                    m,
                    g,
                    words[0],
                    words.subrange(1, words.len() as int) + args,
                    (fuel - 1) as nat,
                )
            },
        }
    }
}

/// How many aliases are followed at most: a chain of more of them than there are settings has no end.
pub open spec fn alias_bound(m: Machine, g: Overrides) -> nat {
    alias_settings(m, g).len()
}

/// Whether a name stands for nothing further.
pub open spec fn stands_alone(m: Machine, g: Overrides, name: Seq<char>) -> bool {
    known(name) || match alias_of(m, g, name) {
        None => true,
        Some(words) => words[0] == name,
    }
}

/// The name that stands at the `i`th place of a chain of aliases.
spec fn link(m: Machine, g: Overrides, name: Seq<char>, i: nat) -> Seq<char>
    decreases i,
{
    if i == 0 {
        name
    } else {
        link(m, g, alias_of(m, g, name)->0[0], (i - 1) as nat)
    }
}

proof fn lemma_links_meet(m: Machine, g: Overrides, name: Seq<char>, a: nat, b: nat)
    ensures
        link(m, g, link(m, g, name, a), b) == link(m, g, name, a + b),
    decreases a,
{
    if a > 0 {
        lemma_links_meet(m, g, alias_of(m, g, name)->0[0], (a - 1) as nat, b);
    }
}

proof fn lemma_chain_end(m: Machine, g: Overrides, name: Seq<char>, args: Seq<Seq<char>>, fuel: nat) -> (k: nat)
    requires
        stands_alone(m, g, unaliased(m, g, name, args, fuel).0),
    ensures
        k <= fuel,
        stands_alone(m, g, link(m, g, name, k)),
        forall|i: nat| i < k ==> !stands_alone(m, g, #[trigger] link(m, g, name, i)),
    decreases fuel,
{
    if stands_alone(m, g, name) {
        0
    } else {
        let words = alias_of(m, g, name)->0;
        let rest = words.subrange(1, words.len() as int) + args;
        let k = lemma_chain_end(m, g, words[0], rest, (fuel - 1) as nat);
        assert forall|i: nat| i < k + 1 implies !stands_alone(m, g, #[trigger] link(m, g, name, i)) by {
            if i > 0 {
                assert(link(m, g, name, i) == link(m, g, words[0], (i - 1) as nat));
            }
        }
        k + 1
    }
}

proof fn lemma_enough_fuel(m: Machine, g: Overrides, name: Seq<char>, args: Seq<Seq<char>>, k: nat, fuel: nat)
    requires
        k <= fuel,
        stands_alone(m, g, link(m, g, name, k)),
        forall|i: nat| i < k ==> !stands_alone(m, g, #[trigger] link(m, g, name, i)),
    ensures
        unaliased(m, g, name, args, fuel) == unaliased(m, g, name, args, k),
    decreases k,
{
    if k > 0 {
        assert(!stands_alone(m, g, link(m, g, name, 0)));
        let words = alias_of(m, g, name)->0;
        let rest = words.subrange(1, words.len() as int) + args;
        assert forall|i: nat| i < k - 1 implies !stands_alone(m, g, #[trigger] link(m, g, words[0], i)) by {
            assert(link(m, g, name, i + 1) == link(m, g, words[0], i));
        }
        lemma_enough_fuel(m, g, words[0], rest, (k - 1) as nat, (fuel - 1) as nat);
    }
}

/// A chain of aliases that ends is followed to its end, however long it is.
pub proof fn lemma_aliases_followed(m: Machine, g: Overrides, name: Seq<char>, args: Seq<Seq<char>>, fuel: nat)
    requires
        stands_alone(m, g, unaliased(m, g, name, args, fuel).0),
    ensures
        unaliased(m, g, name, args, alias_bound(m, g)) == unaliased(m, g, name, args, fuel),
{
    let k = lemma_chain_end(m, g, name, args, fuel);
    let keys = Seq::new(k, |i: int| "alias."@ + lowered(link(m, g, name, i as nat)));
    assert(keys.no_duplicates()) by {
        assert forall|a: int, b: int| 0 <= a < b < k implies keys[a] != keys[b] by {
            if keys[a] == keys[b] {
                let x = link(m, g, name, a as nat);
                let y = link(m, g, name, b as nat);
                assert(!stands_alone(m, g, x) && !stands_alone(m, g, y));
                let next = alias_of(m, g, x)->0[0];
                assert(next == alias_of(m, g, y)->0[0]);
                let left = (k - 1 - b) as nat;
                assert(link(m, g, x, left + 1) == link(m, g, next, left));
                assert(link(m, g, y, left + 1) == link(m, g, next, left));
                lemma_links_meet(m, g, name, a as nat, left + 1);
                lemma_links_meet(m, g, name, b as nat, left + 1);
                assert(!stands_alone(m, g, link(m, g, name, (a + left + 1) as nat)));
            }
        }
    }
    let settings = alias_settings(m, g);
    assert forall|i: int| 0 <= i < keys.len() implies lookup(settings, #[trigger] keys[i]) is Some by {
        assert(!stands_alone(m, g, link(m, g, name, i as nat)));
    }
    lemma_no_more_than_keys(settings, keys);
    lemma_enough_fuel(m, g, name, args, k, fuel);
    lemma_enough_fuel(m, g, name, args, k, alias_bound(m, g));
}

fn follow_aliases(system: &System, globals: &Globals, name: &str, args: &[String]) -> (r: (
    String,
    Vec<String>,
))
    ensures
        (r.0@, texts(r.1@)) == unaliased(
            system@,
            globals@,
            name@,
            texts(args@),
            alias_bound(system@, globals@),
        ),
{
    let mut name_now = copy_text(name);
    let mut args_now = copy_texts(args);
    let mut fuel: usize = count_settings(system, globals);
    let ghost most = alias_bound(system@, globals@);
    let ghost goal = unaliased(system@, globals@, name@, texts(args@), most);
    while fuel > 0
        invariant
            most == alias_bound(system@, globals@),
            goal == unaliased(system@, globals@, name@, texts(args@), most),
            goal == unaliased(system@, globals@, name_now@, texts(args_now@), fuel as nat),
        decreases fuel,
    {
        if is_known(name_now.as_str()) {
            return (name_now, args_now);
        }
        match alias(system, globals, name_now.as_str()) {
            None => return (name_now, args_now),
            Some(words) => {
                let ghost w = texts(words@);
                assert(w.len() == words@.len());
                assert(w[0] == words@[0]@);
                if same(words[0].as_str(), name_now.as_str()) {
                    return (name_now, args_now);
                }
                let mut longer = copy_texts(
                    vstd::slice::slice_subrange(words.as_slice(), 1, words.len()),
                );
                assert(texts(longer@) =~= w.subrange(1, w.len() as int));
                let ghost a = longer@;
                let ghost b = args_now@;
                longer.append(&mut args_now);
                assert(texts(longer@) =~= texts(a) + texts(b));
                name_now = copy_text(words[0].as_str());
                args_now = longer;
            },
        }
        fuel -= 1;
    }
    (name_now, args_now)
}

/// What a subcommand came to: it ended, or files are to be patched now.
pub enum Ran {
    Ended(i32),
    Patching(Errand),
}

/// What a subcommand came to.
pub enum Course {
    Ended(int),
    Patching(Plan),
}

impl View for Ran {
    type V = Course;

    open spec fn view(&self) -> Course {
        match *self {
            Ran::Ended(status) => Course::Ended(status as int),
            Ran::Patching(errand) => Course::Patching(errand@),
        }
    }
}

/// The machine and the screen after a subcommand, and what it came to.
pub open spec fn course_of(d: Done) -> (Machine, Screen, Course) {
    (d.m, d.s, Course::Ended(d.status))
}

/// A subcommand that cannot be run here.
pub open spec fn not_run(m: Machine, s: Screen, name: Seq<char>) -> Done {
    let n = Machine { unsupported: m.unsupported.push("git:"@ + name), ..m };
    if needs_network(name) {
        failed(
            n,
            s,
            "git "@ + name + " needs network access, which the simulation does not provide"@,
        )
    } else if left_out(name) {
        misused(n, s, "unsupported subcommand: "@ + name)
    } else {
        Done {
            m: n,
            s: complained(
                s,
                "git: '"@ + name + "' is not a git command. See 'git --help'.\n"@,
            ),
            status: 1,
        }
    }
}

fn refuse_command(system: &mut System, name: &str, io: &mut Io) -> (r: i32)
    ensures
        done(final(system)@, final(io)@, r) == not_run(old(system)@, old(io)@, name@),
{
    system.note_unsupported(join2("git:", name).as_str());
    if is_network(name) {
        fatal(
            io,
            join3(
                "git ",
                name,
                " needs network access, which the simulation does not provide",
            ).as_str(),
        )
    } else if is_left_out(name) {
        usage(io, join2("unsupported subcommand: ", name).as_str())
    } else {
        io.print_err(
            join3("git: '", name, "' is not a git command. See 'git --help'.\n").as_str(),
        );
        1
    }
}

/// What a subcommand does.
pub open spec fn command_run(m: Machine, s: Screen, g: Overrides, name: Seq<char>, args: Seq<Seq<char>>) -> (
    Machine,
    Screen,
    Course,
) {
    if needs_network(name) || left_out(name) {
        course_of(not_run(m, s, name))
    } else if name == "init"@ {
        course_of(init_done(m, s, args))
    } else if name == "apply"@ {
        let (n, t, plan) = apply_begun(m, s, args);
        (
            n,
            t,
            match plan {
                Plan::Finished(status) => Course::Ended(status),
                _ => Course::Patching(plan),
            },
        )
    } else if let Some(d) = files_command(m, s, name, args) {
        course_of(d)
    } else if let Some(d) = history_command(m, s, name, args) {
        course_of(d)
    } else if let Some(d) = movement_command(m, s, name, args) {
        course_of(d)
    } else if let Some(d) = authored_command(m, s, g, name, args) {
        course_of(d)
    } else if let Some(d) = inspection_command(m, s, name, args) {
        course_of(d)
    } else if let Some(d) = report_command(m, s, name, args) {
        course_of(d)
    } else {
        course_of(not_run(m, s, name))
    }
}

#[verifier::spinoff_prover]
#[verifier::rlimit(100)]
fn run_command(system: &mut System, globals: &Globals, name: &str, args: &[String], io: &mut Io) -> (r: Ran)
    ensures
        (final(system)@, final(io)@, r@) == command_run(
            old(system)@,
            old(io)@,
            globals@,
            name@,
            texts(args@),
        ),
{
    if is_network(name) || is_left_out(name) {
        return Ran::Ended(refuse_command(system, name, io));
    }
    if same(name, "init") {
        return Ran::Ended(git_init(system, args, io));
    }
    if same(name, "apply") {
        return match begin_apply(system, args, io) {
            Errand::Finished(status) => Ran::Ended(status),
            errand => Ran::Patching(errand),
        };
    }
    if let Some(status) = run_files(system, name, args, io) {
        return Ran::Ended(status);
    }
    if let Some(status) = run_history(system, name, args, io) {
        return Ran::Ended(status);
    }
    if let Some(status) = run_movement(system, name, args, io) {
        return Ran::Ended(status);
    }
    if let Some(status) = run_authored(system, globals, name, args, io) {
        return Ran::Ended(status);
    }
    if let Some(status) = run_inspection(system, name, args, io) {
        return Ran::Ended(status);
    }
    if let Some(status) = run_report(system, name, args, io) {
        return Ran::Ended(status);
    }
    Ran::Ended(refuse_command(system, name, io))
}

/// Running what a name stands for once aliases are followed.
pub open spec fn dispatched(m: Machine, s: Screen, g: Overrides, name: Seq<char>, args: Seq<Seq<char>>) -> (
    Machine,
    Screen,
    Course,
) {
    let (command, all) = unaliased(m, g, name, args, alias_bound(m, g));
    command_run(m, s, g, command, all)
}

/// Runs what a name stands for.
pub fn dispatch(system: &mut System, globals: &Globals, name: &str, args: &[String], io: &mut Io) -> (r: Ran)
    ensures
        (final(system)@, final(io)@, r@) == dispatched(
            old(system)@,
            old(io)@,
            globals@,
            name@,
            texts(args@),
        ),
{
    let (command, all) = follow_aliases(system, globals, name, args);
    run_command(system, globals, command.as_str(), all.as_slice(), io)
}

// ---------------------------------------------------------------------------
// The options before the subcommand
// ---------------------------------------------------------------------------

/// What the options before the subcommand say.
pub enum Begin {
    /// A text is printed, and the command ends well.
    Said(Seq<char>),
    Wrong(Seq<char>),
    Fatal(Seq<char>),
    /// The settings, the directory to run in, and the subcommand with its arguments.
    Run { g: Overrides, directory: Option<Seq<char>>, rest: Seq<Seq<char>> },
}

/// Options that change nothing here.
pub open spec fn idle_option(name: Seq<char>) -> bool {
    name == "--no-pager"@ || name == "-P"@ || name == "--paginate"@ || name
        == "--no-replace-objects"@ || name == "--literal-pathspecs"@ || name
        == "--no-optional-locks"@
}

/// The line that says which version this is.
pub open spec fn version_line() -> Seq<char> {
    "git version 2.45.0 (shellsim)\n"@
}

/// The help text.
pub open spec fn help_text() -> Seq<char> {
    "usage: git [-C DIRECTORY] [-c NAME=VALUE] COMMAND [ARGUMENTS]\n\nSupported commands:\n   add         stage working-tree contents\n   apply       apply a unified diff to the working tree\n   branch      list, create, rename, or delete branches\n   cat-file    show an object's type, size, or contents\n   check-ignore report which paths .gitignore excludes\n   checkout    switch branches or restore files\n   clean       remove untracked files\n   commit      record staged changes\n   config      read or write repository-local configuration\n   describe    name a commit using the nearest tag\n   diff        show changes between commits, the index, and the working tree\n   grep        search tracked files\n   hash-object compute a blob id\n   init        create a repository\n   log         show commit history\n   ls-files    list files in the index and working tree\n   ls-tree     list the contents of a tree\n   merge       join two development histories\n   merge-base  find a common ancestor\n   mv          move or rename a tracked file\n   remote      record remote names (the simulation has no network)\n   reset       reset HEAD, the index, and optionally the working tree\n   restore     restore working-tree or staged files\n   rev-list    list commit ids reachable from a revision\n   rev-parse   resolve revisions and repository paths\n   rm          remove files from the index and working tree\n   shortlog    summarize history by author\n   show        show a commit or a file at a revision\n   stash       save and restore uncommitted work\n   status      show the working-tree status\n   switch      switch branches\n   tag         list, create, or delete tags\n"@
}

fn write_help() -> (r: String)
    ensures
        r@ == help_text(),
{
    copy_text(
        "usage: git [-C DIRECTORY] [-c NAME=VALUE] COMMAND [ARGUMENTS]\n\nSupported commands:\n   add         stage working-tree contents\n   apply       apply a unified diff to the working tree\n   branch      list, create, rename, or delete branches\n   cat-file    show an object's type, size, or contents\n   check-ignore report which paths .gitignore excludes\n   checkout    switch branches or restore files\n   clean       remove untracked files\n   commit      record staged changes\n   config      read or write repository-local configuration\n   describe    name a commit using the nearest tag\n   diff        show changes between commits, the index, and the working tree\n   grep        search tracked files\n   hash-object compute a blob id\n   init        create a repository\n   log         show commit history\n   ls-files    list files in the index and working tree\n   ls-tree     list the contents of a tree\n   merge       join two development histories\n   merge-base  find a common ancestor\n   mv          move or rename a tracked file\n   remote      record remote names (the simulation has no network)\n   reset       reset HEAD, the index, and optionally the working tree\n   restore     restore working-tree or staged files\n   rev-list    list commit ids reachable from a revision\n   rev-parse   resolve revisions and repository paths\n   rm          remove files from the index and working tree\n   shortlog    summarize history by author\n   show        show a commit or a file at a revision\n   stash       save and restore uncommitted work\n   status      show the working-tree status\n   switch      switch branches\n   tag         list, create, or delete tags\n",
    )
}

/// What the options from where the pass stands say, with what was read before.
pub open spec fn begun(p: Pass, cwd: Seq<char>, g: Overrides, directory: Option<Seq<char>>) -> Begin
    decreases p.args.len() - p.at,
{
    let (word, q) = next_word(p);
    match word {
        None => Begin::Run { g, directory, rest: seq![] },
        Some(Word::Operand(name)) => Begin::Run {
            g,
            directory,
            rest: seq![name] + q.args.subrange(q.at, q.args.len() as int),
        },
        Some(Word::Option { name, attached }) => {
            let (value, after) = needed_value(q, attached);
            if name == "-C"@ {
                match value {
                    None => Begin::Wrong("-C requires a directory"@),
                    Some(path) => begun(
                        after,
                        cwd,
                        g,
                        Some(
                            resolved(
                                match directory {
                                    Some(d) => d,
                                    None => cwd,
                                },
                                path,
                            ),
                        ),
                    ),
                }
            } else if name == "-c"@ {
                match value {
                    None => Begin::Wrong("-c requires NAME=VALUE"@),
                    Some(pair) => match cut_once(pair, '=') {
                        None => Begin::Wrong("-c requires NAME=VALUE"@),
                        Some((key, v)) => if proper_key(lowered(key)) {
                            begun(after, cwd, bind(g, lowered(key), v), directory)
                        } else {
                            Begin::Fatal("invalid config key: "@ + lowered(key))
                        },
                    },
                }
            } else if idle_option(name) {
                begun(q, cwd, g, directory)
            } else if name == "--version"@ {
                Begin::Said(version_line())
            } else if name == "--help"@ || name == "-h"@ {
                Begin::Said(help_text())
            } else if name == "--git-dir"@ || name == "--work-tree"@ {
                Begin::Wrong(name + " is unsupported; run git inside the tree"@)
            } else {
                Begin::Wrong("unsupported global option: "@ + name)
            }
        },
    }
}

/// What the options before the subcommand say.
pub enum Opening {
    Said(String),
    Wrong(String),
    Fatal(String),
    Run { globals: Globals, directory: Option<String>, rest: Vec<String> },
}

impl View for Opening {
    type V = Begin;

    open spec fn view(&self) -> Begin {
        match *self {
            Opening::Said(x) => Begin::Said(x@),
            Opening::Wrong(x) => Begin::Wrong(x@),
            Opening::Fatal(x) => Begin::Fatal(x@),
            Opening::Run { globals, directory, rest } => Begin::Run {
                g: globals@,
                directory: opt_text(directory),
                rest: texts(rest@),
            },
        }
    }
}

/// Reads the options before the subcommand.
pub fn read_opening(args: &[String], cwd: &str) -> (r: Opening)
    ensures
        r@ == begun(pass_for(texts(args@), ""@, "Cc"@), cwd@, seq![], None),
{
    let mut pass = flags_for(args, "", "Cc");
    let mut globals = Globals::new();
    let mut directory: Option<String> = None;
    let ghost start = pass@;
    let ghost goal = begun(start, cwd@, seq![], None);
    loop
        invariant
            in_range(pass@),
            start == pass_for(texts(args@), ""@, "Cc"@),
            goal == begun(start, cwd@, seq![], None),
            goal == begun(pass@, cwd@, globals@, opt_text(directory)),
        decreases pass@.args.len() - pass@.at,
    {
        match pass.next() {
            None => {
                let rest: Vec<String> = Vec::new();
                assert(texts(rest@) =~= seq![]);
                return Opening::Run { globals, directory, rest };
            },
            Some(Arg::Operand(name)) => {
                let mut rest: Vec<String> = Vec::new();
                rest.push(name);
                let mut more = pass.rest();
                let ghost a = rest@;
                let ghost b = more@;
                assert(texts(a) =~= seq![name@]);
                rest.append(&mut more);
                assert(texts(rest@) =~= texts(a) + texts(b));
                return Opening::Run { globals, directory, rest };
            },
            Some(Arg::Option { name, attached }) => {
                if same(name.as_str(), "-C") {
                    match pass.value(attached) {
                        None => return Opening::Wrong(copy_text("-C requires a directory")),
                        Some(path) => {
                            let base = match &directory {
                                Some(d) => copy_text(d.as_str()),
                                None => copy_text(cwd),
                            };
                            directory = Some(resolve_against(base.as_str(), path.as_str()));
                        },
                    }
                } else if same(name.as_str(), "-c") {
                    let pair = match pass.value(attached) {
                        Some(p) => p,
                        None => return Opening::Wrong(copy_text("-c requires NAME=VALUE")),
                    };
                    match split_once(pair.as_str(), '=') {
                        None => return Opening::Wrong(copy_text("-c requires NAME=VALUE")),
                        Some((key, value)) => {
                            let low = to_ascii_lowercase(key.as_str());
                            if !valid_config_key(low.as_str()) {
                                return Opening::Fatal(
                                    join2("invalid config key: ", low.as_str()),
                                );
                            }
                            globals.overrides.insert(low, value);
                        },
                    }
                } else if same(name.as_str(), "--no-pager") || same(name.as_str(), "-P") || same(
                    name.as_str(),
                    "--paginate",
                ) || same(name.as_str(), "--no-replace-objects") || same(
                    name.as_str(),
                    "--literal-pathspecs",
                ) || same(name.as_str(), "--no-optional-locks") {
                } else if same(name.as_str(), "--version") {
                    return Opening::Said(copy_text("git version 2.45.0 (shellsim)\n"));
                } else if same(name.as_str(), "--help") || same(name.as_str(), "-h") {
                    return Opening::Said(write_help());
                } else if same(name.as_str(), "--git-dir") || same(name.as_str(), "--work-tree") {
                    return Opening::Wrong(
                        join2(name.as_str(), " is unsupported; run git inside the tree"),
                    );
                } else {
                    return Opening::Wrong(join2("unsupported global option: ", name.as_str()));
                }
            },
        }
    }
}

// ---------------------------------------------------------------------------
// Silence
// ---------------------------------------------------------------------------

/// Whether a quiet option of a subcommand keeps back what it would print.
pub open spec fn can_be_quiet(name: Seq<char>) -> bool {
    name == "add"@ || name == "branch"@ || name == "checkout"@ || name == "clean"@ || name
        == "commit"@ || name == "merge"@ || name == "mv"@ || name == "reset"@ || name == "restore"@
        || name == "rm"@ || name == "stash"@ || name == "switch"@ || name == "tag"@
}

fn is_quietable(name: &str) -> (r: bool)
    ensures
        r == can_be_quiet(name@),
{
    same(name, "add") || same(name, "branch") || same(name, "checkout") || same(name, "clean")
        || same(name, "commit") || same(name, "merge") || same(name, "mv") || same(name, "reset")
        || same(name, "restore") || same(name, "rm") || same(name, "stash") || same(name, "switch")
        || same(name, "tag")
}

/// Whether an argument is a letter or a cluster of letters with a `q` among them.
pub open spec fn short_quiet(a: Seq<char>) -> bool {
    &&& a.len() > 1
    &&& a[0] == '-'
    &&& forall|i: int| 1 <= i < a.len() ==> crate::bytes::ascii_letter(#[trigger] a[i])
    &&& exists|i: int| 1 <= i < a.len() && #[trigger] a[i] == 'q'
}

/// Whether an argument is a letter or a cluster of letters with a `q` among them.
pub fn is_short_quiet(a: &str) -> (r: bool)
    ensures
        r == short_quiet(a@),
{
    let cs = chars_of(a);
    if cs.len() <= 1 || cs[0] != '-' {
        return false;
    }
    let mut quiet = false;
    let mut i: usize = 1;
    while i < cs.len()
        invariant
            1 <= i <= cs@.len(),
            cs@ == a@,
            forall|k: int| 1 <= k < i ==> crate::bytes::ascii_letter(#[trigger] cs@[k]),
            quiet == exists|k: int| 1 <= k < i && #[trigger] cs@[k] == 'q',
        decreases cs@.len() - i,
    {
        let c = cs[i];
        if !(('a' <= c && c <= 'z') || ('A' <= c && c <= 'Z')) {
            assert(!crate::bytes::ascii_letter(a@[i as int]));
            return false;
        }
        if c == 'q' {
            quiet = true;
            assert(cs@[i as int] == 'q');
        }
        i += 1;
    }
    quiet
}

/// Whether some argument from `i` on, before `--`, asks for silence.
pub open spec fn asks_silence(v: Seq<Seq<char>>, i: int) -> bool
    decreases v.len() - i,
{
    if i < 0 || i >= v.len() || v[i] == "--"@ {
        false
    } else {
        v[i] == "--quiet"@ || short_quiet(v[i]) || asks_silence(v, i + 1)
    }
}

fn is_silence_asked(v: &[String]) -> (r: bool)
    ensures
        r == asks_silence(texts(v@), 0),
{
    let ghost all = texts(v@);
    let mut i: usize = 0;
    while i < v.len()
        invariant
            i <= v@.len(),
            all == texts(v@),
            asks_silence(all, 0) == asks_silence(all, i as int),
        decreases v@.len() - i,
    {
        assert(all.len() == v@.len());
        assert(all[i as int] == v@[i as int]@);
        if same(v[i].as_str(), "--") {
            return false;
        }
        if same(v[i].as_str(), "--quiet") || is_short_quiet(v[i].as_str()) {
            return true;
        }
        i += 1;
    }
    assert(all.len() == v@.len());
    false
}

/// Bytes cut to a length.
pub open spec fn shortened(v: Seq<u8>, n: nat) -> Seq<u8> {
    if n <= v.len() {
        v.subrange(0, n as int)
    } else {
        v
    }
}

/// The screen once what a subcommand printed is kept back. Its complaints stay where it failed.
pub open spec fn silenced(before: Screen, s: Screen, c: Course) -> Screen {
    Screen {
        out: shortened(s.out, before.out.len()),
        err: if c == Course::Ended(0) {
            shortened(s.err, before.err.len())
        } else {
            s.err
        },
        ..s
    }
}

// ---------------------------------------------------------------------------
// The command
// ---------------------------------------------------------------------------

/// What an invocation came to, and the directory to go back to once files are patched.
pub open spec fn returned(m: Machine, back: Option<Seq<char>>, c: Course) -> (Machine, Option<Seq<char>>) {
    match (back, c) {
        (Some(d), Course::Ended(_)) => (
            if dir_at(m.files, d) {
                Machine { cwd: d, ..m }
            } else {
                m
            },
            None,
        ),
        _ => (m, back),
    }
}

/// Running a subcommand in a directory, with silence where that is asked for.
pub open spec fn run_in(
    m: Machine,
    s: Screen,
    g: Overrides,
    directory: Option<Seq<char>>,
    rest: Seq<Seq<char>>,
) -> (Machine, Screen, Course, Option<Seq<char>>) {
    let name = rest[0];
    let args = rest.subrange(1, rest.len() as int);
    let there = match directory {
        Some(d) => dir_at(m.files, d),
        None => true,
    };
    if !there {
        (
            m,
            complained(
                s,
                "fatal: cannot change to '"@ + directory->0 + "': No such file or directory\n"@,
            ),
            Course::Ended(128),
            None,
        )
    } else {
        let (start, back) = match directory {
            Some(d) => (Machine { cwd: d, ..m }, Some(m.cwd)),
            None => (m, None),
        };
        let (n, t, c) = dispatched(start, s, g, name, args);
        let u = if can_be_quiet(name) && asks_silence(args, 0) {
            silenced(s, t, c)
        } else {
            t
        };
        let (k, left) = returned(n, back, c);
        (k, u, c, left)
    }
}

/// What `git` does: how it ends, or the patching that is to be done now and the directory to go back
/// to afterwards.
pub open spec fn git_run(m: Machine, s: Screen, args: Seq<Seq<char>>) -> (
    Machine,
    Screen,
    Course,
    Option<Seq<char>>,
) {
    match begun(pass_for(args, ""@, "Cc"@), m.cwd, seq![], None) {
        Begin::Said(text) => (m, printed(s, text), Course::Ended(0), None),
        Begin::Wrong(message) => (
            m,
            misused(m, s, message).s,
            Course::Ended(misused(m, s, message).status),
            None,
        ),
        Begin::Fatal(message) => (
            m,
            failed(m, s, message).s,
            Course::Ended(failed(m, s, message).status),
            None,
        ),
        Begin::Run { g, directory, rest } => if rest.len() == 0 {
            (m, complained(s, help_text()), Course::Ended(1), None)
        } else if rest[0] == "help"@ {
            (m, printed(s, help_text()), Course::Ended(0), None)
        } else {
            run_in(m, s, g, directory, rest)
        },
    }
}

fn run_subcommand(
    system: &mut System,
    globals: &Globals,
    directory: &Option<String>,
    rest: &[String],
    io: &mut Io,
) -> (r: (Ran, Option<String>))
    requires
        rest@.len() > 0,
    ensures
        (final(system)@, final(io)@, r.0@, opt_text(r.1)) == run_in(
            old(system)@,
            old(io)@,
            globals@,
            opt_text(*directory),
            texts(rest@),
        ),
{
    let ghost all = texts(rest@);
    assert(all.len() == rest@.len());
    assert(all[0] == rest@[0]@);
    let name = rest[0].as_str();
    let args = vstd::slice::slice_subrange(rest, 1, rest.len());
    assert(texts(args@) =~= all.subrange(1, all.len() as int));
    let back = match directory {
        Some(d) => {
            let previous = system.cwd();
            if !system.chdir(d.as_str()) {
                io.print_err(
                    join3(
                        "fatal: cannot change to '",
                        d.as_str(),
                        "': No such file or directory\n",
                    ).as_str(),
                );
                return (Ran::Ended(128), None);
            }
            Some(previous)
        },
        None => None,
    };
    let silent = is_quietable(name) && is_silence_asked(args);
    let out: usize = io.out.len();
    let err: usize = io.err.len();
    let ghost before = io@;
    let ghost start = system@;
    let ran = dispatch(system, globals, name, args, io);
    let ghost shown = io@;
    if silent {
        io.out.truncate(out);
        let well = match &ran {
            Ran::Ended(status) => *status == 0,
            _ => false,
        };
        if well {
            io.err.truncate(err);
        }
        assert(io@ =~= silenced(before, shown, ran@));
    }
    match &ran {
        Ran::Ended(_) => {
            if let Some(previous) = &back {
                let _ = system.chdir(previous.as_str());
            }
            (ran, None)
        },
        _ => (ran, back),
    }
}

/// `git`. Where files are to be patched, the directory to go back to afterwards comes with it.
pub fn cmd_git(system: &mut System, args: &[String], io: &mut Io) -> (r: (Ran, Option<String>))
    ensures
        (final(system)@, final(io)@, r.0@, opt_text(r.1)) == git_run(
            old(system)@,
            old(io)@,
            texts(args@),
        ),
{
    let cwd = system.cwd();
    match read_opening(args, cwd.as_str()) {
        Opening::Said(text) => {
            io.print(text.as_str());
            (Ran::Ended(0), None)
        },
        Opening::Wrong(message) => (Ran::Ended(usage(io, message.as_str())), None),
        Opening::Fatal(message) => (Ran::Ended(fatal(io, message.as_str())), None),
        Opening::Run { globals, directory, rest } => {
            let ghost all = texts(rest@);
            assert(all.len() == rest@.len());
            if rest.len() == 0 {
                io.print_err(write_help().as_str());
                return (Ran::Ended(1), None);
            }
            assert(all[0] == rest@[0]@);
            if same(rest[0].as_str(), "help") {
                io.print(write_help().as_str());
                return (Ran::Ended(0), None);
            }
            run_subcommand(system, &globals, &directory, rest.as_slice(), io)
        },
    }
}

/// A subcommand that would need a network fails, changes no file, and is noted.
pub proof fn lemma_network_is_refused(m: Machine, s: Screen, g: Overrides, name: Seq<char>, args: Seq<Seq<char>>)
    requires
        needs_network(name),
    ensures
        dispatched(m, s, g, name, args).2 == Course::Ended(128),
        dispatched(m, s, g, name, args).0.files == m.files,
        dispatched(m, s, g, name, args).0.unsupported == m.unsupported.push("git:"@ + name),
{
}

/// A quiet subcommand prints nothing.
pub proof fn lemma_silence(before: Screen, s: Screen, c: Course)
    requires
        before.out.len() <= s.out.len(),
        s.out.subrange(0, before.out.len() as int) == before.out,
    ensures
        silenced(before, s, c).out == before.out,
{
}

} // verus!
