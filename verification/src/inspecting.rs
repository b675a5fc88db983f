//! Looking into a repository: objects, trees, ignored paths and shared ancestors.

use vstd::prelude::*;
use vstd::utf8::encode_utf8;

use crate::bytes::{decode_lossy, loose_text};
use crate::common::{commit_tree_or_empty, done, pathspec, pathspec_of, tree_or_empty};
use crate::console::{
    ambiguous, ambiguous_argument, failed, fatal, misused, no_repo, printed, repo_error, usage, Done, Io, Screen,
};
use crate::flags::{expand_clusters, expanded};
use crate::history::{ancestors, ancestry, merge_base, shared_base, within};
use crate::ignore::{ignoring_rule, Rule};
use crate::numbers::{decimal, format_i64, format_usize, signed_decimal};
use crate::objects::{blob_hash, blob_id};
use crate::order::{bind, lookup, OrdMap};
use crate::records::{Commit, Note};
use crate::repo::{
    annotation_of, blob_of, blob_stored, commit_of, find_repo_root, load_commit, opt_bytes, read_all, read_annotation,
    read_blob, readable, repo_root, write_blob,
};
use crate::revisions::{resolve_revision, revision};
use crate::syntax::{marks_read, read_marks, Marks};
use crate::system::{resolve_against, resolved, Machine, System};
use crate::text::{
    after_prefix, copy_bytes, copy_text, cut_once, join, join2, join3, join4, join5, joined, line_list, lines,
    opt_text, same, split_once, strip_prefix, texts, trim_end_matches, without_trailing,
};
use crate::trees::{mode_of, tree_hash, tree_id, Entry, Files, Record, Tree};
use crate::worktree::{ignore_rules, load_ignores};

verus! {

// ---------------------------------------------------------------------------
// git cat-file
// ---------------------------------------------------------------------------

/// What `git cat-file` shows of an object.
#[derive(Clone, Copy, PartialEq, Eq, Structural)]
pub enum Shown {
    Content,
    Type,
    Size,
    Nothing,
}

/// What the options of `git cat-file` ask for.
#[derive(Clone, Copy)]
pub struct CatAsk {
    pub shown: Option<Shown>,
}

impl View for CatAsk {
    type V = CatAsk;

    open spec fn view(&self) -> CatAsk {
        *self
    }
}

impl Marks for CatAsk {
    open spec fn marked(asked: CatAsk, option: Seq<char>) -> Option<CatAsk> {
        if option == "-p"@ {
            Some(CatAsk { shown: Some(Shown::Content) })
        } else if option == "-t"@ {
            Some(CatAsk { shown: Some(Shown::Type) })
        } else if option == "-s"@ {
            Some(CatAsk { shown: Some(Shown::Size) })
        } else if option == "-e"@ {
            Some(CatAsk { shown: Some(Shown::Nothing) })
        } else {
            None
        }
    }

    fn mark(&mut self, option: &str) -> (r: bool) {
        if same(option, "-p") {
            self.shown = Some(Shown::Content);
        } else if same(option, "-t") {
            self.shown = Some(Shown::Type);
        } else if same(option, "-s") {
            self.shown = Some(Shown::Size);
        } else if same(option, "-e") {
            self.shown = Some(Shown::Nothing);
        } else {
            return false;
        }
        true
    }
}

/// The blob that an object names: by its own name, or as the path of a revision.
pub open spec fn named_blob(m: Machine, root: Seq<char>, object: Seq<char>) -> Option<Seq<u8>> {
    match cut_once(object, ':') {
        Some((rev, path)) => match revision(m, root, rev) {
            Some(id) => match lookup(tree_or_empty(m, root, id), path) {
                Some(r) => blob_of(m, root, r.hash),
                None => None,
            },
            None => None,
        },
        None => blob_of(m, root, object),
    }
}

fn find_blob(system: &System, root: &str, object: &str) -> (r: Option<Vec<u8>>)
    ensures
        opt_bytes(r) == named_blob(system@, root@, object@),
{
    match split_once(object, ':') {
        Some((rev, path)) => match resolve_revision(system, root, rev.as_str()) {
            Some(id) => {
                let tree = commit_tree_or_empty(system, root, id.as_str());
                match tree.get(path.as_str()) {
                    Some(e) => read_blob(system, root, e.hash.as_str()),
                    None => None,
                }
            },
            None => None,
        },
        None => read_blob(system, root, object),
    }
}

/// The lines of the parents of a commit.
pub open spec fn parents_shown(v: Seq<Seq<char>>) -> Seq<char>
    decreases v.len(),
{
    if v.len() == 0 {
        ""@
    } else {
        parents_shown(v.drop_last()) + ("parent "@ + v.last() + "\n"@)
    }
}

/// Who made a commit, and when.
pub open spec fn maker(n: Note) -> Seq<char> {
    n.author_name + " <"@ + n.author_email + "> "@ + signed_decimal(n.timestamp) + " +0000"@
}

/// A commit as it is shown.
pub open spec fn commit_shown(t: Files, n: Note) -> Seq<char> {
    "tree "@ + tree_id(t) + "\n"@ + parents_shown(n.parents) + "author "@ + maker(n)
        + "\ncommitter "@ + maker(n) + "\n\n"@ + n.message + "\n"@
}

fn show_commit(tree: &Tree, commit: &Commit) -> (r: String)
    ensures
        r@ == commit_shown(tree@, commit@),
{
    let ghost all = texts(commit.parents@);
    let mut parents = copy_text("");
    let mut i: usize = 0;
    while i < commit.parents.len()
        invariant
            i <= commit.parents@.len(),
            all == texts(commit.parents@),
            parents@ == parents_shown(all.take(i as int)),
        decreases commit.parents@.len() - i,
    {
        assert(all.take(i + 1).drop_last() =~= all.take(i as int));
        assert(all.take(i + 1).last() == commit.parents@[i as int]@);
        parents.append(join3("parent ", commit.parents[i].as_str(), "\n").as_str());
        i += 1;
    }
    assert(all.take(i as int) =~= all);
    let mut who = join4(
        commit.author_name.as_str(),
        " <",
        commit.author_email.as_str(),
        "> ",
    );
    who.append(format_i64(commit.timestamp).as_str());
    who.append(" +0000");
    let mut out = join5("tree ", tree_hash(tree).as_str(), "\n", parents.as_str(), "author ");
    out.append(who.as_str());
    out.append("\ncommitter ");
    out.append(who.as_str());
    out.append("\n\n");
    out.append(commit.message.as_str());
    out.append("\n");
    out
}

/// Whether an object names an annotated tag.
pub open spec fn names_annotation(m: Machine, root: Seq<char>, object: Seq<char>) -> bool {
    match after_prefix(object, "refs/tags/"@) {
        Some(name) => annotation_of(m, root, name) is Some,
        None => annotation_of(m, root, object) is Some,
    }
}

fn is_annotation(system: &System, root: &str, object: &str) -> (r: bool)
    ensures
        r == names_annotation(system@, root@, object@),
{
    let note = match strip_prefix(object, "refs/tags/") {
        Some(name) => read_annotation(system, root, name.as_str()),
        None => read_annotation(system, root, object),
    };
    note.is_some()
}

/// The complaint about a name that stands for no object.
pub open spec fn no_object(object: Seq<char>) -> Seq<char> {
    "Not a valid object name "@ + object
}

/// Showing an object: a blob, or else the commit that a revision stands for.
pub open spec fn object_shown(m: Machine, s: Screen, root: Seq<char>, shown: Shown, object: Seq<char>) -> Done {
    match named_blob(m, root, object) {
        Some(data) => Done {
            m,
            s: match shown {
                Shown::Type => printed(s, "blob\n"@),
                Shown::Size => printed(s, decimal(data.len()) + "\n"@),
                Shown::Nothing => s,
                Shown::Content => Screen { out: s.out + data, ..s },
            },
            status: 0,
        },
        None => match revision(m, root, object) {
            None => failed(m, s, no_object(object)),
            Some(id) => match commit_of(m, root, id) {
                None => failed(m, s, no_object(object)),
                Some(n) => {
                    let body = commit_shown(tree_or_empty(m, root, id), n);
                    Done {
                        m,
                        s: match shown {
                            Shown::Type => printed(
                                s,
                                if names_annotation(m, root, object) {
                                    "tag\n"@
                                } else {
                                    "commit\n"@
                                },
                            ),
                            Shown::Size => printed(s, decimal(encode_utf8(body).len()) + "\n"@),
                            Shown::Nothing => s,
                            Shown::Content => printed(s, body),
                        },
                        status: 0,
                    }
                },
            },
        },
    }
}

fn show_object(system: &System, root: &str, shown: Shown, object: &str, io: &mut Io) -> (r: i32)
    ensures
        done(system@, final(io)@, r) == object_shown(system@, old(io)@, root@, shown, object@),
{
    if let Some(data) = find_blob(system, root, object) {
        match shown {
            Shown::Type => io.print("blob\n"),
            Shown::Size => io.print(join2(format_usize(data.len()).as_str(), "\n").as_str()),
            Shown::Nothing => {},
            Shown::Content => io.print_bytes(data.as_slice()),
        }
        return 0;
    }
    let id = match resolve_revision(system, root, object) {
        Some(id) => id,
        None => return fatal(io, join2("Not a valid object name ", object).as_str()),
    };
    let commit = match load_commit(system, root, id.as_str()) {
        Some(c) => c,
        None => return fatal(io, join2("Not a valid object name ", object).as_str()),
    };
    let tree = commit_tree_or_empty(system, root, id.as_str());
    let body = show_commit(&tree, &commit);
    match shown {
        Shown::Type => if is_annotation(system, root, object) {
            io.print("tag\n");
        } else {
            io.print("commit\n");
        },
        Shown::Size => {
            let n: usize = body.as_str().as_bytes().len();
            io.print(join2(format_usize(n).as_str(), "\n").as_str());
        },
        Shown::Nothing => {},
        Shown::Content => io.print(body.as_str()),
    }
    0
}

/// What `git cat-file` does.
pub open spec fn cat_file_done(m: Machine, s: Screen, args: Seq<Seq<char>>) -> Done {
    match repo_root(m) {
        None => no_repo(m, s),
        Some(root) => match marks_read::<CatAsk>(args, CatAsk { shown: None }, seq![], 0) {
            Err(option) => misused(m, s, "unsupported cat-file option: "@ + option),
            Ok((asked, operands)) => match asked.shown {
                Some(shown) => if operands.len() > 0 {
                    object_shown(m, s, root, shown, operands.last())
                } else {
                    misused(m, s, "usage: git cat-file (-p|-t|-s|-e) OBJECT"@)
                },
                None => misused(m, s, "usage: git cat-file (-p|-t|-s|-e) OBJECT"@),
            },
        },
    }
}

/// `git cat-file`: shows an object, its type or its size.
pub fn git_cat_file(system: &mut System, args: &[String], io: &mut Io) -> (r: i32)
    ensures
        done(final(system)@, final(io)@, r) == cat_file_done(old(system)@, old(io)@, texts(args@)),
{
    let root = match find_repo_root(system) {
        Some(root) => root,
        None => return repo_error(io),
    };
    let (asked, operands) = match read_marks(args, CatAsk { shown: None }) {
        Ok(x) => x,
        Err(option) => return usage(
            io,
            join2("unsupported cat-file option: ", option.as_str()).as_str(),
        ),
    };
    assert(texts(operands@).len() == operands@.len());
    if let Some(shown) = asked.shown {
        if operands.len() > 0 {
            assert(texts(operands@).last() == operands@[operands@.len() - 1]@);
            return show_object(
                system,
                root.as_str(),
                shown,
                operands[operands.len() - 1].as_str(),
                io,
            );
        }
    }
    usage(io, "usage: git cat-file (-p|-t|-s|-e) OBJECT")
}

// ---------------------------------------------------------------------------
// git hash-object
// ---------------------------------------------------------------------------

/// The largest file whose name is computed.
pub const MAX_HASHED_BYTES: usize = 16_777_216;

/// What the options of `git hash-object` ask for.
#[derive(Clone, Copy)]
pub struct HashAsk {
    pub write: bool,
    pub stdin: bool,
}

impl View for HashAsk {
    type V = HashAsk;

    open spec fn view(&self) -> HashAsk {
        *self
    }
}

impl Marks for HashAsk {
    open spec fn marked(asked: HashAsk, option: Seq<char>) -> Option<HashAsk> {
        if option == "-w"@ {
            Some(HashAsk { write: true, ..asked })
        } else if option == "--stdin"@ {
            Some(HashAsk { stdin: true, ..asked })
        } else if option == "-t"@ {
            Some(asked)
        } else {
            None
        }
    }

    fn mark(&mut self, option: &str) -> (r: bool) {
        if same(option, "-w") {
            self.write = true;
        } else if same(option, "--stdin") {
            self.stdin = true;
        } else if !same(option, "-t") {
            return false;
        }
        true
    }
}

/// What a list of contents holds.
pub open spec fn contents_of(v: Seq<Vec<u8>>) -> Seq<Seq<u8>> {
    v.map_values(|b: Vec<u8>| b@)
}

/// The contents with those of the files from `i` on, or the file that cannot be read.
pub open spec fn contents_read(m: Machine, files: Seq<Seq<char>>, v: Seq<Seq<u8>>, i: int) -> Result<
    Seq<Seq<u8>>,
    Seq<char>,
>
    decreases files.len() - i,
{
    if i < 0 || i >= files.len() {
        Ok(v)
    } else {
        match readable(m, resolved(m.cwd, files[i])) {
            Some(data) => if data.len() <= MAX_HASHED_BYTES {
                contents_read(m, files, v.push(data), i + 1)
            } else {
                Err(files[i])
            },
            None => Err(files[i]),
        }
    }
}

fn read_contents(system: &System, files: &[String], first: Vec<Vec<u8>>) -> (r: Result<
    Vec<Vec<u8>>,
    String,
>)
    ensures
        match r {
            Ok(v) => contents_read(system@, texts(files@), contents_of(first@), 0) == Ok::<
                Seq<Seq<u8>>,
                Seq<char>,
            >(contents_of(v@)),
            Err(f) => contents_read(system@, texts(files@), contents_of(first@), 0) == Err::<
                Seq<Seq<u8>>,
                Seq<char>,
            >(f@),
        },
{
    let ghost all = texts(files@);
    let mut v = first;
    let mut i: usize = 0;
    let ghost goal = contents_read(system@, all, contents_of(first@), 0);
    while i < files.len()
        invariant
            i <= files@.len(),
            all == texts(files@),
            goal == contents_read(system@, all, contents_of(first@), 0),
            goal == contents_read(system@, all, contents_of(v@), i as int),
        decreases files@.len() - i,
    {
        assert(all.len() == files@.len());
        assert(all[i as int] == files@[i as int]@);
        let path = resolve_against(system.cwd().as_str(), files[i].as_str());
        match read_all(system, path.as_str()) {
            Some(data) => {
                if data.len() > MAX_HASHED_BYTES {
                    return Err(copy_text(files[i].as_str()));
                }
                let ghost before = v@;
                v.push(data);
                assert(contents_of(v@) =~= contents_of(before).push(data@));
            },
            None => return Err(copy_text(files[i].as_str())),
        }
        i += 1;
    }
    assert(all.len() == files@.len());
    Ok(v)
}

/// Naming contents from `i` on, and storing them where that is asked for.
pub open spec fn contents_named(
    m: Machine,
    s: Screen,
    root: Option<Seq<char>>,
    write: bool,
    v: Seq<Seq<u8>>,
    i: int,
) -> Done
    decreases v.len() - i,
{
    if i < 0 || i >= v.len() {
        Done { m, s, status: 0 }
    } else {
        let named = printed(s, blob_id(v[i]) + "\n"@);
        if !write {
            contents_named(m, named, root, write, v, i + 1)
        } else {
            match root {
                None => no_repo(m, s),
                Some(r) => match blob_stored(m, r, v[i]) {
                    (n, Ok(())) => contents_named(n, named, root, write, v, i + 1),
                    (n, Err(_)) => Done { m: n, s, status: 1 },
                },
            }
        }
    }
}

fn name_contents(
    system: &mut System,
    root: &Option<String>,
    write: bool,
    v: &[Vec<u8>],
    io: &mut Io,
) -> (r: i32)
    ensures
        done(final(system)@, final(io)@, r) == contents_named(
            old(system)@,
            old(io)@,
            opt_text(*root),
            write,
            contents_of(v@),
            0,
        ),
{
    let ghost all = contents_of(v@);
    let ghost goal = contents_named(system@, io@, opt_text(*root), write, all, 0);
    let mut i: usize = 0;
    while i < v.len()
        invariant
            i <= v@.len(),
            all == contents_of(v@),
            goal == contents_named(old(system)@, old(io)@, opt_text(*root), write, all, 0),
            goal == contents_named(system@, io@, opt_text(*root), write, all, i as int),
        decreases v@.len() - i,
    {
        assert(all.len() == v@.len());
        assert(all[i as int] == v@[i as int]@);
        let hash = blob_hash(v[i].as_slice());
        if write {
            match root {
                None => return repo_error(io),
                Some(r) => match write_blob(system, r.as_str(), v[i].as_slice()) {
                    Ok(_) => {},
                    Err(_) => return 1,
                },
            }
        }
        io.print(join2(hash.as_str(), "\n").as_str());
        i += 1;
    }
    assert(all.len() == v@.len());
    0
}

/// What `git hash-object` does.
pub open spec fn hash_object_done(m: Machine, s: Screen, args: Seq<Seq<char>>) -> Done {
    match marks_read::<HashAsk>(args, HashAsk { write: false, stdin: false }, seq![], 0) {
        Err(option) => misused(m, s, "unsupported hash-object option: "@ + option),
        Ok((asked, files)) => match contents_read(
            m,
            files,
            if asked.stdin {
                seq![s.stdin]
            } else {
                seq![]
            },
            0,
        ) {
            Err(file) => failed(m, s, "could not open '"@ + file + "' for reading"@),
            Ok(v) => if v.len() == 0 {
                misused(m, s, "usage: git hash-object [-w] [--stdin] [FILE...]"@)
            } else {
                contents_named(m, s, repo_root(m), asked.write, v, 0)
            },
        },
    }
}

/// `git hash-object`: names contents, and stores them where that is asked for.
pub fn git_hash_object(system: &mut System, args: &[String], io: &mut Io) -> (r: i32)
    ensures
        done(final(system)@, final(io)@, r) == hash_object_done(
            old(system)@,
            old(io)@,
            texts(args@),
        ),
{
    let (asked, files) = match read_marks(args, HashAsk { write: false, stdin: false }) {
        Ok(x) => x,
        Err(option) => return usage(
            io,
            join2("unsupported hash-object option: ", option.as_str()).as_str(),
        ),
    };
    let mut first: Vec<Vec<u8>> = Vec::new();
    if asked.stdin {
        first.push(copy_bytes(io.stdin.as_slice()));
        assert(contents_of(first@) =~= seq![io@.stdin]);
    } else {
        assert(contents_of(first@) =~= seq![]);
    }
    let v = match read_contents(system, files.as_slice(), first) {
        Ok(v) => v,
        Err(file) => return fatal(
            io,
            join3("could not open '", file.as_str(), "' for reading").as_str(),
        ),
    };
    assert(contents_of(v@).len() == v@.len());
    if v.len() == 0 {
        return usage(io, "usage: git hash-object [-w] [--stdin] [FILE...]");
    }
    let root = find_repo_root(system);
    name_contents(system, &root, asked.write, v.as_slice(), io)
}

// ---------------------------------------------------------------------------
// git ls-tree
// ---------------------------------------------------------------------------

/// What the options of `git ls-tree` ask for.
#[derive(Clone, Copy)]
pub struct TreeAsk {
    pub name_only: bool,
    pub recursive: bool,
    pub directories_only: bool,
}

impl View for TreeAsk {
    type V = TreeAsk;

    open spec fn view(&self) -> TreeAsk {
        *self
    }
}

impl Marks for TreeAsk {
    open spec fn marked(asked: TreeAsk, option: Seq<char>) -> Option<TreeAsk> {
        if option == "--name-only"@ || option == "--name-status"@ {
            Some(TreeAsk { name_only: true, ..asked })
        } else if option == "-r"@ {
            Some(TreeAsk { recursive: true, ..asked })
        } else if option == "-d"@ {
            Some(TreeAsk { directories_only: true, ..asked })
        } else if option == "--full-name"@ {
            Some(asked)
        } else {
            None
        }
    }

    fn mark(&mut self, option: &str) -> (r: bool) {
        if same(option, "--name-only") || same(option, "--name-status") {
            self.name_only = true;
        } else if same(option, "-r") {
            self.recursive = true;
        } else if same(option, "-d") {
            self.directories_only = true;
        } else if !same(option, "--full-name") {
            return false;
        }
        true
    }
}

/// A row of a listed tree: a file, or a directory where there is no entry.
pub struct Row {
    pub entry: Option<Entry>,
}

impl View for Row {
    type V = Option<Record>;

    open spec fn view(&self) -> Option<Record> {
        match self.entry {
            Some(e) => Some(e@),
            None => None,
        }
    }
}

/// The rows of a listed tree, by name.
pub type Rows = Seq<(Seq<char>, Option<Record>)>;

/// The part of a path below a directory. The whole path where no directory is named.
pub open spec fn below(prefix: Seq<char>, path: Seq<char>) -> Option<Seq<char>> {
    if prefix.len() == 0 {
        Some(path)
    } else {
        after_prefix(path, prefix + "/"@)
    }
}

/// The rows with one more file. Without recursion a file further down stands for its directory.
pub open spec fn row_added(rows: Rows, prefix: Seq<char>, recursive: bool, path: Seq<char>, r: Record) -> Rows {
    match below(prefix, path) {
        None => rows,
        Some(rest) => match cut_once(rest, '/') {
            Some((directory, _)) => if recursive {
                bind(rows, path, Some(r))
            } else if prefix.len() == 0 {
                bind(rows, directory, None)
            } else {
                bind(rows, prefix + "/"@ + directory, None)
            },
            None => bind(rows, path, Some(r)),
        },
    }
}

/// The rows of a listed tree.
pub open spec fn rows_of(t: Files, prefix: Seq<char>, recursive: bool) -> Rows
    decreases t.len(),
{
    if t.len() == 0 {
        seq![]
    } else {
        row_added(
            rows_of(t.drop_last(), prefix, recursive),
            prefix,
            recursive,
            t.last().0,
            t.last().1,
        )
    }
}

fn list_rows(t: &Tree, prefix: &str, recursive: bool) -> (r: OrdMap<Row>)
    ensures
        r@ == rows_of(t@, prefix@, recursive),
{
    let mut rows: OrdMap<Row> = OrdMap::new();
    let below_prefix = join2(prefix, "/");
    let mut i: usize = 0;
    assert(rows@ =~= rows_of(t@.take(0), prefix@, recursive));
    while i < t.len()
        invariant
            i <= t@.len(),
            below_prefix@ == prefix@ + "/"@,
            rows@ == rows_of(t@.take(i as int), prefix@, recursive),
        decreases t@.len() - i,
    {
        assert(t@.take(i + 1).drop_last() =~= t@.take(i as int));
        assert(t@.take(i + 1).last() == t@[i as int]);
        let path = t.key_at(i);
        let e = t.value_at(i);
        let top = prefix.is_empty();
        let rest = if top {
            Some(copy_text(path))
        } else {
            strip_prefix(path, below_prefix.as_str())
        };
        if let Some(rest) = rest {
            let directory = split_once(rest.as_str(), '/');
            match directory {
                Some((name, _)) if !recursive => {
                    let full = if top {
                        name
                    } else {
                        join3(prefix, "/", name.as_str())
                    };
                    rows.insert(full, Row { entry: None });
                },
                _ => {
                    let copy = Entry {
                        hash: copy_text(e.hash.as_str()),
                        executable: e.executable,
                        symlink: e.symlink,
                    };
                    rows.insert(copy_text(path), Row { entry: Some(copy) });
                },
            }
        }
        i += 1;
    }
    assert(t@.take(i as int) =~= t@);
    rows
}

/// The files below a directory, by the rest of their paths.
pub open spec fn subtree(t: Files, directory: Seq<char>) -> Files
    decreases t.len(),
{
    if t.len() == 0 {
        seq![]
    } else {
        match after_prefix(t.last().0, directory + "/"@) {
            Some(rest) => bind(subtree(t.drop_last(), directory), rest, t.last().1),
            None => subtree(t.drop_last(), directory),
        }
    }
}

/// The name of the tree below a directory.
pub fn subtree_hash(t: &Tree, directory: &str) -> (r: String)
    ensures
        r@ == tree_id(subtree(t@, directory@)),
{
    let prefix = join2(directory, "/");
    let mut part: Tree = OrdMap::new();
    let mut i: usize = 0;
    assert(part@ =~= subtree(t@.take(0), directory@));
    while i < t.len()
        invariant
            i <= t@.len(),
            prefix@ == directory@ + "/"@,
            part@ == subtree(t@.take(i as int), directory@),
        decreases t@.len() - i,
    {
        assert(t@.take(i + 1).drop_last() =~= t@.take(i as int));
        assert(t@.take(i + 1).last() == t@[i as int]);
        if let Some(rest) = strip_prefix(t.key_at(i), prefix.as_str()) {
            let e = t.value_at(i);
            part.insert(
                rest,
                Entry {
                    hash: copy_text(e.hash.as_str()),
                    executable: e.executable,
                    symlink: e.symlink,
                },
            );
        }
        i += 1;
    }
    assert(t@.take(i as int) =~= t@);
    tree_hash(&part)
}

/// The line of one row.
pub open spec fn row_line(t: Files, asked: TreeAsk, name: Seq<char>, entry: Option<Record>) -> Seq<char> {
    if asked.directories_only && entry is Some {
        ""@
    } else if asked.name_only {
        name + "\n"@
    } else {
        match entry {
            Some(r) => mode_of(r) + " blob "@ + r.hash + "\t"@ + name + "\n"@,
            None => "040000 tree "@ + tree_id(subtree(t, name)) + "\t"@ + name + "\n"@,
        }
    }
}

/// The lines of the rows.
pub open spec fn row_lines(t: Files, asked: TreeAsk, rows: Rows) -> Seq<char>
    decreases rows.len(),
{
    if rows.len() == 0 {
        ""@
    } else {
        row_lines(t, asked, rows.drop_last()) + row_line(t, asked, rows.last().0, rows.last().1)
    }
}

fn write_rows(t: &Tree, asked: TreeAsk, rows: &OrdMap<Row>) -> (r: String)
    ensures
        r@ == row_lines(t@, asked, rows@),
{
    let mut out = copy_text("");
    let mut i: usize = 0;
    while i < rows.len()
        invariant
            i <= rows@.len(),
            out@ == row_lines(t@, asked, rows@.take(i as int)),
        decreases rows@.len() - i,
    {
        assert(rows@.take(i + 1).drop_last() =~= rows@.take(i as int));
        assert(rows@.take(i + 1).last() == rows@[i as int]);
        let name = rows.key_at(i);
        let row = rows.value_at(i);
        let line = if asked.directories_only && row.entry.is_some() {
            copy_text("")
        } else if asked.name_only {
            join2(name, "\n")
        } else {
            match &row.entry {
                Some(e) => {
                    let mut line = join5(e.mode(), " blob ", e.hash.as_str(), "\t", name);
                    line.append("\n");
                    line
                },
                None => join5("040000 tree ", subtree_hash(t, name).as_str(), "\t", name, "\n"),
            }
        };
        out.append(line.as_str());
        i += 1;
    }
    assert(rows@.take(i as int) =~= rows@);
    out
}

/// What `git ls-tree` does.
pub open spec fn ls_tree_done(m: Machine, s: Screen, args: Seq<Seq<char>>) -> Done {
    match repo_root(m) {
        None => no_repo(m, s),
        Some(root) => match marks_read::<TreeAsk>(
            expanded(args, "rd"@),
            TreeAsk { name_only: false, recursive: false, directories_only: false },
            seq![],
            0,
        ) {
            Err(option) => misused(m, s, "unsupported ls-tree option: "@ + option),
            Ok((asked, operands)) => if operands.len() == 0 {
                misused(m, s, "usage: git ls-tree [-r] [--name-only] REVISION [PATH...]"@)
            } else {
                match revision(m, root, operands[0]) {
                    None => ambiguous(m, s, operands[0]),
                    Some(id) => {
                        let t = tree_or_empty(m, root, id);
                        let prefix = if operands.len() > 1 {
                            without_trailing(operands[1], '/')
                        } else {
                            ""@
                        };
                        Done {
                            m,
                            s: printed(s, row_lines(t, asked, rows_of(t, prefix, asked.recursive))),
                            status: 0,
                        }
                    },
                }
            },
        },
    }
}

/// `git ls-tree`: lists the tree of a revision.
pub fn git_ls_tree(system: &mut System, args: &[String], io: &mut Io) -> (r: i32)
    ensures
        done(final(system)@, final(io)@, r) == ls_tree_done(old(system)@, old(io)@, texts(args@)),
{
    let root = match find_repo_root(system) {
        Some(root) => root,
        None => return repo_error(io),
    };
    let split = expand_clusters(args, "rd");
    let start = TreeAsk { name_only: false, recursive: false, directories_only: false };
    let (asked, operands) = match read_marks(split.as_slice(), start) {
        Ok(x) => x,
        Err(option) => return usage(
            io,
            join2("unsupported ls-tree option: ", option.as_str()).as_str(),
        ),
    };
    let ghost all = texts(operands@);
    assert(all.len() == operands@.len());
    if operands.len() == 0 {
        return usage(io, "usage: git ls-tree [-r] [--name-only] REVISION [PATH...]");
    }
    assert(all[0] == operands@[0]@);
    let id = match resolve_revision(system, root.as_str(), operands[0].as_str()) {
        Some(id) => id,
        None => return ambiguous_argument(io, operands[0].as_str()),
    };
    let t = commit_tree_or_empty(system, root.as_str(), id.as_str());
    let prefix = if operands.len() > 1 {
        assert(all[1] == operands@[1]@);
        trim_end_matches(operands[1].as_str(), '/')
    } else {
        copy_text("")
    };
    let rows = list_rows(&t, prefix.as_str(), asked.recursive);
    io.print(write_rows(&t, asked, &rows).as_str());
    0
}

// ---------------------------------------------------------------------------
// git check-ignore
// ---------------------------------------------------------------------------

/// What the options of `git check-ignore` ask for.
#[derive(Clone, Copy)]
pub struct CheckAsk {
    pub verbose: bool,
    pub quiet: bool,
    pub non_matching: bool,
    pub from_stdin: bool,
}

impl View for CheckAsk {
    type V = CheckAsk;

    open spec fn view(&self) -> CheckAsk {
        *self
    }
}

impl Marks for CheckAsk {
    open spec fn marked(asked: CheckAsk, option: Seq<char>) -> Option<CheckAsk> {
        if option == "-v"@ || option == "--verbose"@ {
            Some(CheckAsk { verbose: true, ..asked })
        } else if option == "-q"@ || option == "--quiet"@ {
            Some(CheckAsk { quiet: true, ..asked })
        } else if option == "-n"@ || option == "--non-matching"@ {
            Some(CheckAsk { non_matching: true, ..asked })
        } else if option == "--stdin"@ {
            Some(CheckAsk { from_stdin: true, ..asked })
        } else if option == "--no-index"@ {
            Some(asked)
        } else {
            None
        }
    }

    fn mark(&mut self, option: &str) -> (r: bool) {
        if same(option, "-v") || same(option, "--verbose") {
            self.verbose = true;
        } else if same(option, "-q") || same(option, "--quiet") {
            self.quiet = true;
        } else if same(option, "-n") || same(option, "--non-matching") {
            self.non_matching = true;
        } else if same(option, "--stdin") {
            self.from_stdin = true;
        } else if !same(option, "--no-index") {
            return false;
        }
        true
    }
}

/// The line of one path.
pub open spec fn checked_line(asked: CheckAsk, path: Seq<char>, rule: Option<Seq<char>>) -> Seq<char> {
    if asked.quiet {
        ""@
    } else {
        match rule {
            Some(text) => if asked.verbose {
                text + "\t"@ + path + "\n"@
            } else {
                path + "\n"@
            },
            None => if asked.non_matching {
                "::\t"@ + path + "\n"@
            } else {
                ""@
            },
        }
    }
}

/// The lines of the paths, and whether any of them is ignored.
pub open spec fn checked(
    rules: Seq<Rule>,
    cwd: Seq<char>,
    root: Seq<char>,
    asked: CheckAsk,
    paths: Seq<Seq<char>>,
) -> (Seq<char>, bool)
    decreases paths.len(),
{
    if paths.len() == 0 {
        (""@, false)
    } else {
        let (out, any) = checked(rules, cwd, root, asked, paths.drop_last());
        let rule = ignoring_rule(rules, pathspec_of(cwd, root, paths.last()));
        (out + checked_line(asked, paths.last(), rule), any || rule is Some)
    }
}

/// What `git check-ignore` does.
pub open spec fn check_ignore_done(m: Machine, s: Screen, args: Seq<Seq<char>>) -> Done {
    match repo_root(m) {
        None => no_repo(m, s),
        Some(root) => match marks_read::<CheckAsk>(
            expanded(args, "vqn"@),
            CheckAsk { verbose: false, quiet: false, non_matching: false, from_stdin: false },
            seq![],
            0,
        ) {
            Err(option) => misused(m, s, "unsupported check-ignore option: "@ + option),
            Ok((asked, operands)) => {
                let paths = if asked.from_stdin {
                    operands + line_list(loose_text(s.stdin))
                } else {
                    operands
                };
                if paths.len() == 0 {
                    misused(m, s, "usage: git check-ignore PATH..."@)
                } else if asked.non_matching && !asked.verbose {
                    misused(m, s, "check-ignore: -n requires -v"@)
                } else {
                    let (out, any) = checked(ignore_rules(m, root), m.cwd, root, asked, paths);
                    Done {
                        m,
                        s: printed(s, out),
                        status: if any {
                            0
                        } else {
                            1
                        },
                    }
                }
            },
        },
    }
}

/// `git check-ignore`: says which paths are ignored.
pub fn git_check_ignore(system: &mut System, args: &[String], io: &mut Io) -> (r: i32)
    ensures
        done(final(system)@, final(io)@, r) == check_ignore_done(
            old(system)@,
            old(io)@,
            texts(args@),
        ),
{
    let root = match find_repo_root(system) {
        Some(root) => root,
        None => return repo_error(io),
    };
    let split = expand_clusters(args, "vqn");
    let start = CheckAsk { verbose: false, quiet: false, non_matching: false, from_stdin: false };
    let (asked, operands) = match read_marks(split.as_slice(), start) {
        Ok(x) => x,
        Err(option) => return usage(
            io,
            join2("unsupported check-ignore option: ", option.as_str()).as_str(),
        ),
    };
    let mut paths = operands;
    if asked.from_stdin {
        let mut more = lines(decode_lossy(io.stdin.as_slice()).as_str());
        let ghost a = paths@;
        let ghost b = more@;
        paths.append(&mut more);
        assert(texts(paths@) =~= texts(a) + texts(b));
    }
    let ghost all = texts(paths@);
    assert(all.len() == paths@.len());
    if paths.len() == 0 {
        return usage(io, "usage: git check-ignore PATH...");
    }
    if asked.non_matching && !asked.verbose {
        return usage(io, "check-ignore: -n requires -v");
    }
    let rules = load_ignores(system, root.as_str());
    let cwd = system.cwd();
    let mut out = copy_text("");
    let mut any = false;
    let mut i: usize = 0;
    while i < paths.len()
        invariant
            i <= paths@.len(),
            all == texts(paths@),
            (out@, any) == checked(rules@, cwd@, root@, asked, all.take(i as int)),
        decreases paths@.len() - i,
    {
        assert(all.take(i + 1).drop_last() =~= all.take(i as int));
        assert(all.take(i + 1).last() == paths@[i as int]@);
        let relative = pathspec(cwd.as_str(), root.as_str(), paths[i].as_str());
        let rule = rules.describe(relative.as_str());
        let path = paths[i].as_str();
        let line = if asked.quiet {
            copy_text("")
        } else {
            match &rule {
                Some(text) => if asked.verbose {
                    join4(text.as_str(), "\t", path, "\n")
                } else {
                    join2(path, "\n")
                },
                None => if asked.non_matching {
                    join3("::\t", path, "\n")
                } else {
                    copy_text("")
                },
            }
        };
        any = any || rule.is_some();
        out.append(line.as_str());
        i += 1;
    }
    assert(all.take(i as int) =~= all);
    io.print(out.as_str());
    if any {
        0
    } else {
        1
    }
}

// ---------------------------------------------------------------------------
// git merge-base
// ---------------------------------------------------------------------------

/// What the options of `git merge-base` ask for.
#[derive(Clone, Copy)]
pub struct BaseAsk {
    pub is_ancestor: bool,
}

impl View for BaseAsk {
    type V = BaseAsk;

    open spec fn view(&self) -> BaseAsk {
        *self
    }
}

impl Marks for BaseAsk {
    open spec fn marked(asked: BaseAsk, option: Seq<char>) -> Option<BaseAsk> {
        if option == "--is-ancestor"@ {
            Some(BaseAsk { is_ancestor: true })
        } else {
            None
        }
    }

    fn mark(&mut self, option: &str) -> (r: bool) {
        if same(option, "--is-ancestor") {
            self.is_ancestor = true;
            return true;
        }
        false
    }
}

/// What `git merge-base` does.
pub open spec fn merge_base_done(m: Machine, s: Screen, args: Seq<Seq<char>>) -> Done {
    match repo_root(m) {
        None => no_repo(m, s),
        Some(root) => match marks_read::<BaseAsk>(args, BaseAsk { is_ancestor: false }, seq![], 0) {
            Err(option) => misused(m, s, "unsupported merge-base option: "@ + option),
            Ok((asked, v)) => if v.len() != 2 {
                misused(m, s, "usage: git merge-base [--is-ancestor] REVISION REVISION"@)
            } else {
                match (revision(m, root, v[0]), revision(m, root, v[1])) {
                    (Some(left), Some(right)) => if asked.is_ancestor {
                        Done {
                            m,
                            s,
                            status: if within(ancestry(m, root, right), left) {
                                0
                            } else {
                                1
                            },
                        }
                    } else {
                        match shared_base(m, root, left, right) {
                            Some(base) => Done { m, s: printed(s, base + "\n"@), status: 0 },
                            None => Done { m, s, status: 1 },
                        }
                    },
                    _ => ambiguous(m, s, joined(v, " "@)),
                }
            },
        },
    }
}

/// `git merge-base`: the best common ancestor of two revisions, or whether one is an ancestor of
/// the other.
pub fn git_merge_base(system: &mut System, args: &[String], io: &mut Io) -> (r: i32)
    ensures
        done(final(system)@, final(io)@, r) == merge_base_done(
            old(system)@,
            old(io)@,
            texts(args@),
        ),
{
    let root = match find_repo_root(system) {
        Some(root) => root,
        None => return repo_error(io),
    };
    let (asked, v) = match read_marks(args, BaseAsk { is_ancestor: false }) {
        Ok(x) => x,
        Err(option) => return usage(
            io,
            join2("unsupported merge-base option: ", option.as_str()).as_str(),
        ),
    };
    let ghost all = texts(v@);
    assert(all.len() == v@.len());
    if v.len() != 2 {
        return usage(io, "usage: git merge-base [--is-ancestor] REVISION REVISION");
    }
    assert(all[0] == v@[0]@ && all[1] == v@[1]@);
    let left = resolve_revision(system, root.as_str(), v[0].as_str());
    let right = resolve_revision(system, root.as_str(), v[1].as_str());
    match (left, right) {
        (Some(left), Some(right)) => {
            if asked.is_ancestor {
                let known = ancestors(system, root.as_str(), right.as_str());
                return if known.contains_key(left.as_str()) {
                    0
                } else {
                    1
                };
            }
            match merge_base(system, root.as_str(), left.as_str(), right.as_str()) {
                Some(base) => {
                    io.print(join2(base.as_str(), "\n").as_str());
                    0
                },
                None => 1,
            }
        },
        _ => ambiguous_argument(io, join(v.as_slice(), " ").as_str()),
    }
}

} // verus!
