//! The machine that commands run on: files in memory, a working directory, an environment, a
//! clock and budgets for processor time, memory and disk.

use vstd::prelude::*;

use crate::order::{bind, lookup, unbind, Duplicate, OrdMap};
use crate::text::{
    chars_of, copy_bytes, copy_text, cut, join2, join3, last_char, lemma_rindex_to, lemma_texts_push, opt_text, pieces,
    rindex_to, same, split, starts, starts_with, texts,
};

verus! {

// ---------------------------------------------------------------------------
// Paths
// ---------------------------------------------------------------------------

/// `suffix` below the directory `root`.
pub open spec fn below(root: Seq<char>, suffix: Seq<char>) -> Seq<char> {
    if root == "/"@ {
        "/"@ + suffix
    } else {
        root + "/"@ + suffix
    }
}

/// `suffix` below the directory `root`.
pub fn path_join(root: &str, suffix: &str) -> (r: String)
    ensures
        r@ == below(root@, suffix@),
{
    if same(root, "/") {
        join2("/", suffix)
    } else {
        join3(root, "/", suffix)
    }
}

/// The directory that holds `path`; none holds the root.
pub open spec fn parent(path: Seq<char>) -> Option<Seq<char>> {
    match rindex_to(path, '/', path.len() as int) {
        Some(i) => if path.len() == 1 {
            None
        } else if i == 0 {
            Some("/"@)
        } else {
            Some(path.subrange(0, i))
        },
        None => None,
    }
}

/// A directory has a shorter path than what it holds.
pub proof fn lemma_parent_shorter(path: Seq<char>)
    ensures
        parent(path) is Some ==> parent(path)->0.len() < path.len(),
{
    lemma_rindex_to(path, '/', path.len() as int);
    reveal_strlit("/");
}

/// The directory that holds `path`.
pub fn parent_of(path: &str) -> (r: Option<String>)
    ensures
        opt_text(r) == parent(path@),
{
    let cs = chars_of(path);
    match last_char(cs.as_slice(), '/') {
        Some(i) => {
            if cs.len() == 1 {
                None
            } else if i == 0 {
                Some(copy_text("/"))
            } else {
                Some(cut(cs.as_slice(), 0, i))
            }
        },
        None => None,
    }
}

/// The last component of a path.
pub open spec fn base_name(path: Seq<char>) -> Seq<char> {
    match rindex_to(path, '/', path.len() as int) {
        Some(i) => path.subrange(i + 1, path.len() as int),
        None => path,
    }
}

/// The last component of a path.
pub fn basename(path: &str) -> (r: String)
    ensures
        r@ == base_name(path@),
{
    let cs = chars_of(path);
    match last_char(cs.as_slice(), '/') {
        Some(i) => cut(cs.as_slice(), i + 1, cs.len()),
        None => copy_text(path),
    }
}

/// The components of a path walked from `stack` on: empty ones and `.` stand for nothing, `..` goes
/// back one.
pub open spec fn walked(stack: Seq<Seq<char>>, components: Seq<Seq<char>>) -> Seq<Seq<char>>
    decreases components.len(),
{
    if components.len() == 0 {
        stack
    } else {
        let c = components[0];
        let rest = components.subrange(1, components.len() as int);
        if c.len() == 0 || c == "."@ {
            walked(stack, rest)
        } else if c == ".."@ {
            walked(
                if stack.len() > 0 {
                    stack.drop_last()
                } else {
                    stack
                },
                rest,
            )
        } else {
            walked(stack.push(c), rest)
        }
    }
}

/// The absolute path of components.
pub open spec fn absolute(components: Seq<Seq<char>>) -> Seq<char>
    decreases components.len(),
{
    if components.len() == 0 {
        "/"@
    } else {
        below(absolute(components.drop_last()), components.last())
    }
}

/// The absolute path that `path` names from the directory `base`.
pub open spec fn resolved(base: Seq<char>, path: Seq<char>) -> Seq<char> {
    let start = if starts(path, "/"@) {
        seq![]
    } else {
        walked(seq![], pieces(base, '/'))
    };
    absolute(walked(start, pieces(path, '/')))
}

fn walk_components(stack: &mut Vec<String>, components: &[String])
    ensures
        texts(final(stack)@) == walked(texts(old(stack)@), texts(components@)),
{
    let ghost start = texts(stack@);
    let ghost all = texts(components@);
    let mut i: usize = 0;
    assert(all.subrange(0, all.len() as int) =~= all);
    while i < components.len()
        invariant
            i <= components.len(),
            all == texts(components@),
            walked(start, all) == walked(
                texts(stack@),
                all.subrange(i as int, all.len() as int),
            ),
        decreases components.len() - i,
    {
        broadcast use lemma_texts_push;

        let ghost rest = all.subrange(i as int, all.len() as int);
        assert(rest[0] == components@[i as int]@);
        assert(rest.subrange(1, rest.len() as int) =~= all.subrange(i + 1, all.len() as int));
        let c = components[i].as_str();
        if c.is_empty() || same(c, ".") {
        } else if same(c, "..") {
            let ghost was = texts(stack@);
            let _ = stack.pop();
            assert(was.len() > 0 ==> texts(stack@) =~= was.drop_last());
            assert(was.len() == 0 ==> texts(stack@) =~= was);
        } else {
            stack.push(copy_text(c));
        }
        i += 1;
    }
}

/// The absolute path that `path` names from the directory `base`.
pub fn resolve_against(base: &str, path: &str) -> (r: String)
    ensures
        r@ == resolved(base@, path@),
{
    let mut stack: Vec<String> = Vec::new();
    assert(texts(stack@) =~= seq![]);
    if !starts_with(path, "/") {
        walk_components(&mut stack, split(base, '/').as_slice());
    }
    walk_components(&mut stack, split(path, '/').as_slice());
    let ghost all = texts(stack@);
    let mut out = copy_text("/");
    let mut i: usize = 0;
    assert(absolute(all.take(0)) == "/"@);
    while i < stack.len()
        invariant
            i <= stack.len(),
            all == texts(stack@),
            out@ == absolute(all.take(i as int)),
        decreases stack.len() - i,
    {
        assert(all.take(i + 1).drop_last() =~= all.take(i as int));
        assert(all.take(i + 1).last() == stack@[i as int]@);
        out = path_join(out.as_str(), stack[i].as_str());
        i += 1;
    }
    assert(all.take(i as int) =~= all);
    out
}

// ---------------------------------------------------------------------------
// Files
// ---------------------------------------------------------------------------

/// What stands at a path.
pub enum Node {
    File { bytes: Vec<u8>, mode: u32, native: bool },
    Symlink { target: String },
    Directory,
}

/// What a node holds.
pub enum Thing {
    File { bytes: Seq<u8>, mode: u32, native: bool },
    Symlink { target: Seq<char> },
    Directory,
}

impl View for Node {
    type V = Thing;

    open spec fn view(&self) -> Thing {
        match *self {
            Node::File { bytes, mode, native } => Thing::File { bytes: bytes@, mode, native },
            Node::Symlink { target } => Thing::Symlink { target: target@ },
            Node::Directory => Thing::Directory,
        }
    }
}

impl Duplicate for Node {
    fn duplicate(&self) -> (r: Self) {
        match self {
            Node::File { bytes, mode, native } => Node::File {
                bytes: copy_bytes(bytes.as_slice()),
                mode: *mode,
                native: *native,
            },
            Node::Symlink { target } => Node::Symlink { target: copy_text(target.as_str()) },
            Node::Directory => Node::Directory,
        }
    }
}

/// Files by their absolute path.
pub type Disk = Seq<(Seq<char>, Thing)>;

/// Why a file could not be changed.
#[derive(Debug)]
pub enum FileError {
    NotFound(String),
    NotADirectory(String),
    IsADirectory(String),
    NotEmpty(String),
    NoSpace,
}

/// What a file error says.
pub enum Refusal {
    NotFound(Seq<char>),
    NotADirectory(Seq<char>),
    IsADirectory(Seq<char>),
    NotEmpty(Seq<char>),
    NoSpace,
}

impl View for FileError {
    type V = Refusal;

    open spec fn view(&self) -> Refusal {
        match *self {
            FileError::NotFound(p) => Refusal::NotFound(p@),
            FileError::NotADirectory(p) => Refusal::NotADirectory(p@),
            FileError::IsADirectory(p) => Refusal::IsADirectory(p@),
            FileError::NotEmpty(p) => Refusal::NotEmpty(p@),
            FileError::NoSpace => Refusal::NoSpace,
        }
    }
}

/// The message of a file error.
pub open spec fn refusal_text(e: Refusal) -> Seq<char> {
    match e {
        Refusal::NotFound(p) => p + ": No such file or directory"@,
        Refusal::NotADirectory(p) => p + ": Not a directory"@,
        Refusal::IsADirectory(p) => p + ": Is a directory"@,
        Refusal::NotEmpty(p) => p + ": Directory not empty"@,
        Refusal::NoSpace => "No space left on device"@,
    }
}

impl FileError {
    /// The message of this error.
    pub fn message(&self) -> (r: String)
        ensures
            r@ == refusal_text(self@),
    {
        match self {
            FileError::NotFound(p) => join2(p.as_str(), ": No such file or directory"),
            FileError::NotADirectory(p) => join2(p.as_str(), ": Not a directory"),
            FileError::IsADirectory(p) => join2(p.as_str(), ": Is a directory"),
            FileError::NotEmpty(p) => join2(p.as_str(), ": Directory not empty"),
            FileError::NoSpace => copy_text("No space left on device"),
        }
    }
}

/// The bytes that one node takes.
pub open spec fn thing_size(t: Thing) -> nat {
    match t {
        Thing::File { bytes, .. } => bytes.len(),
        Thing::Symlink { target } => target.len(),
        Thing::Directory => 0,
    }
}

/// The bytes that all the files take.
pub open spec fn disk_size(d: Disk) -> nat
    decreases d.len(),
{
    if d.len() == 0 {
        0
    } else {
        disk_size(d.drop_last()) + thing_size(d.last().1)
    }
}

/// The most symbolic links that are followed in a row.
pub const MAX_LINKS: usize = 40;

/// The path and the node that `path` leads to once links at its end are followed.
pub open spec fn followed(d: Disk, path: Seq<char>, fuel: nat) -> Option<(Seq<char>, Thing)>
    decreases fuel,
{
    match lookup(d, path) {
        Some(Thing::Symlink { target }) => if fuel == 0 {
            None
        } else {
            let base = match parent(path) {
                Some(p) => p,
                None => "/"@,
            };
            followed(d, resolved(base, target), (fuel - 1) as nat)
        },
        Some(t) => Some((path, t)),
        None => None,
    }
}

/// What stands at `path`, links followed.
pub open spec fn thing_at(d: Disk, path: Seq<char>) -> Option<Thing> {
    match followed(d, path, MAX_LINKS as nat) {
        Some((_, t)) => Some(t),
        None => None,
    }
}

/// Whether a directory stands at `path`, links followed.
pub open spec fn dir_at(d: Disk, path: Seq<char>) -> bool {
    thing_at(d, path) matches Some(Thing::Directory)
}

/// Whether a file stands at `path`, links followed.
pub open spec fn file_at(d: Disk, path: Seq<char>) -> bool {
    thing_at(d, path) matches Some(Thing::File { .. })
}

/// The bytes of the file at `path`, links followed.
pub open spec fn bytes_at(d: Disk, path: Seq<char>) -> Option<Seq<u8>> {
    match thing_at(d, path) {
        Some(Thing::File { bytes, .. }) => Some(bytes),
        _ => None,
    }
}

/// The disk with the directories above `path`; an error where something else is in their way.
pub open spec fn with_parents(d: Disk, path: Seq<char>) -> Result<Disk, Refusal>
    decreases path.len(),
{
    match parent(path) {
        None => Ok(d),
        Some(p) => match lookup(d, p) {
            Some(Thing::Directory) => Ok(d),
            Some(_) => Err(Refusal::NotADirectory(p)),
            None => {
                proof {
                    lemma_parent_shorter(path);
                }
                match with_parents(d, p) {
                    Ok(e) => Ok(bind(e, p, Thing::Directory)),
                    Err(r) => Err(r),
                }
            },
        },
    }
}

/// The disk with `t` at `path`, its directories made; an error where it cannot stand there or
/// the disk would hold more than `limit` bytes.
pub open spec fn with_thing(d: Disk, path: Seq<char>, t: Thing, limit: nat) -> Result<
    Disk,
    Refusal,
> {
    match with_parents(d, path) {
        Err(r) => Err(r),
        Ok(e) => if lookup(e, path) matches Some(Thing::Directory) {
            Err(Refusal::IsADirectory(path))
        } else if disk_size(bind(e, path, t)) > limit {
            Err(Refusal::NoSpace)
        } else {
            Ok(bind(e, path, t))
        },
    }
}

/// The disk without the file at `path`.
pub open spec fn without_file(d: Disk, path: Seq<char>) -> Result<Disk, Refusal> {
    match lookup(d, path) {
        None => Err(Refusal::NotFound(path)),
        Some(Thing::Directory) => Err(Refusal::IsADirectory(path)),
        Some(_) => Ok(unbind(d, path)),
    }
}

/// Whether `path` is `dir` or stands somewhere below it.
pub open spec fn inside(dir: Seq<char>, path: Seq<char>) -> bool {
    path == dir || dir == "/"@ || starts(path, dir + "/"@)
}

/// The paths at or below `dir`, in order.
pub open spec fn paths_inside(d: Disk, dir: Seq<char>) -> Seq<Seq<char>>
    decreases d.len(),
{
    if d.len() == 0 {
        seq![]
    } else if inside(dir, d.last().0) {
        paths_inside(d.drop_last(), dir).push(d.last().0)
    } else {
        paths_inside(d.drop_last(), dir)
    }
}

/// Whether a directory holds nothing.
pub open spec fn is_vacant(d: Disk, dir: Seq<char>) -> bool {
    forall|i: int| 0 <= i < d.len() ==> (#[trigger] d[i]).0 == dir || !inside(dir, d[i].0)
}

/// The disk without the empty directory at `path`.
pub open spec fn without_dir(d: Disk, path: Seq<char>) -> Result<Disk, Refusal> {
    match lookup(d, path) {
        None => Err(Refusal::NotFound(path)),
        Some(Thing::Directory) => if is_vacant(d, path) {
            Ok(unbind(d, path))
        } else {
            Err(Refusal::NotEmpty(path))
        },
        Some(_) => Err(Refusal::NotADirectory(path)),
    }
}

/// The disk with the file at `from` moved to `to`.
pub open spec fn with_moved(d: Disk, from: Seq<char>, to: Seq<char>) -> Result<Disk, Refusal> {
    match lookup(d, from) {
        None => Err(Refusal::NotFound(from)),
        Some(Thing::Directory) => Err(Refusal::IsADirectory(from)),
        Some(t) => Ok(bind(unbind(d, from), to, t)),
    }
}

/// The disk without the listed paths.
pub open spec fn without_all(d: Disk, paths: Seq<Seq<char>>) -> Disk
    decreases paths.len(),
{
    if paths.len() == 0 {
        d
    } else {
        unbind(without_all(d, paths.drop_last()), paths.last())
    }
}

/// The disk without what stands at `path` and below it.
pub open spec fn without_tree(d: Disk, path: Seq<char>) -> Result<Disk, Refusal> {
    if lookup(d, path) is None {
        Err(Refusal::NotFound(path))
    } else {
        Ok(without_all(d, paths_inside(d, path)))
    }
}

/// One change of a file.
pub enum FileChange {
    PutFile { path: String, bytes: Vec<u8>, mode: u32 },
    PutSymlink { link: String, target: String },
    RemoveFile(String),
}

/// What a change of a file holds.
pub enum Act {
    PutFile { path: Seq<char>, bytes: Seq<u8>, mode: u32 },
    PutSymlink { link: Seq<char>, target: Seq<char> },
    RemoveFile(Seq<char>),
}

impl View for FileChange {
    type V = Act;

    open spec fn view(&self) -> Act {
        match *self {
            FileChange::PutFile { path, bytes, mode } => Act::PutFile {
                path: path@,
                bytes: bytes@,
                mode,
            },
            FileChange::PutSymlink { link, target } => Act::PutSymlink {
                link: link@,
                target: target@,
            },
            FileChange::RemoveFile(path) => Act::RemoveFile(path@),
        }
    }
}

/// What a list of changes holds.
pub open spec fn acts(v: Seq<FileChange>) -> Seq<Act> {
    v.map_values(|c: FileChange| c@)
}

/// Adding a change adds what it holds.
pub broadcast proof fn lemma_acts_push(v: Seq<FileChange>, c: FileChange)
    ensures
        #[trigger] acts(v.push(c)) == acts(v).push(c@),
{
    assert(acts(v.push(c)) =~= acts(v).push(c@));
}

/// The disk after one change.
pub open spec fn after_act(d: Disk, a: Act, limit: nat) -> Result<Disk, Refusal> {
    match a {
        Act::PutFile { path, bytes, mode } => with_thing(
            d,
            path,
            Thing::File { bytes, mode, native: false },
            limit,
        ),
        Act::PutSymlink { link, target } => with_thing(d, link, Thing::Symlink { target }, limit),
        Act::RemoveFile(path) => without_file(d, path),
    }
}

/// The disk after a list of changes, each on top of the one before.
pub open spec fn after_acts(d: Disk, changes: Seq<Act>, limit: nat) -> Result<Disk, Refusal>
    decreases changes.len(),
{
    if changes.len() == 0 {
        Ok(d)
    } else {
        match after_acts(d, changes.drop_last(), limit) {
            Ok(e) => after_act(e, changes.last(), limit),
            Err(r) => Err(r),
        }
    }
}

// ---------------------------------------------------------------------------
// The machine
// ---------------------------------------------------------------------------

/// The machine that commands run on.
pub struct System {
    files: OrdMap<Node>,
    cwd: String,
    environment: OrdMap<String>,
    clock_ms: u64,
    memory_limit: u64,
    memory_used: u64,
    cpu_left: u64,
    disk_limit: u64,
    unsupported: Vec<String>,
}

/// What a machine holds.
#[verifier::ext_equal]
pub struct Machine {
    pub files: Disk,
    pub cwd: Seq<char>,
    pub environment: Seq<(Seq<char>, Seq<char>)>,
    pub clock_ms: u64,
    pub memory_limit: u64,
    pub memory_used: u64,
    pub cpu_left: u64,
    pub disk_limit: u64,
    pub unsupported: Seq<Seq<char>>,
}

impl View for System {
    type V = Machine;

    closed spec fn view(&self) -> Machine {
        Machine {
            files: self.files@,
            cwd: self.cwd@,
            environment: self.environment@,
            clock_ms: self.clock_ms,
            memory_limit: self.memory_limit,
            memory_used: self.memory_used,
            cpu_left: self.cpu_left,
            disk_limit: self.disk_limit,
            unsupported: texts(self.unsupported@),
        }
    }
}

/// The status of a command that a budget stopped.
pub const STOPPED: i32 = 137;

/// The machine after spending `amount` of processor time, and whether there was enough.
pub open spec fn charged(m: Machine, amount: int) -> (bool, Machine) {
    if amount <= m.cpu_left {
        (true, Machine { cpu_left: (m.cpu_left - amount) as u64, ..m })
    } else {
        (false, m)
    }
}

/// The machine after setting `amount` of memory aside, and whether there was enough.
pub open spec fn reserved(m: Machine, amount: int) -> (bool, Machine) {
    if m.memory_used + amount <= m.memory_limit {
        (true, Machine { memory_used: (m.memory_used + amount) as u64, ..m })
    } else {
        (false, m)
    }
}

/// The machine after giving `amount` of memory back.
pub open spec fn released(m: Machine, amount: int) -> Machine {
    Machine {
        memory_used: if amount <= m.memory_used {
            (m.memory_used - amount) as u64
        } else {
            0
        },
        ..m
    }
}

/// The machine with other files.
pub open spec fn with_files(m: Machine, d: Disk) -> Machine {
    Machine { files: d, ..m }
}

/// The machine after a change of its files, and what the change gave.
pub open spec fn settled(m: Machine, r: Result<Disk, Refusal>) -> (Machine, Result<(), Refusal>) {
    match r {
        Ok(d) => (with_files(m, d), Ok(())),
        Err(e) => (m, Err(e)),
    }
}

/// What the result of a change says.
pub open spec fn outcome(r: Result<(), FileError>) -> Result<(), Refusal> {
    match r {
        Ok(()) => Ok(()),
        Err(e) => Err(e@),
    }
}

fn node_size(n: &Node) -> (r: usize)
    ensures
        r == thing_size(n@),
{
    match n {
        Node::File { bytes, .. } => bytes.len(),
        Node::Symlink { target } => chars_of(target.as_str()).len(),
        Node::Directory => 0,
    }
}

/// Whether the files take more than `limit` bytes.
fn oversized(files: &OrdMap<Node>, limit: u64) -> (r: bool)
    ensures
        r == (disk_size(files@) > limit),
{
    let ghost all = files@;
    let mut total: u128 = 0;
    let mut i: usize = 0;
    while i < files.len()
        invariant
            i <= all.len(),
            all == files@,
            total == disk_size(all.take(i as int)),
            total <= i * 0xffff_ffff_ffff_ffff,
        decreases all.len() - i,
    {
        assert(all.take(i + 1).drop_last() =~= all.take(i as int));
        let size = node_size(files.value_at(i));
        assert(i * 0xffff_ffff_ffff_ffff + 0xffff_ffff_ffff_ffff == (i + 1)
            * 0xffff_ffff_ffff_ffff);
        total = total + size as u128;
        i += 1;
    }
    assert(all.take(i as int) =~= all);
    total > limit as u128
}

/// Makes the directories above `path`.
fn make_parents(files: &mut OrdMap<Node>, path: &str) -> (r: Result<(), FileError>)
    ensures
        match r {
            Ok(()) => with_parents(old(files)@, path@) == Ok::<Disk, Refusal>(final(files)@),
            Err(e) => with_parents(old(files)@, path@) == Err::<Disk, Refusal>(e@) && final(files)@ == old(files)@,
        },
    decreases path@.len(),
{
    let above = match parent_of(path) {
        Some(p) => p,
        None => return Ok(()),
    };
    proof {
        lemma_parent_shorter(path@);
    }
    match files.get(above.as_str()) {
        Some(Node::Directory) => return Ok(()),
        Some(_) => return Err(FileError::NotADirectory(above)),
        None => {},
    }
    match make_parents(files, above.as_str()) {
        Ok(()) => {},
        Err(e) => return Err(e),
    }
    files.insert(above, Node::Directory);
    Ok(())
}

/// Puts `node` at `path` on a disk that holds at most `limit` bytes; a refused one may leave the
/// directories above it behind.
fn put_node(files: &mut OrdMap<Node>, path: &str, node: Node, limit: u64) -> (r: Result<
    (),
    FileError,
>)
    ensures
        match r {
            Ok(()) => with_thing(old(files)@, path@, node@, limit as nat) == Ok::<Disk, Refusal>(
                final(files)@,
            ),
            Err(e) => with_thing(old(files)@, path@, node@, limit as nat) == Err::<Disk, Refusal>(
                e@,
            ),
        },
{
    match make_parents(files, path) {
        Ok(()) => {},
        Err(e) => return Err(e),
    }
    if let Some(Node::Directory) = files.get(path) {
        return Err(FileError::IsADirectory(copy_text(path)));
    }
    files.insert(copy_text(path), node);
    if oversized(files, limit) {
        return Err(FileError::NoSpace);
    }
    Ok(())
}

fn remove_node(files: &mut OrdMap<Node>, path: &str) -> (r: Result<(), FileError>)
    ensures
        match r {
            Ok(()) => without_file(old(files)@, path@) == Ok::<Disk, Refusal>(final(files)@),
            Err(e) => without_file(old(files)@, path@) == Err::<Disk, Refusal>(e@) && final(files)@
                == old(files)@,
        },
{
    match files.get(path) {
        None => return Err(FileError::NotFound(copy_text(path))),
        Some(Node::Directory) => return Err(FileError::IsADirectory(copy_text(path))),
        Some(_) => {},
    }
    files.remove(path);
    Ok(())
}

/// Whether `path` is `dir` or stands somewhere below it.
pub fn is_inside(dir: &str, path: &str) -> (r: bool)
    ensures
        r == inside(dir@, path@),
{
    same(path, dir) || same(dir, "/") || starts_with(path, join2(dir, "/").as_str())
}

impl System {
    /// A machine with an empty root directory.
    pub fn new() -> (r: Self)
        ensures
            r@ == (Machine {
                files: bind(seq![], "/"@, Thing::Directory),
                cwd: "/"@,
                environment: seq![],
                clock_ms: 0,
                memory_limit: 0x1000_0000,
                memory_used: 0,
                cpu_left: 0x1000_0000_0000,
                disk_limit: 0x400_0000,
                unsupported: seq![],
            }),
    {
        let mut files: OrdMap<Node> = OrdMap::new();
        files.insert(copy_text("/"), Node::Directory);
        let r = System {
            files,
            cwd: copy_text("/"),
            environment: OrdMap::new(),
            clock_ms: 0,
            memory_limit: 0x1000_0000,
            memory_used: 0,
            cpu_left: 0x1000_0000_0000,
            disk_limit: 0x400_0000,
            unsupported: Vec::new(),
        };
        assert(r@.unsupported =~= seq![]);
        assert(r@.environment =~= seq![]);
        r
    }

    /// This machine with other budgets.
    pub fn with_budgets(self, cpu: u64, memory: u64, disk: u64) -> (r: Self)
        ensures
            r@ == (Machine { cpu_left: cpu, memory_limit: memory, disk_limit: disk, ..self@ }),
    {
        System {
            files: self.files,
            cwd: self.cwd,
            environment: self.environment,
            clock_ms: self.clock_ms,
            memory_limit: memory,
            memory_used: self.memory_used,
            cpu_left: cpu,
            disk_limit: disk,
            unsupported: self.unsupported,
        }
    }

    /// Sets the clock.
    pub fn set_clock(&mut self, ms: u64)
        ensures
            final(self)@ == (Machine { clock_ms: ms, ..old(self)@ }),
    {
        self.clock_ms = ms;
    }

    /// Sets an environment variable.
    pub fn set_variable(&mut self, name: &str, value: &str)
        ensures
            final(self)@ == (Machine {
                environment: bind(old(self)@.environment, name@, value@),
                ..old(self)@
            }),
    {
        self.environment.insert(copy_text(name), copy_text(value));
    }

    /// The working directory.
    pub fn cwd(&self) -> (r: String)
        ensures
            r@ == self@.cwd,
    {
        copy_text(self.cwd.as_str())
    }

    /// The value of an environment variable.
    pub fn variable(&self, name: &str) -> (r: Option<String>)
        ensures
            opt_text(r) == lookup(self@.environment, name@),
    {
        match self.environment.get(name) {
            Some(v) => Some(copy_text(v.as_str())),
            None => None,
        }
    }

    /// The clock.
    pub fn wall_time_ms(&self) -> (r: u64)
        ensures
            r == self@.clock_ms,
    {
        self.clock_ms
    }

    /// The most memory that may be in use.
    pub fn memory_limit(&self) -> (r: u64)
        ensures
            r == self@.memory_limit,
    {
        self.memory_limit
    }

    /// How many files and directories there are.
    pub fn file_count(&self) -> (r: usize)
        ensures
            r == self@.files.len(),
    {
        self.files.len()
    }

    /// Spends processor time.
    pub fn charge_cpu(&mut self, amount: u64) -> (r: bool)
        ensures
            (r, final(self)@) == charged(old(self)@, amount as int),
    {
        if amount <= self.cpu_left {
            self.cpu_left = self.cpu_left - amount;
            true
        } else {
            false
        }
    }

    /// Sets memory aside.
    pub fn reserve_memory(&mut self, amount: u64) -> (r: bool)
        ensures
            (r, final(self)@) == reserved(old(self)@, amount as int),
    {
        if amount <= self.memory_limit && self.memory_used <= self.memory_limit - amount {
            self.memory_used = self.memory_used + amount;
            true
        } else {
            false
        }
    }

    /// How much memory is in use.
    pub fn memory_mark(&self) -> (r: u64)
        ensures
            r == self@.memory_used,
    {
        self.memory_used
    }

    /// Gives back what was set aside since a mark was taken.
    pub fn restore_memory(&mut self, mark: u64)
        ensures
            final(self)@ == (Machine { memory_used: mark, ..old(self)@ }),
    {
        self.memory_used = mark;
    }

    /// Gives memory back.
    pub fn release_memory(&mut self, amount: u64)
        ensures
            final(self)@ == released(old(self)@, amount as int),
    {
        self.memory_used = if amount <= self.memory_used {
            self.memory_used - amount
        } else {
            0
        };
    }

    /// Notes that something was asked for that is not offered.
    pub fn note_unsupported(&mut self, what: &str)
        ensures
            final(self)@ == (Machine {
                unsupported: old(self)@.unsupported.push(what@),
                ..old(self)@
            }),
    {
        broadcast use lemma_texts_push;

        self.unsupported.push(copy_text(what));
    }

    /// The node that `path` leads to, links followed.
    fn find(&self, path: &str) -> (r: Option<&Node>)
        ensures
            match r {
                Some(n) => thing_at(self@.files, path@) == Some(n@),
                None => thing_at(self@.files, path@) is None,
            },
    {
        let mut fuel: usize = MAX_LINKS;
        let mut at = copy_text(path);
        loop
            invariant
                fuel <= MAX_LINKS,
                followed(self.files@, path@, MAX_LINKS as nat) == followed(
                    self.files@,
                    at@,
                    fuel as nat,
                ),
            decreases fuel,
        {
            match self.files.get(at.as_str()) {
                Some(Node::Symlink { target }) => {
                    if fuel == 0 {
                        return None;
                    }
                    let base = match parent_of(at.as_str()) {
                        Some(p) => p,
                        None => copy_text("/"),
                    };
                    at = resolve_against(base.as_str(), target.as_str());
                    fuel -= 1;
                },
                Some(n) => return Some(n),
                None => return None,
            }
        }
    }

    /// Whether a directory stands at `path`.
    pub fn is_dir(&self, path: &str) -> (r: bool)
        ensures
            r == dir_at(self@.files, path@),
    {
        match self.find(path) {
            Some(Node::Directory) => true,
            _ => false,
        }
    }

    /// Whether a file stands at `path`.
    pub fn is_file(&self, path: &str) -> (r: bool)
        ensures
            r == file_at(self@.files, path@),
    {
        match self.find(path) {
            Some(Node::File { .. }) => true,
            _ => false,
        }
    }

    /// Whether anything stands at `path`.
    pub fn path_exists(&self, path: &str) -> (r: bool)
        ensures
            r == (thing_at(self@.files, path@) is Some),
    {
        match self.find(path) {
            Some(_) => true,
            None => false,
        }
    }

    /// The bytes of the file at `path`.
    pub fn read_file(&self, path: &str) -> (r: Option<Vec<u8>>)
        ensures
            match r {
                Some(b) => bytes_at(self@.files, path@) == Some(b@),
                None => bytes_at(self@.files, path@) is None,
            },
    {
        match self.find(path) {
            Some(Node::File { bytes, .. }) => Some(copy_bytes(bytes.as_slice())),
            _ => None,
        }
    }

    /// The node at `path` itself, links not followed.
    pub fn node(&self, path: &str) -> (r: Option<&Node>)
        ensures
            match r {
                Some(n) => lookup(self@.files, path@) == Some(n@),
                None => lookup(self@.files, path@) is None,
            },
    {
        self.files.get(path)
    }

    /// Puts a file at `path`, with the directories above it. A refused write changes nothing.
    pub fn put_file_with_parents(&mut self, path: &str, bytes: Vec<u8>, mode: u32) -> (r: Result<
        (),
        FileError,
    >)
        ensures
            (final(self)@, outcome(r)) == settled(
                old(self)@,
                with_thing(
                    old(self)@.files,
                    path@,
                    Thing::File { bytes: bytes@, mode, native: false },
                    old(self)@.disk_limit as nat,
                ),
            ),
    {
        let mut files = self.files.duplicate();
        let node = Node::File { bytes, mode, native: false };
        match put_node(&mut files, path, node, self.disk_limit) {
            Ok(()) => {
                self.files = files;
                Ok(())
            },
            Err(e) => Err(e),
        }
    }

    /// Removes the file at `path`.
    pub fn unlink(&mut self, path: &str) -> (r: Result<(), FileError>)
        ensures
            (final(self)@, outcome(r)) == settled(
                old(self)@,
                without_file(old(self)@.files, path@),
            ),
    {
        remove_node(&mut self.files, path)
    }

    /// Whether a directory holds nothing.
    pub fn is_vacant(&self, path: &str) -> (r: bool)
        ensures
            r == is_vacant(self@.files, path@),
    {
        let ghost all = self@.files;
        let mut i: usize = 0;
        while i < self.files.len()
            invariant
                i <= all.len(),
                all == self.files@,
                forall|k: int|
                    0 <= k < i ==> (#[trigger] all[k]).0 == path@ || !inside(path@, all[k].0),
            decreases all.len() - i,
        {
            let key = self.files.key_at(i);
            if !same(key, path) && is_inside(path, key) {
                assert(all[i as int].0 != path@ && inside(path@, all[i as int].0));
                return false;
            }
            i += 1;
        }
        true
    }

    /// Removes the empty directory at `path`.
    pub fn rmdir(&mut self, path: &str) -> (r: Result<(), FileError>)
        ensures
            (final(self)@, outcome(r)) == settled(
                old(self)@,
                without_dir(old(self)@.files, path@),
            ),
    {
        match self.files.get(path) {
            None => return Err(FileError::NotFound(copy_text(path))),
            Some(Node::Directory) => {},
            Some(_) => return Err(FileError::NotADirectory(copy_text(path))),
        }
        if !self.is_vacant(path) {
            return Err(FileError::NotEmpty(copy_text(path)));
        }
        self.files.remove(path);
        Ok(())
    }

    /// A copy of all the files.
    pub fn save_files(&self) -> (r: OrdMap<Node>)
        ensures
            r@ == self@.files,
    {
        self.files.duplicate()
    }

    /// Puts all the files back as they were.
    pub fn restore_files(&mut self, files: OrdMap<Node>)
        ensures
            final(self)@ == with_files(old(self)@, files@),
    {
        self.files = files;
    }

    /// Moves the file at `from` to `to`.
    pub fn rename(&mut self, from: &str, to: &str) -> (r: Result<(), FileError>)
        ensures
            (final(self)@, outcome(r)) == settled(
                old(self)@,
                with_moved(old(self)@.files, from@, to@),
            ),
    {
        let node = match self.files.get(from) {
            None => return Err(FileError::NotFound(copy_text(from))),
            Some(Node::Directory) => return Err(FileError::IsADirectory(copy_text(from))),
            Some(n) => n.duplicate(),
        };
        self.files.remove(from);
        self.files.insert(copy_text(to), node);
        Ok(())
    }

    /// Removes what stands at `path` and everything below it.
    pub fn remove_all(&mut self, path: &str) -> (r: Result<(), FileError>)
        ensures
            (final(self)@, outcome(r)) == settled(
                old(self)@,
                without_tree(old(self)@.files, path@),
            ),
    {
        if !self.files.contains_key(path) {
            return Err(FileError::NotFound(copy_text(path)));
        }
        let ghost d = self@.files;
        let ghost start = self@;
        let mut paths: Vec<String> = Vec::new();
        let mut i: usize = 0;
        assert(texts(paths@) =~= seq![]);
        while i < self.files.len()
            invariant
                i <= d.len(),
                d == self.files@,
                self@ == start,
                texts(paths@) == paths_inside(d.take(i as int), path@),
            decreases d.len() - i,
        {
            broadcast use lemma_texts_push;

            assert(d.take(i + 1).drop_last() =~= d.take(i as int));
            let key = self.files.key_at(i);
            if is_inside(path, key) {
                paths.push(copy_text(key));
            }
            i += 1;
        }
        assert(d.take(i as int) =~= d);
        let ghost all = texts(paths@);
        let mut k: usize = 0;
        while k < paths.len()
            invariant
                k <= paths.len(),
                all == texts(paths@),
                self@ == with_files(start, without_all(d, all.take(k as int))),
            decreases paths.len() - k,
        {
            assert(all.take(k + 1).drop_last() =~= all.take(k as int));
            assert(all.take(k + 1).last() == paths@[k as int]@);
            self.files.remove(paths[k].as_str());
            k += 1;
        }
        assert(all.take(k as int) =~= all);
        Ok(())
    }

    /// Makes the directory `path` and those above it.
    pub fn mkdir_all(&mut self, path: &str) -> (r: Result<(), FileError>)
        ensures
            (final(self)@, outcome(r)) == settled(
                old(self)@,
                with_parents(old(self)@.files, path@ + "/."@),
            ),
    {
        make_parents(&mut self.files, join2(path, "/.").as_str())
    }

    /// The paths at or below `path`, in order; none where nothing stands there.
    pub fn walk(&self, path: &str) -> (r: Option<Vec<String>>)
        ensures
            match r {
                Some(v) => lookup(self@.files, path@) is Some && texts(v@) == paths_inside(
                    self@.files,
                    path@,
                ),
                None => lookup(self@.files, path@) is None,
            },
    {
        if self.files.get(path).is_none() {
            return None;
        }
        let ghost all = self@.files;
        let mut out: Vec<String> = Vec::new();
        let mut i: usize = 0;
        assert(texts(out@) =~= seq![]);
        while i < self.files.len()
            invariant
                i <= all.len(),
                all == self.files@,
                texts(out@) == paths_inside(all.take(i as int), path@),
            decreases all.len() - i,
        {
            broadcast use lemma_texts_push;

            assert(all.take(i + 1).drop_last() =~= all.take(i as int));
            let key = self.files.key_at(i);
            if is_inside(path, key) {
                out.push(copy_text(key));
            }
            i += 1;
        }
        assert(all.take(i as int) =~= all);
        Some(out)
    }

    /// Makes a list of changes, all of them or none.
    pub fn apply_file_batch(&mut self, changes: Vec<FileChange>) -> (r: Result<(), FileError>)
        ensures
            (final(self)@, outcome(r)) == settled(
                old(self)@,
                after_acts(old(self)@.files, acts(changes@), old(self)@.disk_limit as nat),
            ),
    {
        let mut files = self.files.duplicate();
        let ghost start = self@.files;
        let ghost all = acts(changes@);
        let limit = self.disk_limit;
        let mut i: usize = 0;
        while i < changes.len()
            invariant
                i <= changes.len(),
                all == acts(changes@),
                start == old(self)@.files,
                self@ == old(self)@,
                limit == self@.disk_limit,
                after_acts(start, all.take(i as int), limit as nat) == Ok::<Disk, Refusal>(files@),
            decreases changes.len() - i,
        {
            assert(all.take(i + 1).drop_last() =~= all.take(i as int));
            assert(all.take(i + 1).last() == changes@[i as int]@);
            let result = match &changes[i] {
                FileChange::PutFile { path, bytes, mode } => put_node(
                    &mut files,
                    path.as_str(),
                    Node::File { bytes: copy_bytes(bytes.as_slice()), mode: *mode, native: false },
                    limit,
                ),
                FileChange::PutSymlink { link, target } => put_node(
                    &mut files,
                    link.as_str(),
                    Node::Symlink { target: copy_text(target.as_str()) },
                    limit,
                ),
                FileChange::RemoveFile(path) => remove_node(&mut files, path.as_str()),
            };
            match result {
                Ok(()) => {},
                Err(e) => {
                    proof {
                        lemma_acts_fail(start, all, i + 1, limit as nat);
                    }
                    return Err(e);
                },
            }
            i += 1;
        }
        assert(all.take(i as int) =~= all);
        self.files = files;
        Ok(())
    }

    /// Changes the working directory.
    pub fn chdir(&mut self, path: &str) -> (r: bool)
        ensures
            r == dir_at(old(self)@.files, path@),
            final(self)@ == (if r {
                Machine { cwd: path@, ..old(self)@ }
            } else {
                old(self)@
            }),
    {
        if self.is_dir(path) {
            self.cwd = copy_text(path);
            true
        } else {
            false
        }
    }

    /// The bytes that all the files take, as far as 64 bits can say.
    pub fn disk_used(&self) -> (r: u64)
        ensures
            r == (if disk_size(self@.files) <= u64::MAX {
                disk_size(self@.files) as u64
            } else {
                u64::MAX
            }),
    {
        let ghost all = self@.files;
        let mut total: u128 = 0;
        let mut i: usize = 0;
        while i < self.files.len()
            invariant
                i <= all.len(),
                all == self.files@,
                total == disk_size(all.take(i as int)),
                total <= i * 0xffff_ffff_ffff_ffff,
            decreases all.len() - i,
        {
            assert(all.take(i + 1).drop_last() =~= all.take(i as int));
            let size = node_size(self.files.value_at(i));
            assert(i * 0xffff_ffff_ffff_ffff + 0xffff_ffff_ffff_ffff == (i + 1)
                * 0xffff_ffff_ffff_ffff);
            total = total + size as u128;
            i += 1;
        }
        assert(all.take(i as int) =~= all);
        if total <= u64::MAX as u128 {
            total as u64
        } else {
            u64::MAX
        }
    }
}

/// Once a change of a list is refused, the whole list is, for the same reason.
proof fn lemma_acts_fail(d: Disk, changes: Seq<Act>, n: int, limit: nat)
    requires
        0 <= n <= changes.len(),
        after_acts(d, changes.take(n), limit) is Err,
    ensures
        after_acts(d, changes, limit) == after_acts(d, changes.take(n), limit),
    decreases changes.len() - n,
{
    if n < changes.len() {
        assert(changes.take(n + 1).drop_last() =~= changes.take(n));
        lemma_acts_fail(d, changes, n + 1, limit);
    } else {
        assert(changes.take(n) =~= changes);
    }
}

} // verus!
