//! `git stash`: setting work aside.

use vstd::prelude::*;
use vstd::utf8::encode_utf8;

use crate::bytes::{bytes_of, decode_lossy, loose_text};
use crate::common::{done, index_or_empty, load_index_or_empty, Snapshot, Trio};
use crate::console::{
    complained, failed, fatal, misused, no_repo, printed, repo_error, usage, Done, Io, Screen,
};
use crate::flags::{expand_clusters, expanded};
use crate::hashes::{sha1_hex, sha1_text};
use crate::moves::{blocking, blocking_changes};
use crate::names::{key_list, overlaid, overlay, same_tree};
use crate::numbers::{decimal, format_u64, format_usize, parse_u64, parse_usize, read_unsigned};
use crate::objects::{short, short_id};
use crate::order::{bind, keys_of, lookup, Duplicate, OrdMap};
use crate::progress::opt_nat;
use crate::repo::{
    blob_stored, branch_of, current_branch, find_repo_root, git_file, git_path, head_commit, head_files, head_id,
    head_tree, index_stored, repo_root, store_index, write_blob, write_vfs, written,
};
use crate::restoring::{subject_at, subject_of_commit};
use crate::status::{frame_all, framed, git_status, status_done};
use crate::system::{bytes_at, Machine, System};
use crate::text::{
    after_prefix, before_suffix, copy_text, first_pieces, join2, join3, join4, join5, lemma_texts_push, line_list,
    lines, opt_text, same, splitn, starts, starts_with, strip_prefix, strip_suffix, texts,
};
use crate::trees::{parse_tree, serialize_tree, tree_bytes, tree_hash, tree_id, tree_of, Files, Tree};
use crate::worktree::{
    collect_working_tree, read_work_file, replace_work_tree, tree_written, update_work_tree, work_content,
    working_tree,
};

verus! {

// ---------------------------------------------------------------------------
// The list of entries
// ---------------------------------------------------------------------------

/// One saved entry.
pub struct Entry {
    pub id: u64,
    pub base: String,
    pub branch: String,
    pub message: String,
}

/// One saved entry.
#[verifier::ext_equal]
pub struct Saved {
    pub id: nat,
    pub base: Seq<char>,
    pub branch: Seq<char>,
    pub message: Seq<char>,
}

impl View for Entry {
    type V = Saved;

    open spec fn view(&self) -> Saved {
        Saved {
            id: self.id as nat,
            base: self.base@,
            branch: self.branch@,
            message: self.message@,
        }
    }
}

/// What a list of entries holds.
pub open spec fn saved(v: Seq<Entry>) -> Seq<Saved> {
    v.map_values(|e: Entry| e@)
}

/// Pushing an entry pushes what it holds.
pub broadcast proof fn lemma_saved_push(v: Seq<Entry>, e: Entry)
    ensures
        #[trigger] saved(v.push(e)) == saved(v).push(e@),
{
    assert(saved(v.push(e)) =~= saved(v).push(e@));
}

/// The entry that a line records.
pub open spec fn entry_in(line: Seq<char>) -> Option<Saved> {
    let v = first_pieces(line, '\t', 4);
    if v.len() < 3 {
        None
    } else {
        match read_unsigned(v[0], u64::MAX as nat) {
            None => None,
            Some(id) => Some(
                Saved {
                    id,
                    base: v[1],
                    branch: v[2],
                    message: if v.len() > 3 {
                        v[3]
                    } else {
                        ""@
                    },
                },
            ),
        }
    }
}

/// The entries that lines record.
pub open spec fn entries_in(v: Seq<Seq<char>>) -> Seq<Saved>
    decreases v.len(),
{
    if v.len() == 0 {
        seq![]
    } else {
        match entry_in(v.last()) {
            Some(e) => entries_in(v.drop_last()).push(e),
            None => entries_in(v.drop_last()),
        }
    }
}

/// The entries that are saved, the newest first.
pub open spec fn entries_of(m: Machine, root: Seq<char>) -> Seq<Saved> {
    match bytes_at(m.files, git_file(root, "stash-list"@)) {
        Some(b) => entries_in(line_list(loose_text(b))),
        None => seq![],
    }
}

/// What reading one entry gave.
pub open spec fn opt_saved(o: Option<Entry>) -> Option<Saved> {
    match o {
        Some(e) => Some(e@),
        None => None,
    }
}

fn read_entry(line: &str) -> (r: Option<Entry>)
    ensures
        opt_saved(r) == entry_in(line@),
{
    let v = splitn(line, '\t', 4);
    let ghost all = texts(v@);
    assert(all.len() == v@.len());
    assert(forall|k: int| 0 <= k < v@.len() ==> all[k] == #[trigger] v@[k]@);
    if v.len() < 3 {
        return None;
    }
    match parse_u64(v[0].as_str()) {
        None => None,
        Some(id) => Some(
            Entry {
                id,
                base: copy_text(v[1].as_str()),
                branch: copy_text(v[2].as_str()),
                message: if v.len() > 3 {
                    copy_text(v[3].as_str())
                } else {
                    copy_text("")
                },
            },
        ),
    }
}

fn load_entries(system: &System, root: &str) -> (r: Vec<Entry>)
    ensures
        saved(r@) == entries_of(system@, root@),
{
    let mut out: Vec<Entry> = Vec::new();
    assert(saved(out@) =~= seq![]);
    match system.read_file(git_path(root, "stash-list").as_str()) {
        None => out,
        Some(bytes) => {
            let v = lines(decode_lossy(bytes.as_slice()).as_str());
            let ghost all = texts(v@);
            let mut i: usize = 0;
            while i < v.len()
                invariant
                    i <= v@.len(),
                    all == texts(v@),
                    saved(out@) == entries_in(all.take(i as int)),
                decreases v@.len() - i,
            {
                broadcast use lemma_saved_push;

                assert(all.take(i + 1).drop_last() =~= all.take(i as int));
                assert(all.take(i + 1).last() == v@[i as int]@);
                if let Some(e) = read_entry(v[i].as_str()) {
                    out.push(e);
                }
                i += 1;
            }
            assert(all.take(i as int) =~= all);
            out
        },
    }
}

/// The line that records an entry.
pub open spec fn entry_line(e: Saved) -> Seq<char> {
    decimal(e.id) + "\t"@ + e.base + "\t"@ + e.branch + "\t"@ + e.message + "\n"@
}

/// The lines that record entries.
pub open spec fn entries_text(v: Seq<Saved>) -> Seq<char>
    decreases v.len(),
{
    if v.len() == 0 {
        ""@
    } else {
        entries_text(v.drop_last()) + entry_line(v.last())
    }
}

/// Storing the list of entries.
pub open spec fn entries_stored(m: Machine, root: Seq<char>, v: Seq<Saved>) -> (Machine, bool) {
    let (n, r) = written(m, git_file(root, "stash-list"@), encode_utf8(entries_text(v)));
    (n, r is Ok)
}

fn store_entries(system: &mut System, root: &str, v: &[Entry]) -> (r: bool)
    ensures
        (final(system)@, r) == entries_stored(old(system)@, root@, saved(v@)),
{
    let ghost all = saved(v@);
    let mut out = copy_text("");
    let mut i: usize = 0;
    while i < v.len()
        invariant
            i <= v@.len(),
            all == saved(v@),
            out@ == entries_text(all.take(i as int)),
        decreases v@.len() - i,
    {
        assert(all.take(i + 1).drop_last() =~= all.take(i as int));
        assert(all.take(i + 1).last() == v@[i as int]@);
        let mut line = join5(
            format_u64(v[i].id).as_str(),
            "\t",
            v[i].base.as_str(),
            "\t",
            v[i].branch.as_str(),
        );
        line.append("\t");
        line.append(v[i].message.as_str());
        line.append("\n");
        out.append(line.as_str());
        i += 1;
    }
    assert(all.take(i as int) =~= all);
    let path = git_path(root, "stash-list");
    write_vfs(system, path.as_str(), bytes_of(out.as_str()).as_slice()).is_ok()
}

/// Where one of the trees of an entry stands.
pub open spec fn saved_tree_file(root: Seq<char>, id: nat, kind: Seq<char>) -> Seq<char> {
    git_file(root, "stash/"@ + decimal(id) + "."@ + kind)
}

fn tree_file(root: &str, id: u64, kind: &str) -> (r: String)
    ensures
        r@ == saved_tree_file(root@, id as nat, kind@),
{
    git_path(root, join4("stash/", format_u64(id).as_str(), ".", kind).as_str())
}

/// One of the trees of an entry.
pub open spec fn saved_tree(m: Machine, root: Seq<char>, id: nat, kind: Seq<char>) -> Option<Files> {
    match bytes_at(m.files, saved_tree_file(root, id, kind)) {
        Some(b) => tree_of(b),
        None => None,
    }
}

fn read_tree(system: &System, root: &str, id: u64, kind: &str) -> (r: Option<Tree>)
    ensures
        crate::repo::opt_tree(r) == saved_tree(system@, root@, id as nat, kind@),
{
    match system.read_file(tree_file(root, id, kind).as_str()) {
        Some(b) => parse_tree(b.as_slice()),
        None => None,
    }
}

/// The highest id of a list of entries.
pub open spec fn highest(v: Seq<Saved>) -> nat
    decreases v.len(),
{
    if v.len() == 0 {
        0
    } else {
        let h = highest(v.drop_last());
        if v.last().id > h {
            v.last().id
        } else {
            h
        }
    }
}

fn find_highest(v: &[Entry]) -> (r: u64)
    ensures
        r == highest(saved(v@)),
{
    let ghost all = saved(v@);
    let mut h: u64 = 0;
    let mut i: usize = 0;
    while i < v.len()
        invariant
            i <= v@.len(),
            all == saved(v@),
            h == highest(all.take(i as int)),
        decreases v@.len() - i,
    {
        assert(all.take(i + 1).drop_last() =~= all.take(i as int));
        assert(all.take(i + 1).last() == v@[i as int]@);
        if v[i].id > h {
            h = v[i].id;
        }
        i += 1;
    }
    assert(all.take(i as int) =~= all);
    h
}

// ---------------------------------------------------------------------------
// Saving
// ---------------------------------------------------------------------------

/// The part of a tree that the index or HEAD holds.
pub open spec fn recorded_part(t: Files, index: Files, head: Files) -> Files
    decreases t.len(),
{
    if t.len() == 0 {
        seq![]
    } else {
        let rest = recorded_part(t.drop_last(), index, head);
        if lookup(index, t.last().0) is Some || lookup(head, t.last().0) is Some {
            bind(rest, t.last().0, t.last().1)
        } else {
            rest
        }
    }
}

fn take_recorded(t: &Tree, index: &Tree, head: &Tree) -> (r: Tree)
    ensures
        r@ == recorded_part(t@, index@, head@),
{
    let ghost all = t@;
    let mut out: Tree = OrdMap::new();
    let mut i: usize = 0;
    assert(out@ =~= seq![]);
    while i < t.len()
        invariant
            i <= all.len(),
            all == t@,
            out@ == recorded_part(all.take(i as int), index@, head@),
        decreases all.len() - i,
    {
        assert(all.take(i + 1).drop_last() =~= all.take(i as int));
        let p = t.key_at(i);
        if index.contains_key(p) || head.contains_key(p) {
            out.insert(copy_text(p), t.value_at(i).duplicate());
        }
        i += 1;
    }
    assert(all.take(i as int) =~= all);
    out
}

/// Storing the content of paths from `i` on, so that it outlives what follows.
pub open spec fn contents_saved(m: Machine, root: Seq<char>, paths: Seq<Seq<char>>, i: int) -> (Machine, bool)
    decreases paths.len() - i,
{
    if i < 0 || i >= paths.len() {
        (m, true)
    } else {
        match work_content(m, root, paths[i]) {
            None => contents_saved(m, root, paths, i + 1),
            Some(data) => match blob_stored(m, root, data) {
                (n, Ok(())) => contents_saved(n, root, paths, i + 1),
                (n, Err(_)) => (n, false),
            },
        }
    }
}

fn save_contents(system: &mut System, root: &str, paths: &[String]) -> (r: bool)
    ensures
        (final(system)@, r) == contents_saved(old(system)@, root@, texts(paths@), 0),
{
    let ghost all = texts(paths@);
    let ghost goal = contents_saved(system@, root@, all, 0);
    let mut i: usize = 0;
    while i < paths.len()
        invariant
            i <= paths@.len(),
            all == texts(paths@),
            goal == contents_saved(old(system)@, root@, all, 0),
            goal == contents_saved(system@, root@, all, i as int),
        decreases paths@.len() - i,
    {
        assert(all.len() == paths@.len());
        assert(all[i as int] == paths@[i as int]@);
        if let Some(data) = read_work_file(system, root, paths[i].as_str()) {
            match write_blob(system, root, data.as_slice()) {
                Ok(_) => {},
                Err(_) => return false,
            }
        }
        i += 1;
    }
    true
}

/// Writing both trees of an entry.
pub open spec fn trees_saved(m: Machine, root: Seq<char>, id: nat, work: Files, index: Files) -> (Machine, bool) {
    match written(m, saved_tree_file(root, id, "work"@), tree_bytes(work)) {
        (n, Err(_)) => (n, false),
        (n, Ok(())) => match written(n, saved_tree_file(root, id, "index"@), tree_bytes(index)) {
            (n2, Err(_)) => (n2, false),
            (n2, Ok(())) => (n2, true),
        },
    }
}

fn save_trees(system: &mut System, root: &str, id: u64, work: &Tree, index: &Tree) -> (r: bool)
    ensures
        (final(system)@, r) == trees_saved(old(system)@, root@, id as nat, work@, index@),
{
    let path = tree_file(root, id, "work");
    match write_vfs(system, path.as_str(), serialize_tree(work).as_slice()) {
        Ok(()) => {},
        Err(_) => return false,
    }
    let path = tree_file(root, id, "index");
    match write_vfs(system, path.as_str(), serialize_tree(index).as_slice()) {
        Ok(()) => true,
        Err(_) => false,
    }
}

/// The message of an entry: what is given, or where it was made.
pub open spec fn stash_message(
    m: Machine,
    root: Seq<char>,
    given: Option<Seq<char>>,
    branch: Seq<char>,
    base: Seq<char>,
) -> Seq<char> {
    match given {
        Some(text) => text,
        None => "WIP on "@ + branch + ": "@ + short_id(base) + " "@ + subject_at(m, root, base),
    }
}

/// Recording an entry and putting the files and the index back to HEAD.
pub open spec fn entry_saved(
    m: Machine,
    s: Screen,
    root: Seq<char>,
    given: Option<Seq<char>>,
    base: Seq<char>,
    t: Trio,
) -> Done {
    let branch = match branch_of(m, root) {
        Some(b) => b,
        None => "HEAD"@,
    };
    let message = stash_message(m, root, given, branch, base);
    let v = entries_of(m, root);
    let id = highest(v) + 1;
    if id > u64::MAX {
        Done { m, s, status: 1 }
    } else {
        let (m1, a) = trees_saved(m, root, id, t.work, t.index);
        let (m2, b) = entries_stored(m1, root, seq![Saved { id, base, branch, message }] + v);
        if !a {
            Done { m: m1, s, status: 1 }
        } else if !b {
            Done { m: m2, s, status: 1 }
        } else {
            match tree_written(
                m2,
                root,
                overlaid(overlaid(t.head, t.index), t.work),
                t.head,
                true,
            ) {
                (m3, Err(e)) => Done {
                    m: m3,
                    s: complained(s, "git stash: "@ + e + "\n"@),
                    status: 1,
                },
                (m3, Ok(())) => match index_stored(m3, root, t.head) {
                    (m4, Err(_)) => Done { m: m4, s, status: 1 },
                    (m4, Ok(())) => Done {
                        m: m4,
                        s: printed(
                            s,
                            "Saved working directory and index state "@ + message + "\n"@,
                        ),
                        status: 0,
                    },
                },
            }
        }
    }
}

fn save_entry(
    system: &mut System,
    root: &str,
    given: &Option<String>,
    base: String,
    t: &Snapshot,
    io: &mut Io,
) -> (r: i32)
    ensures
        done(final(system)@, final(io)@, r) == entry_saved(
            old(system)@,
            old(io)@,
            root@,
            opt_text(*given),
            base@,
            t@,
        ),
{
    let branch = match current_branch(system, root) {
        Some(b) => b,
        None => copy_text("HEAD"),
    };
    let message = match given {
        Some(text) => copy_text(text.as_str()),
        None => {
            let mut out = join5(
                "WIP on ",
                branch.as_str(),
                ": ",
                short(base.as_str()).as_str(),
                " ",
            );
            out.append(subject_of_commit(system, root, base.as_str()).as_str());
            out
        },
    };
    let mut v = load_entries(system, root);
    let top = find_highest(v.as_slice());
    if top == u64::MAX {
        return 1;
    }
    let id: u64 = top + 1;
    if !save_trees(system, root, id, &t.work, &t.index) {
        return 1;
    }
    let ghost before = v@;
    let first = Entry { id, base, branch, message: copy_text(message.as_str()) };
    v.insert(0, first);
    assert(saved(v@) =~= seq![first@] + saved(before));
    if !store_entries(system, root, v.as_slice()) {
        return 1;
    }
    let mut previous = t.head.duplicate();
    overlay(&mut previous, &t.index);
    overlay(&mut previous, &t.work);
    match replace_work_tree(system, root, &previous, &t.head) {
        Ok(()) => {},
        Err(e) => {
            io.print_err(join3("git stash: ", e.as_str(), "\n").as_str());
            return 1;
        },
    }
    match store_index(system, root, &t.head) {
        Ok(()) => {},
        Err(_) => return 1,
    }
    io.print(
        join3("Saved working directory and index state ", message.as_str(), "\n").as_str(),
    );
    0
}

/// `git stash push`.
pub open spec fn stash_pushed(
    m: Machine,
    s: Screen,
    root: Seq<char>,
    given: Option<Seq<char>>,
    include_untracked: bool,
) -> Done {
    match head_id(m, root) {
        None => failed(m, s, "You do not have the initial commit yet"@),
        Some(base) => {
            let index = index_or_empty(m, root);
            let head = head_files(m, root);
            match working_tree(m, root) {
                (n, Err(e)) => Done { m: n, s, status: e },
                (n, Ok(all)) => {
                    let work = if include_untracked {
                        all
                    } else {
                        recorded_part(all, index, head)
                    };
                    if work == head && index == head {
                        Done { m: n, s: printed(s, "No local changes to save\n"@), status: 0 }
                    } else {
                        let (n2, ok) = contents_saved(n, root, keys_of(work), 0);
                        if !ok {
                            Done { m: n2, s, status: 1 }
                        } else {
                            entry_saved(n2, s, root, given, base, Trio { head, index, work })
                        }
                    }
                },
            }
        },
    }
}

fn push(
    system: &mut System,
    root: &str,
    given: &Option<String>,
    include_untracked: bool,
    io: &mut Io,
) -> (r: i32)
    ensures
        done(final(system)@, final(io)@, r) == stash_pushed(
            old(system)@,
            old(io)@,
            root@,
            opt_text(*given),
            include_untracked,
        ),
{
    let base = match head_commit(system, root) {
        Some(id) => id,
        None => return fatal(io, "You do not have the initial commit yet"),
    };
    let index = load_index_or_empty(system, root);
    let head = head_tree(system, root);
    let all = match collect_working_tree(system, root) {
        Ok(t) => t,
        Err(e) => return e,
    };
    let work = if include_untracked {
        all
    } else {
        take_recorded(&all, &index, &head)
    };
    if same_tree(&work, &head) && same_tree(&index, &head) {
        io.print("No local changes to save\n");
        return 0;
    }
    let paths = key_list(&work);
    if !save_contents(system, root, paths.as_slice()) {
        return 1;
    }
    let t = Snapshot { head, index, work };
    save_entry(system, root, given, base, &t, io)
}

// ---------------------------------------------------------------------------
// Listing, applying and dropping
// ---------------------------------------------------------------------------

/// The list of entries as it is shown.
pub open spec fn stash_lines(v: Seq<Saved>) -> Seq<char>
    decreases v.len(),
{
    if v.len() == 0 {
        ""@
    } else {
        stash_lines(v.drop_last()) + ("stash@{"@ + decimal((v.len() - 1) as nat) + "}: "@
            + v.last().message + "\n"@)
    }
}

fn list(system: &System, root: &str) -> (r: String)
    ensures
        r@ == stash_lines(entries_of(system@, root@)),
{
    let v = load_entries(system, root);
    let ghost all = saved(v@);
    let mut out = copy_text("");
    let mut i: usize = 0;
    while i < v.len()
        invariant
            i <= v@.len(),
            all == saved(v@),
            out@ == stash_lines(all.take(i as int)),
        decreases v@.len() - i,
    {
        assert(all.take(i + 1).drop_last() =~= all.take(i as int));
        assert(all.take(i + 1).last() == v@[i as int]@);
        out.append(
            join5(
                "stash@{",
                format_usize(i).as_str(),
                "}: ",
                v[i].message.as_str(),
                "\n",
            ).as_str(),
        );
        i += 1;
    }
    assert(all.take(i as int) =~= all);
    out
}

/// The complaint about an entry that is not there.
pub open spec fn no_entry(m: Machine, s: Screen, position: nat) -> Done {
    failed(m, s, "stash@{"@ + decimal(position) + "} is not a valid reference"@)
}

fn report_no_entry(position: usize, io: &mut Io) -> (r: i32)
    ensures
        forall|m: Machine|
            #![trigger no_entry(m, old(io)@, position as nat)]
            done(m, final(io)@, r) == no_entry(m, old(io)@, position as nat),
{
    fatal(
        io,
        join3(
            "stash@{",
            format_usize(position).as_str(),
            "} is not a valid reference",
        ).as_str(),
    )
}

/// The id of a tree, or nothing.
pub open spec fn tree_name(t: Option<Files>) -> Seq<char> {
    match t {
        Some(t) => tree_id(t),
        None => ""@,
    }
}

fn name_tree(t: &Option<Tree>) -> (r: String)
    ensures
        r@ == tree_name(crate::repo::opt_tree(*t)),
{
    match t {
        Some(t) => tree_hash(t),
        None => copy_text(""),
    }
}

/// What a dropped entry is called. It is derived from the trees that the entry saved.
pub open spec fn stash_identifier(m: Machine, root: Seq<char>, e: Saved) -> Seq<char> {
    sha1_text(
        encode_utf8(
            "stash "@ + e.base + " "@ + tree_name(saved_tree(m, root, e.id, "work"@)) + " "@
                + tree_name(saved_tree(m, root, e.id, "index"@)),
        ),
    )
}

fn identify(system: &System, root: &str, e: &Entry) -> (r: String)
    ensures
        r@ == stash_identifier(system@, root@, e@),
{
    let work = name_tree(&read_tree(system, root, e.id, "work"));
    let index = name_tree(&read_tree(system, root, e.id, "index"));
    let mut text = join5("stash ", e.base.as_str(), " ", work.as_str(), " ");
    text.append(index.as_str());
    sha1_hex(bytes_of(text.as_str()).as_slice())
}

/// `git stash drop`.
pub open spec fn stash_dropped(m: Machine, s: Screen, root: Seq<char>, position: nat) -> Done {
    let v = entries_of(m, root);
    if position >= v.len() {
        no_entry(m, s, position)
    } else {
        let (n, ok) = entries_stored(m, root, v.remove(position as int));
        if !ok {
            Done { m: n, s, status: 1 }
        } else {
            Done {
                m: n,
                s: printed(
                    s,
                    "Dropped refs/stash@{"@ + decimal(position) + "} ("@ + stash_identifier(
                        m,
                        root,
                        v[position as int],
                    ) + ")\n"@,
                ),
                status: 0,
            }
        }
    }
}

fn drop_entry(system: &mut System, root: &str, position: usize, io: &mut Io) -> (r: i32)
    ensures
        done(final(system)@, final(io)@, r) == stash_dropped(
            old(system)@,
            old(io)@,
            root@,
            position as nat,
        ),
{
    let mut v = load_entries(system, root);
    let ghost all = saved(v@);
    assert(all.len() == v@.len());
    if position >= v.len() {
        assert(no_entry(system@, io@, position as nat).m == system@);
        return report_no_entry(position, io);
    }
    assert(all[position as int] == v@[position as int]@);
    let e = v.remove(position);
    assert(saved(v@) =~= all.remove(position as int));
    let name = identify(system, root, &e);
    if !store_entries(system, root, v.as_slice()) {
        return 1;
    }
    io.print(
        join5(
            "Dropped refs/stash@{",
            format_usize(position).as_str(),
            "} (",
            name.as_str(),
            ")\n",
        ).as_str(),
    );
    0
}

/// The paths in which applying an entry would overwrite work.
pub open spec fn stash_blocked(m: Machine, root: Seq<char>, work: Files) -> (Machine, Seq<Seq<char>>) {
    match working_tree(m, root) {
        (n, Err(_)) => (n, seq!["<unreadable working tree>"@]),
        (n, Ok(files)) => (
            n,
            blocking(
                Trio { head: head_files(n, root), index: index_or_empty(m, root), work: files },
                work,
            ),
        ),
    }
}

fn find_blocked(system: &mut System, root: &str, work: &Tree) -> (r: Vec<String>)
    ensures
        (final(system)@, texts(r@)) == stash_blocked(old(system)@, root@, work@),
{
    let index = load_index_or_empty(system, root);
    let files = match collect_working_tree(system, root) {
        Ok(t) => t,
        Err(_) => {
            let mut v: Vec<String> = Vec::new();
            v.push(copy_text("<unreadable working tree>"));
            assert(texts(v@) =~= seq!["<unreadable working tree>"@]);
            return v;
        },
    };
    let head = head_tree(system, root);
    let t = Snapshot { head, index, work: files };
    blocking_changes(&t, work)
}

/// The complaint about work that would be overwritten.
pub open spec fn stash_complaint(v: Seq<Seq<char>>) -> Seq<char> {
    "error: Your local changes to the following files would be overwritten by merge:\n"@ + framed(
        "\t"@,
        v,
        "\n"@,
    ) + "Please commit your changes or stash them before you merge.\nAborting\n"@
}

/// Putting the trees of an entry in place.
pub open spec fn stash_restored(
    m: Machine,
    s: Screen,
    root: Seq<char>,
    work: Files,
    index: Files,
) -> Done {
    let current = head_files(m, root);
    let (n, v) = stash_blocked(m, root, work);
    if v.len() > 0 {
        Done { m: n, s: complained(s, stash_complaint(v)), status: 1 }
    } else {
        match tree_written(n, root, current, work, false) {
            (n2, Err(e)) => Done {
                m: n2,
                s: complained(s, "git stash: "@ + e + "\n"@),
                status: 1,
            },
            (n2, Ok(())) => match index_stored(n2, root, index) {
                (n3, Err(_)) => Done { m: n3, s, status: 1 },
                (n3, Ok(())) => {
                    let d = status_done(n3, s, seq![]);
                    Done { status: 0, ..d }
                },
            },
        }
    }
}

fn restore_stash(system: &mut System, root: &str, work: &Tree, index: &Tree, io: &mut Io) -> (r: i32)
    ensures
        done(final(system)@, final(io)@, r) == stash_restored(
            old(system)@,
            old(io)@,
            root@,
            work@,
            index@,
        ),
{
    let current = head_tree(system, root);
    let v = find_blocked(system, root, work);
    assert(texts(v@).len() == v@.len());
    if v.len() > 0 {
        io.print_err(
            join3(
                "error: Your local changes to the following files would be overwritten by merge:\n",
                frame_all("\t", v.as_slice(), "\n").as_str(),
                "Please commit your changes or stash them before you merge.\nAborting\n",
            ).as_str(),
        );
        return 1;
    }
    match update_work_tree(system, root, &current, work) {
        Ok(()) => {},
        Err(e) => {
            io.print_err(join3("git stash: ", e.as_str(), "\n").as_str());
            return 1;
        },
    }
    match store_index(system, root, index) {
        Ok(()) => {},
        Err(_) => return 1,
    }
    let none: Vec<String> = Vec::new();
    assert(texts(none@) =~= seq![]);
    git_status(system, none.as_slice(), io);
    0
}

/// `git stash apply` and `git stash pop`.
pub open spec fn stash_applied(m: Machine, s: Screen, root: Seq<char>, position: nat, drop_after: bool) -> Done {
    let v = entries_of(m, root);
    if position >= v.len() {
        no_entry(m, s, position)
    } else {
        let e = v[position as int];
        match (saved_tree(m, root, e.id, "work"@), saved_tree(m, root, e.id, "index"@)) {
            (Some(work), Some(index)) => {
                let d = stash_restored(m, s, root, work, index);
                if d.status == 0 && drop_after {
                    stash_dropped(d.m, d.s, root, position)
                } else {
                    d
                }
            },
            _ => failed(m, s, "the stash entry is unreadable"@),
        }
    }
}

fn apply(system: &mut System, root: &str, position: usize, drop_after: bool, io: &mut Io) -> (r: i32)
    ensures
        done(final(system)@, final(io)@, r) == stash_applied(
            old(system)@,
            old(io)@,
            root@,
            position as nat,
            drop_after,
        ),
{
    let v = load_entries(system, root);
    let ghost all = saved(v@);
    assert(all.len() == v@.len());
    if position >= v.len() {
        assert(no_entry(system@, io@, position as nat).m == system@);
        return report_no_entry(position, io);
    }
    assert(all[position as int] == v@[position as int]@);
    let id: u64 = v[position].id;
    match (read_tree(system, root, id, "work"), read_tree(system, root, id, "index")) {
        (Some(work), Some(index)) => {
            let status = restore_stash(system, root, &work, &index, io);
            if status == 0 && drop_after {
                return drop_entry(system, root, position, io);
            }
            status
        },
        _ => fatal(io, "the stash entry is unreadable"),
    }
}

// ---------------------------------------------------------------------------
// git stash
// ---------------------------------------------------------------------------

/// What the arguments of `git stash` ask for.
pub struct StashAsk {
    pub include_untracked: bool,
    pub quiet: bool,
    pub message: Option<String>,
    /// The message comes next.
    pub waiting: bool,
    pub operands: Vec<String>,
}

/// What is asked of `git stash`.
#[verifier::ext_equal]
pub struct StashWish {
    pub include_untracked: bool,
    pub quiet: bool,
    pub message: Option<Seq<char>>,
    pub waiting: bool,
    pub operands: Seq<Seq<char>>,
}

impl View for StashAsk {
    type V = StashWish;

    open spec fn view(&self) -> StashWish {
        StashWish {
            include_untracked: self.include_untracked,
            quiet: self.quiet,
            message: opt_text(self.message),
            waiting: self.waiting,
            operands: texts(self.operands@),
        }
    }
}

/// What `git stash` is asked for without any argument.
pub open spec fn plain_stash() -> StashWish {
    StashWish {
        include_untracked: false,
        quiet: false,
        message: None,
        waiting: false,
        operands: seq![],
    }
}

/// What is asked for once an argument is read.
pub open spec fn stash_argument(x: StashWish, a: Seq<char>) -> Result<StashWish, Seq<char>> {
    if a == "-u"@ || a == "--include-untracked"@ {
        Ok(StashWish { include_untracked: true, ..x })
    } else if a == "-q"@ || a == "--quiet"@ {
        Ok(StashWish { quiet: true, ..x })
    } else if a == "--no-keep-index"@ {
        Ok(x)
    } else if a == "-m"@ || a == "--message"@ {
        Ok(StashWish { waiting: true, ..x })
    } else if starts(a, "-"@) {
        Err("unsupported stash option: "@ + a)
    } else if x.waiting {
        Ok(StashWish { message: Some(a), waiting: false, ..x })
    } else {
        Ok(StashWish { operands: x.operands.push(a), ..x })
    }
}

/// What the arguments from `i` on ask for.
pub open spec fn stash_words(x: StashWish, args: Seq<Seq<char>>, i: int) -> Result<StashWish, Seq<char>>
    decreases args.len() - i,
{
    if i < 0 || i >= args.len() {
        Ok(x)
    } else {
        match stash_argument(x, args[i]) {
            Ok(y) => stash_words(y, args, i + 1),
            Err(e) => Err(e),
        }
    }
}

/// What the words that were read say.
pub open spec fn stash_result(r: Result<StashAsk, String>) -> Result<StashWish, Seq<char>> {
    match r {
        Ok(x) => Ok(x@),
        Err(e) => Err(e@),
    }
}

fn read_stash_argument(x: StashAsk, a: &str) -> (r: Result<StashAsk, String>)
    ensures
        stash_result(r) == stash_argument(x@, a@),
{
    broadcast use lemma_texts_push;

    let mut x = x;
    if same(a, "-u") || same(a, "--include-untracked") {
        x.include_untracked = true;
    } else if same(a, "-q") || same(a, "--quiet") {
        x.quiet = true;
    } else if same(a, "--no-keep-index") {
    } else if same(a, "-m") || same(a, "--message") {
        x.waiting = true;
    } else if starts_with(a, "-") {
        return Err(join2("unsupported stash option: ", a));
    } else if x.waiting {
        x.message = Some(copy_text(a));
        x.waiting = false;
    } else {
        x.operands.push(copy_text(a));
    }
    Ok(x)
}

fn read_stash(args: &[String]) -> (r: Result<StashAsk, String>)
    ensures
        stash_result(r) == stash_words(plain_stash(), texts(args@), 0),
{
    let ghost all = texts(args@);
    let mut x = StashAsk {
        include_untracked: false,
        quiet: false,
        message: None,
        waiting: false,
        operands: Vec::new(),
    };
    assert(x@ =~= plain_stash());
    let ghost goal = stash_words(plain_stash(), all, 0);
    let mut i: usize = 0;
    while i < args.len()
        invariant
            i <= args@.len(),
            all == texts(args@),
            goal == stash_words(plain_stash(), all, 0),
            goal == stash_words(x@, all, i as int),
        decreases args@.len() - i,
    {
        assert(all.len() == args@.len());
        assert(all[i as int] == args@[i as int]@);
        x = match read_stash_argument(x, args[i].as_str()) {
            Ok(y) => y,
            Err(e) => return Err(e),
        };
        i += 1;
    }
    Ok(x)
}

/// The place that an operand names; the newest entry where there is none.
pub open spec fn place_named(v: Seq<Seq<char>>) -> Option<nat> {
    if v.len() < 2 {
        Some(0)
    } else {
        let inner = match after_prefix(v[1], "stash@{"@) {
            Some(rest) => match before_suffix(rest, "}"@) {
                Some(n) => n,
                None => v[1],
            },
            None => v[1],
        };
        read_unsigned(inner, usize::MAX as nat)
    }
}

/// The place that an operand names.
pub fn selector(v: &[String]) -> (r: Option<usize>)
    ensures
        opt_nat(r) == place_named(texts(v@)),
{
    let ghost all = texts(v@);
    assert(all.len() == v@.len());
    if v.len() < 2 {
        return Some(0);
    }
    assert(all[1] == v@[1]@);
    let inner = match strip_prefix(v[1].as_str(), "stash@{") {
        Some(rest) => match strip_suffix(rest.as_str(), "}") {
            Some(n) => n,
            None => copy_text(v[1].as_str()),
        },
        None => copy_text(v[1].as_str()),
    };
    parse_usize(inner.as_str())
}

/// What a command of `git stash` does.
pub open spec fn stash_acted(m: Machine, s: Screen, root: Seq<char>, x: StashWish, command: Seq<char>) -> Done {
    if command == "push"@ || command == "save"@ {
        stash_pushed(m, s, root, x.message, x.include_untracked)
    } else if command == "list"@ {
        Done { m, s: printed(s, stash_lines(entries_of(m, root))), status: 0 }
    } else if command == "pop"@ || command == "apply"@ {
        match place_named(x.operands) {
            Some(n) => stash_applied(m, s, root, n, command == "pop"@),
            None => misused(m, s, "usage: git stash pop [stash@{N}]"@),
        }
    } else if command == "drop"@ {
        match place_named(x.operands) {
            Some(n) => stash_dropped(m, s, root, n),
            None => misused(m, s, "usage: git stash drop [stash@{N}]"@),
        }
    } else if command == "clear"@ {
        let (n, ok) = entries_stored(m, root, seq![]);
        Done {
            m: n,
            s,
            status: if ok {
                0
            } else {
                1
            },
        }
    } else {
        misused(m, s, "unsupported stash command: "@ + command)
    }
}

/// `git stash` in a repository. A quiet command leaves standard output as it was.
pub open spec fn stash_within(m: Machine, s: Screen, root: Seq<char>, x: StashWish) -> Done {
    let command = if x.operands.len() > 0 {
        x.operands[0]
    } else {
        "push"@
    };
    let d = stash_acted(m, s, root, x, command);
    if x.quiet && s.out.len() <= d.s.out.len() {
        Done { s: Screen { out: d.s.out.take(s.out.len() as int), ..d.s }, ..d }
    } else {
        d
    }
}

/// `git stash`.
pub open spec fn stash_done(m: Machine, s: Screen, args: Seq<Seq<char>>) -> Done {
    match repo_root(m) {
        None => no_repo(m, s),
        Some(root) => match stash_words(plain_stash(), expanded(args, "um"@), 0) {
            Err(message) => misused(m, s, message),
            Ok(x) => stash_within(m, s, root, x),
        },
    }
}

fn act_stash(system: &mut System, root: &str, x: &StashAsk, command: &str, io: &mut Io) -> (r: i32)
    ensures
        done(final(system)@, final(io)@, r) == stash_acted(
            old(system)@,
            old(io)@,
            root@,
            x@,
            command@,
        ),
{
    if same(command, "push") || same(command, "save") {
        push(system, root, &x.message, x.include_untracked, io)
    } else if same(command, "list") {
        io.print(list(system, root).as_str());
        0
    } else if same(command, "pop") || same(command, "apply") {
        match selector(x.operands.as_slice()) {
            Some(n) => apply(system, root, n, same(command, "pop"), io),
            None => usage(io, "usage: git stash pop [stash@{N}]"),
        }
    } else if same(command, "drop") {
        match selector(x.operands.as_slice()) {
            Some(n) => drop_entry(system, root, n, io),
            None => usage(io, "usage: git stash drop [stash@{N}]"),
        }
    } else if same(command, "clear") {
        let none: Vec<Entry> = Vec::new();
        assert(saved(none@) =~= seq![]);
        if store_entries(system, root, none.as_slice()) {
            0
        } else {
            1
        }
    } else {
        usage(io, join2("unsupported stash command: ", command).as_str())
    }
}

/// `git stash`: sets work aside.
pub fn git_stash(system: &mut System, args: &[String], io: &mut Io) -> (r: i32)
    ensures
        done(final(system)@, final(io)@, r) == stash_done(old(system)@, old(io)@, texts(args@)),
{
    let root = match find_repo_root(system) {
        Some(root) => root,
        None => return repo_error(io),
    };
    let x = match read_stash(expand_clusters(args, "um").as_slice()) {
        Ok(x) => x,
        Err(message) => return usage(io, message.as_str()),
    };
    assert(x@.operands.len() == x.operands@.len());
    let command = if x.operands.len() > 0 {
        assert(x@.operands[0] == x.operands@[0]@);
        x.operands[0].as_str()
    } else {
        "push"
    };
    let before: usize = io.out.len();
    let status = act_stash(system, root.as_str(), &x, command, io);
    if x.quiet && before <= io.out.len() {
        io.out.truncate(before);
        assert(io@.out =~= io@.out.take(before as int));
    }
    status
}

} // verus!
