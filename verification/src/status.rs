//! The status of the working tree against the index and HEAD.

use vstd::prelude::*;

use crate::common::{covered, done, pathspecs, pathspecs_of, selected, snapshot, trio_read, Snapshot, Trio};
use crate::console::{misused, no_repo, printed, repo_error, usage, Done, Io, Screen};
use crate::history::Names;
use crate::ignore::{ignores, IgnoreRules, Rule};
use crate::names::{add_keys, either, kept, key_list, keys_of_either, opt_record, same_entry, with_keys};
use crate::numbers::pad_right;
use crate::objects::{short, short_id};
use crate::order::{before, bind, keys_of, lemma_bind_keys, less, lookup, OrdMap};
use crate::progress::{replayed_branch, replaying};
use crate::repo::{
    branch_of, current_branch, find_repo_root, head_commit, head_id, relative, relative_path, repo_root,
};
use crate::stages::{
    conflicts_of, in_progress, load_stages, pending_commit, unmerged_code, unmerged_phrase, Conflicts, Sides, Stages,
    Unmerged,
};
use crate::syntax::{flags_for, pass_for, read_words, words_read, Syntax, Want};
use crate::system::{Machine, System};
use crate::text::{
    chars_of, copy_opt, copy_text, cut, join2, join3, join4, lemma_first_piece, lemma_texts_push,
    opt_text, pieces, same, split, split_at, starts, starts_with, texts,
};
use crate::trees::{mode_of, Entry, Files, Record, Tree};
use crate::worktree::{ignore_rules, load_ignores};

verus! {

/// What happened to a path between two trees.
#[derive(Clone, Copy, Debug, PartialEq, Eq, Structural)]
pub enum Change {
    Added,
    Modified,
    Deleted,
    Renamed,
}

/// The letter of a change.
pub open spec fn change_letter(c: Change) -> char {
    match c {
        Change::Added => 'A',
        Change::Modified => 'M',
        Change::Deleted => 'D',
        Change::Renamed => 'R',
    }
}

/// The phrase for a change.
pub open spec fn change_phrase(c: Change) -> Seq<char> {
    match c {
        Change::Added => "new file"@,
        Change::Modified => "modified"@,
        Change::Deleted => "deleted"@,
        Change::Renamed => "renamed"@,
    }
}

impl Change {
    /// The letter that short status prints.
    pub fn porcelain(self) -> (r: char)
        ensures
            r == change_letter(self),
    {
        match self {
            Change::Added => 'A',
            Change::Modified => 'M',
            Change::Deleted => 'D',
            Change::Renamed => 'R',
        }
    }

    /// The phrase that long status prints.
    pub fn label(self) -> (r: &'static str)
        ensures
            r@ == change_phrase(self),
    {
        match self {
            Change::Added => "new file",
            Change::Modified => "modified",
            Change::Deleted => "deleted",
            Change::Renamed => "renamed",
        }
    }
}

/// The staged and unstaged state of one path, and where it came from if it was renamed.
pub struct StatusItem {
    pub path: String,
    pub origin: Option<String>,
    pub staged: Option<Change>,
    pub unstaged: Option<Change>,
}

/// What the state of one path holds.
#[verifier::ext_equal]
pub struct Item {
    pub path: Seq<char>,
    pub origin: Option<Seq<char>>,
    pub staged: Option<Change>,
    pub unstaged: Option<Change>,
}

impl View for StatusItem {
    type V = Item;

    open spec fn view(&self) -> Item {
        Item {
            path: self.path@,
            origin: opt_text(self.origin),
            staged: self.staged,
            unstaged: self.unstaged,
        }
    }
}

/// What a list of states holds.
pub open spec fn items_of(v: Seq<StatusItem>) -> Seq<Item> {
    v.map_values(|x: StatusItem| x@)
}

broadcast proof fn lemma_items_push(v: Seq<StatusItem>, x: StatusItem)
    ensures
        #[trigger] items_of(v.push(x)) == items_of(v).push(x@),
{
    assert(items_of(v.push(x)) =~= items_of(v).push(x@));
}

/// How a path is shown, with the path it came from.
pub open spec fn shown(x: Item) -> Seq<char> {
    match x.origin {
        Some(origin) => origin + " -> "@ + x.path,
        None => x.path,
    }
}

impl StatusItem {
    /// The path as status prints it.
    pub fn display(&self) -> (r: String)
        ensures
            r@ == shown(self@),
    {
        match &self.origin {
            Some(origin) => join3(origin.as_str(), " -> ", self.path.as_str()),
            None => copy_text(self.path.as_str()),
        }
    }
}

// ---------------------------------------------------------------------------
// Comparing the three trees
// ---------------------------------------------------------------------------

/// The change from HEAD to the index.
pub open spec fn staged_change(head: Option<Record>, index: Option<Record>) -> Option<Change> {
    if head is None && index is Some {
        Some(Change::Added)
    } else if head is Some && index is None {
        Some(Change::Deleted)
    } else if head != index {
        Some(Change::Modified)
    } else {
        None
    }
}

/// The change from the index to the working tree. A path that the index does not track is untracked.
pub open spec fn unstaged_change(index: Option<Record>, work: Option<Record>) -> Option<Change> {
    if index is None {
        None
    } else if work is None {
        Some(Change::Deleted)
    } else if index != work {
        Some(Change::Modified)
    } else {
        None
    }
}

/// The state of one path.
pub open spec fn item_at(t: Trio, path: Seq<char>) -> Item {
    Item {
        path,
        origin: None,
        staged: staged_change(lookup(t.head, path), lookup(t.index, path)),
        unstaged: unstaged_change(lookup(t.index, path), lookup(t.work, path)),
    }
}

/// The states of the paths that differ somewhere.
pub open spec fn items_among(t: Trio, names: Names) -> Seq<Item>
    decreases names.len(),
{
    if names.len() == 0 {
        seq![]
    } else {
        let head = items_among(t, names.drop_last());
        let x = item_at(t, names.last().0);
        if x.staged is None && x.unstaged is None {
            head
        } else {
            head.push(x)
        }
    }
}

/// Whether an entry holds the given content.
pub open spec fn holds_content(r: Option<Record>, hash: Seq<char>) -> bool {
    match r {
        Some(e) => e.hash == hash,
        None => false,
    }
}

/// The first item from `i` on that was staged as new with the given content and is not yet taken.
pub open spec fn rename_target(v: Seq<Item>, index: Files, r: Record, i: int) -> Option<int>
    decreases v.len() - i,
{
    if i < 0 || i >= v.len() {
        None
    } else if v[i].staged == Some(Change::Added) && v[i].origin is None && holds_content(
        lookup(index, v[i].path),
        r.hash,
    ) {
        Some(i)
    } else {
        rename_target(v, index, r, i + 1)
    }
}

/// The items once the deletions among the first `k` are paired with additions of the same content,
/// and which of the items were used up.
pub open spec fn paired(v: Seq<Item>, head: Files, index: Files, k: int) -> (Seq<Item>, Seq<bool>)
    decreases k,
{
    if k <= 0 {
        (v, Seq::new(v.len(), |i: int| false))
    } else {
        let (w, gone) = paired(v, head, index, k - 1);
        let x = v[k - 1];
        match lookup(head, x.path) {
            Some(r) => match rename_target(w, index, r, 0) {
                Some(t) => if x.staged == Some(Change::Deleted) {
                    (
                        w.update(
                            t,
                            Item {
                                staged: Some(Change::Renamed),
                                origin: Some(x.path),
                                ..w[t]
                            },
                        ),
                        gone.update(k - 1, true),
                    )
                } else {
                    (w, gone)
                },
                None => (w, gone),
            },
            None => (w, gone),
        }
    }
}

/// The items that were not used up.
pub open spec fn left_over(v: Seq<Item>, gone: Seq<bool>) -> Seq<Item>
    decreases v.len(),
{
    if v.len() == 0 {
        seq![]
    } else if gone[v.len() - 1] {
        left_over(v.drop_last(), gone)
    } else {
        left_over(v.drop_last(), gone).push(v.last())
    }
}

/// The items with a staged deletion and a staged addition of the same entry folded into a rename.
pub open spec fn with_renames(v: Seq<Item>, head: Files, index: Files) -> Seq<Item> {
    let (w, gone) = paired(v, head, index, v.len() as int);
    left_over(w, gone)
}

/// The states of all paths that differ between HEAD, the index and the working tree.
pub open spec fn classified(t: Trio) -> Seq<Item> {
    with_renames(items_among(t, with_keys(either(t.head, t.index), t.work)), t.head, t.index)
}

fn staged_of(head: Option<&Entry>, index: Option<&Entry>) -> (r: Option<Change>)
    ensures
        r == staged_change(opt_record(head), opt_record(index)),
{
    if head.is_none() && index.is_some() {
        Some(Change::Added)
    } else if head.is_some() && index.is_none() {
        Some(Change::Deleted)
    } else if !same_entry(head, index) {
        Some(Change::Modified)
    } else {
        None
    }
}

fn unstaged_of(index: Option<&Entry>, work: Option<&Entry>) -> (r: Option<Change>)
    ensures
        r == unstaged_change(opt_record(index), opt_record(work)),
{
    if index.is_none() {
        None
    } else if work.is_none() {
        Some(Change::Deleted)
    } else if !same_entry(index, work) {
        Some(Change::Modified)
    } else {
        None
    }
}

fn is_change(c: Option<Change>, d: Change) -> (r: bool)
    ensures
        r == (c == Some(d)),
{
    match c {
        Some(x) => x == d,
        None => false,
    }
}

fn find_target(v: &Vec<StatusItem>, index: &Tree, e: &Entry) -> (r: Option<usize>)
    ensures
        match r {
            Some(t) => rename_target(items_of(v@), index@, e@, 0) == Some(t as int) && t < v@.len(),
            None => rename_target(items_of(v@), index@, e@, 0) is None,
        },
{
    let ghost all = items_of(v@);
    let mut i: usize = 0;
    while i < v.len()
        invariant
            i <= v.len(),
            all == items_of(v@),
            rename_target(all, index@, e@, 0) == rename_target(all, index@, e@, i as int),
        decreases v.len() - i,
    {
        assert(all[i as int] == v@[i as int]@);
        let alike = match index.get(v[i].path.as_str()) {
            Some(x) => same(x.hash.as_str(), e.hash.as_str()),
            None => false,
        };
        if is_change(v[i].staged, Change::Added) && v[i].origin.is_none() && alike {
            return Some(i);
        }
        i += 1;
    }
    None
}

fn copy_item(x: &StatusItem) -> (r: StatusItem)
    ensures
        r@ == x@,
{
    StatusItem {
        path: copy_text(x.path.as_str()),
        origin: copy_opt(&x.origin),
        staged: x.staged,
        unstaged: x.unstaged,
    }
}

/// What renaming leaves of an item that is no addition.
proof fn lemma_paired(v: Seq<Item>, head: Files, index: Files, k: int)
    requires
        0 <= k <= v.len(),
    ensures
        paired(v, head, index, k).0.len() == v.len(),
        paired(v, head, index, k).1.len() == v.len(),
        forall|i: int|
            0 <= i < v.len() && v[i].staged != Some(Change::Added) ==> #[trigger] paired(
                v,
                head,
                index,
                k,
            ).0[i] == v[i],
        forall|i: int|
            0 <= i < v.len() && v[i].staged == Some(Change::Added) ==> (#[trigger] paired(
                v,
                head,
                index,
                k,
            ).0[i]).staged == Some(Change::Added) || paired(v, head, index, k).0[i].staged == Some(
                Change::Renamed,
            ),
    decreases k,
{
    if k > 0 {
        lemma_paired(v, head, index, k - 1);
        let (w, gone) = paired(v, head, index, k - 1);
        let x = v[k - 1];
        if let Some(r) = lookup(head, x.path) {
            lemma_target(w, index, r, 0);
        }
    }
}

proof fn lemma_target(v: Seq<Item>, index: Files, r: Record, i: int)
    requires
        0 <= i,
    ensures
        match rename_target(v, index, r, i) {
            Some(t) => i <= t < v.len() && v[t].staged == Some(Change::Added),
            None => true,
        },
    decreases v.len() - i,
{
    if i < v.len() {
        lemma_target(v, index, r, i + 1);
    }
}

/// Folds a staged deletion and a staged addition of identical content into one rename.
fn pair_renames(items: Vec<StatusItem>, head: &Tree, index: &Tree) -> (r: Vec<StatusItem>)
    ensures
        items_of(r@) == with_renames(items_of(items@), head@, index@),
{
    let ghost v = items_of(items@);
    let n: usize = items.len();
    let mut work = items;
    let mut gone: Vec<bool> = Vec::new();
    let mut j: usize = 0;
    while j < n
        invariant
            j <= n,
            gone@ == Seq::new(j as nat, |i: int| false),
        decreases n - j,
    {
        gone.push(false);
        assert(gone@ =~= Seq::new((j + 1) as nat, |i: int| false));
        j += 1;
    }
    let mut k: usize = 0;
    while k < n
        invariant
            k <= n,
            n == v.len(),
            work@.len() == n,
            gone@.len() == n,
            (items_of(work@), gone@) == paired(v, head@, index@, k as int),
        decreases n - k,
    {
        proof {
            lemma_paired(v, head@, index@, k as int);
        }
        assert(items_of(work@)[k as int] == work@[k as int]@);
        if is_change(work[k].staged, Change::Deleted) {
            assert(v[k as int].staged == Some(Change::Deleted)) by {
                if v[k as int].staged == Some(Change::Added) {
                    assert(paired(v, head@, index@, k as int).0[k as int].staged is Some);
                }
            }
            if let Some(e) = head.get(work[k].path.as_str()) {
                if let Some(t) = find_target(&work, index, e) {
                    let fresh = StatusItem {
                        path: copy_text(work[t].path.as_str()),
                        origin: Some(copy_text(work[k].path.as_str())),
                        staged: Some(Change::Renamed),
                        unstaged: work[t].unstaged,
                    };
                    let ghost w = items_of(work@);
                    work.set(t, fresh);
                    assert(items_of(work@) =~= w.update(t as int, fresh@));
                    assert(w[t as int] == w[t as int]);
                    gone.set(k, true);
                }
            }
        } else {
            assert(v[k as int].staged != Some(Change::Deleted));
        }
        k += 1;
    }
    proof {
        lemma_paired(v, head@, index@, n as int);
    }
    let ghost w = items_of(work@);
    let mut out: Vec<StatusItem> = Vec::new();
    let mut i: usize = 0;
    assert(items_of(out@) =~= seq![]);
    while i < n
        invariant
            i <= n,
            n == w.len(),
            work@.len() == n,
            gone@.len() == n,
            w == items_of(work@),
            items_of(out@) == left_over(w.take(i as int), gone@),
        decreases n - i,
    {
        broadcast use lemma_items_push;

        assert(w.take(i + 1).drop_last() =~= w.take(i as int));
        assert(w.take(i + 1).last() == work@[i as int]@);
        if !gone[i] {
            out.push(copy_item(&work[i]));
        }
        i += 1;
    }
    assert(w.take(n as int) =~= w);
    out
}

/// Compares HEAD, the index and the working tree, and pairs exact renames.
pub fn classify(snapshot: &Snapshot) -> (r: Vec<StatusItem>)
    ensures
        items_of(r@) == classified(snapshot@),
{
    let mut names = keys_of_either(&snapshot.head, &snapshot.index);
    add_keys(&mut names, &snapshot.work);
    let ghost t = snapshot@;
    let ghost all = names@;
    let mut out: Vec<StatusItem> = Vec::new();
    let mut i: usize = 0;
    assert(items_of(out@) =~= seq![]);
    while i < names.len()
        invariant
            i <= all.len(),
            all == names@,
            t == snapshot@,
            items_of(out@) == items_among(t, all.take(i as int)),
        decreases all.len() - i,
    {
        broadcast use lemma_items_push;

        assert(all.take(i + 1).drop_last() =~= all.take(i as int));
        let path = names.key_at(i);
        let staged = staged_of(snapshot.head.get(path), snapshot.index.get(path));
        let unstaged = unstaged_of(snapshot.index.get(path), snapshot.work.get(path));
        if staged.is_some() || unstaged.is_some() {
            let x = StatusItem { path: copy_text(path), origin: None, staged, unstaged };
            assert(x@ == item_at(t, path@));
            out.push(x);
        }
        i += 1;
    }
    assert(all.take(i as int) =~= all);
    pair_renames(out, &snapshot.head, &snapshot.index)
}

// ---------------------------------------------------------------------------
// Untracked files
// ---------------------------------------------------------------------------

/// Whether some path of a tree starts with `prefix`.
pub open spec fn holds_below(t: Files, prefix: Seq<char>) -> bool {
    exists|i: int| 0 <= i < t.len() && starts(#[trigger] t[i].0, prefix)
}

/// The first directory from the `i`th component on that holds nothing tracked; the path itself where
/// there is none.
pub open spec fn collapsed_at(
    t: Files,
    path: Seq<char>,
    components: Seq<Seq<char>>,
    i: int,
    prefix: Seq<char>,
) -> Seq<char>
    decreases components.len() - i,
{
    if i < 0 || i + 1 >= components.len() {
        path
    } else {
        let next = prefix + components[i] + "/"@;
        if !holds_below(t, next) {
            next
        } else {
            collapsed_at(t, path, components, i + 1, next)
        }
    }
}

/// How an untracked path is listed: by the outermost directory that holds nothing tracked.
pub open spec fn collapsed(t: Files, path: Seq<char>) -> Seq<char> {
    collapsed_at(t, path, pieces(path, '/'), 0, ""@)
}

/// How untracked paths are listed, in order and each once.
pub open spec fn all_collapsed(t: Files, paths: Seq<Seq<char>>) -> Names
    decreases paths.len(),
{
    if paths.len() == 0 {
        seq![]
    } else {
        bind(all_collapsed(t, paths.drop_last()), collapsed(t, paths.last()), ())
    }
}

proof fn lemma_collapsed_at(
    t: Files,
    path: Seq<char>,
    components: Seq<Seq<char>>,
    i: int,
    start: int,
) -> (k: int)
    requires
        0 <= i < components.len(),
        0 <= start <= path.len(),
        components.subrange(i, components.len() as int) == split_at(path, '/', start, start),
    ensures
        ({
            let r = collapsed_at(t, path, components, i, path.take(start));
            r == path || (0 < k <= path.len() && r == path.take(k) && path[k - 1] == '/' && !holds_below(
                t,
                r,
            ))
        }),
    decreases components.len() - i,
{
    let rest = components.subrange(i, components.len() as int);
    let end = lemma_first_piece(path, '/', start, start);
    if i + 1 >= components.len() {
        0
    } else {
        reveal_strlit("/");
        let more = split_at(path, '/', end + 1, end + 1);
        assert(rest[0] == components[i]);
        assert(rest[0] == path.subrange(start, end));
        assert(path.take(start) + components[i] + "/"@ =~= path.take(end + 1));
        assert(components.subrange(i + 1, components.len() as int) =~= rest.subrange(1, rest.len() as int));
        assert(rest.subrange(1, rest.len() as int) =~= more);
        if !holds_below(t, path.take(end + 1)) {
            end + 1
        } else {
            lemma_collapsed_at(t, path, components, i + 1, end + 1)
        }
    }
}

/// An untracked path is listed as it is, or by a directory above it that holds nothing tracked.
pub proof fn lemma_collapsed(t: Files, path: Seq<char>) -> (k: int)
    ensures
        collapsed(t, path) == path || (0 < k <= path.len() && collapsed(t, path) == path.take(k)
            && path[k - 1] == '/' && !holds_below(t, path.take(k))),
{
    let components = pieces(path, '/');
    let end = lemma_first_piece(path, '/', 0, 0);
    reveal_strlit("");
    assert(path.take(0) =~= ""@);
    assert(components.subrange(0, components.len() as int) =~= components);
    lemma_collapsed_at(t, path, components, 0, 0)
}

/// Every entry of the list stands for one of the paths.
pub proof fn lemma_all_collapsed(t: Files, paths: Seq<Seq<char>>, entry: Seq<char>) -> (j: int)
    requires
        keys_of(all_collapsed(t, paths)).contains(entry),
    ensures
        0 <= j < paths.len(),
        collapsed(t, paths[j]) == entry,
    decreases paths.len(),
{
    let all = all_collapsed(t, paths);
    let i = choose|i: int| 0 <= i < keys_of(all).len() && keys_of(all)[i] == entry;
    let less = all_collapsed(t, paths.drop_last());
    lemma_bind_keys(less, collapsed(t, paths.last()), (), i);
    if all[i].0 == collapsed(t, paths.last()) {
        paths.len() - 1
    } else {
        let j = choose|j: int| 0 <= j < less.len() && all[i] == less[j];
        assert(keys_of(less)[j] == entry);
        lemma_all_collapsed(t, paths.drop_last(), entry)
    }
}

fn tracks_below(tree: &Tree, prefix: &str) -> (r: bool)
    ensures
        r == holds_below(tree@, prefix@),
{
    let ghost t = tree@;
    let mut i: usize = 0;
    while i < tree.len()
        invariant
            i <= t.len(),
            t == tree@,
            forall|k: int| 0 <= k < i ==> !starts(#[trigger] t[k].0, prefix@),
        decreases t.len() - i,
    {
        if starts_with(tree.key_at(i), prefix) {
            return true;
        }
        i += 1;
    }
    false
}

fn collapsed_form(index: &Tree, path: &str) -> (r: String)
    ensures
        r@ == collapsed(index@, path@),
{
    let components = split(path, '/');
    let ghost parts = pieces(path@, '/');
    let mut prefix = copy_text("");
    let mut i: usize = 0;
    while i < components.len() && i + 1 < components.len()
        invariant
            i <= components.len(),
            texts(components@) == parts,
            parts == pieces(path@, '/'),
            collapsed(index@, path@) == collapsed_at(index@, path@, parts, i as int, prefix@),
        decreases components.len() - i,
    {
        assert(parts[i as int] == components@[i as int]@);
        prefix.append(components[i].as_str());
        prefix.append("/");
        if !tracks_below(index, prefix.as_str()) {
            return prefix;
        }
        i += 1;
    }
    copy_text(path)
}

/// Replaces untracked paths by the directories that hold nothing tracked.
pub fn collapse_untracked(index: &Tree, untracked: &[String]) -> (r: Vec<String>)
    ensures
        texts(r@) == keys_of(all_collapsed(index@, texts(untracked@))),
{
    let ghost all = texts(untracked@);
    let mut out: OrdMap<()> = OrdMap::new();
    let mut i: usize = 0;
    assert(out@ =~= seq![]);
    while i < untracked.len()
        invariant
            i <= untracked.len(),
            all == texts(untracked@),
            out@ == all_collapsed(index@, all.take(i as int)),
        decreases untracked.len() - i,
    {
        assert(all.take(i + 1).drop_last() =~= all.take(i as int));
        assert(all.take(i + 1).last() == untracked@[i as int]@);
        out.insert(collapsed_form(index, untracked[i].as_str()), ());
        i += 1;
    }
    assert(all.take(i as int) =~= all);
    key_list(&out)
}

// ---------------------------------------------------------------------------
// Paths as seen from the working directory
// ---------------------------------------------------------------------------

/// One `../` for each `/` in `prefix`.
pub open spec fn climb(prefix: Seq<char>) -> Seq<char>
    decreases prefix.len(),
{
    if prefix.len() == 0 {
        ""@
    } else if prefix.last() == '/' {
        climb(prefix.drop_last()) + "../"@
    } else {
        climb(prefix.drop_last())
    }
}

/// How much of the first `k` characters of `prefix` is a directory that `path` lies in as well.
pub open spec fn shared_directory(prefix: Seq<char>, path: Seq<char>, k: int) -> int
    decreases k,
{
    if k <= 0 {
        0
    } else if k <= path.len() && prefix[k - 1] == '/' && prefix.take(k) == path.take(k) {
        k
    } else {
        shared_directory(prefix, path, k - 1)
    }
}

/// A path below the root as it is seen from the directory `prefix` below the root: up to the last
/// directory that both lie in, and down from there.
pub open spec fn seen_from(prefix: Seq<char>, path: Seq<char>) -> Seq<char> {
    let k = shared_directory(prefix, path, prefix.len() as int);
    climb(prefix.skip(k)) + path.skip(k)
}

fn find_shared(prefix: &[char], path: &[char]) -> (r: usize)
    ensures
        r == shared_directory(prefix@, path@, prefix@.len() as int),
        r <= prefix@.len(),
        r <= path@.len(),
{
    let mut best: usize = 0;
    let mut alike = true;
    let mut i: usize = 0;
    assert(prefix@.take(0) =~= path@.take(0));
    while i < prefix.len()
        invariant
            i <= prefix@.len(),
            alike == (i <= path@.len() && prefix@.take(i as int) == path@.take(i as int)),
            best == shared_directory(prefix@, path@, i as int),
            best <= i,
            best <= path@.len(),
        decreases prefix@.len() - i,
    {
        alike = alike && i < path.len() && prefix[i] == path[i];
        proof {
            let a = prefix@.take(i + 1);
            let b = path@.take(i + 1);
            assert(a.drop_last() =~= prefix@.take(i as int));
            assert(a.last() == prefix@[i as int]);
            if i < path@.len() {
                assert(b.drop_last() =~= path@.take(i as int));
                assert(b.last() == path@[i as int]);
                if alike {
                    assert(a =~= b);
                }
            }
        }
        i += 1;
        if alike && prefix[i - 1] == '/' {
            best = i;
        }
    }
    best
}

fn climb_text(prefix: &str) -> (r: String)
    ensures
        r@ == climb(prefix@),
{
    let cs = chars_of(prefix);
    let ghost all = prefix@;
    let mut out = copy_text("");
    let mut i: usize = 0;
    while i < cs.len()
        invariant
            i <= cs.len(),
            cs@ == all,
            out@ == climb(all.take(i as int)),
        decreases cs.len() - i,
    {
        assert(all.take(i + 1).drop_last() =~= all.take(i as int));
        if cs[i] == '/' {
            out.append("../");
        }
        i += 1;
    }
    assert(all.take(i as int) =~= all);
    out
}

/// A path below the root as it is seen from the directory `prefix` below the root.
pub fn displayed_path(prefix: &str, path: &str) -> (r: String)
    ensures
        r@ == seen_from(prefix@, path@),
{
    let from = chars_of(prefix);
    let to = chars_of(path);
    let k = find_shared(from.as_slice(), to.as_slice());
    let up = cut(from.as_slice(), k, from.len());
    let down = cut(to.as_slice(), k, to.len());
    assert(up@ =~= prefix@.skip(k as int));
    assert(down@ =~= path@.skip(k as int));
    join2(climb_text(up.as_str()).as_str(), down.as_str())
}

/// The working directory below the root, with a `/` behind it; empty at the root.
pub open spec fn cwd_prefix(root: Seq<char>, cwd: Seq<char>) -> Seq<char> {
    match relative(root, cwd) {
        Some(r) => r + "/"@,
        None => ""@,
    }
}

fn prefix_of_cwd(root: &str, cwd: &str) -> (r: String)
    ensures
        r@ == cwd_prefix(root@, cwd@),
{
    match relative_path(root, cwd) {
        Some(r) => join2(r.as_str(), "/"),
        None => copy_text(""),
    }
}

// ---------------------------------------------------------------------------
// The report
// ---------------------------------------------------------------------------

/// The untracked files that are reported.
#[derive(Clone, Copy, PartialEq, Eq, Structural)]
pub enum Untracked {
    Normal,
    All,
    No,
}

/// What the options of `git status` ask for.
#[derive(Clone, Copy)]
pub struct StatusAsk {
    pub short: bool,
    pub version_two: bool,
    pub branch_header: bool,
    pub untracked: Untracked,
    pub show_ignored: bool,
    pub nul: bool,
}

impl View for StatusAsk {
    type V = StatusAsk;

    open spec fn view(&self) -> StatusAsk {
        *self
    }
}

/// What `git status` reports without any option.
pub open spec fn plain_status() -> StatusAsk {
    StatusAsk {
        short: false,
        version_two: false,
        branch_header: false,
        untracked: Untracked::Normal,
        show_ignored: false,
        nul: false,
    }
}

impl Syntax for StatusAsk {
    open spec fn wants(name: Seq<char>) -> Want {
        Want::Attached
    }

    open spec fn with(asked: StatusAsk, name: Seq<char>, value: Option<Seq<char>>) -> Result<
        StatusAsk,
        Seq<char>,
    > {
        if name == "-s"@ || name == "--short"@ {
            Ok(StatusAsk { short: true, ..asked })
        } else if name == "--porcelain"@ {
            match value {
                None => Ok(StatusAsk { short: true, ..asked }),
                Some(v) => if v == "v1"@ {
                    Ok(StatusAsk { short: true, ..asked })
                } else if v == "v2"@ {
                    Ok(StatusAsk { version_two: true, ..asked })
                } else {
                    Err("unsupported porcelain format: "@ + v)
                },
            }
        } else if name == "-b"@ || name == "--branch"@ {
            Ok(StatusAsk { branch_header: true, ..asked })
        } else if name == "-z"@ {
            Ok(StatusAsk { nul: true, short: true, ..asked })
        } else if name == "-u"@ || name == "--untracked-files"@ {
            match value {
                None => Ok(StatusAsk { untracked: Untracked::Normal, ..asked }),
                Some(v) => if v == "normal"@ {
                    Ok(StatusAsk { untracked: Untracked::Normal, ..asked })
                } else if v == "no"@ {
                    Ok(StatusAsk { untracked: Untracked::No, ..asked })
                } else if v == "all"@ {
                    Ok(StatusAsk { untracked: Untracked::All, ..asked })
                } else {
                    Err("unsupported untracked-files mode: "@ + v)
                },
            }
        } else if name == "--ignored"@ {
            Ok(StatusAsk { show_ignored: true, ..asked })
        } else if name == "--long"@ {
            Ok(StatusAsk { short: false, ..asked })
        } else if name == "--no-column"@ || name == "--no-renames"@ || name == "--no-color"@ || name
            == "--ahead-behind"@ {
            Ok(asked)
        } else {
            Err("unsupported status option: "@ + name)
        }
    }

    fn wanted(name: &str) -> (r: Want) {
        Want::Attached
    }

    fn apply(&mut self, name: &str, value: Option<String>) -> (r: Result<(), String>) {
        if same(name, "-s") || same(name, "--short") {
            self.short = true;
        } else if same(name, "--porcelain") {
            match value {
                None => self.short = true,
                Some(v) => if same(v.as_str(), "v1") {
                    self.short = true;
                } else if same(v.as_str(), "v2") {
                    self.version_two = true;
                } else {
                    return Err(join2("unsupported porcelain format: ", v.as_str()));
                },
            }
        } else if same(name, "-b") || same(name, "--branch") {
            self.branch_header = true;
        } else if same(name, "-z") {
            self.nul = true;
            self.short = true;
        } else if same(name, "-u") || same(name, "--untracked-files") {
            match value {
                None => self.untracked = Untracked::Normal,
                Some(v) => if same(v.as_str(), "normal") {
                    self.untracked = Untracked::Normal;
                } else if same(v.as_str(), "no") {
                    self.untracked = Untracked::No;
                } else if same(v.as_str(), "all") {
                    self.untracked = Untracked::All;
                } else {
                    return Err(join2("unsupported untracked-files mode: ", v.as_str()));
                },
            }
        } else if same(name, "--ignored") {
            self.show_ignored = true;
        } else if same(name, "--long") {
            self.short = false;
        } else if same(name, "--no-column") || same(name, "--no-renames") || same(
            name,
            "--no-color",
        ) || same(name, "--ahead-behind") {
        } else {
            return Err(join2("unsupported status option: ", name));
        }
        Ok(())
    }
}

/// Everything that the three formats print.
pub struct Report {
    pub branch: Option<String>,
    pub head: Option<String>,
    pub items: Vec<StatusItem>,
    /// The name of each item below the root.
    pub named: Vec<String>,
    pub untracked: Vec<String>,
    pub ignored: Vec<String>,
    pub unmerged: Vec<(String, Unmerged)>,
    pub trees: Snapshot,
    pub asked: StatusAsk,
}

/// What a report holds.
#[verifier::ext_equal]
pub struct Summary {
    pub branch: Option<Seq<char>>,
    pub head: Option<Seq<char>>,
    pub items: Seq<Item>,
    pub named: Seq<Seq<char>>,
    pub untracked: Seq<Seq<char>>,
    pub ignored: Seq<Seq<char>>,
    pub unmerged: Conflicts,
    pub trees: Trio,
    pub asked: StatusAsk,
}

/// What a list of unmerged paths holds.
pub open spec fn conflict_list(v: Seq<(String, Unmerged)>) -> Conflicts {
    v.map_values(|e: (String, Unmerged)| (e.0@, e.1@))
}

impl View for Report {
    type V = Summary;

    open spec fn view(&self) -> Summary {
        Summary {
            branch: opt_text(self.branch),
            head: opt_text(self.head),
            items: items_of(self.items@),
            named: texts(self.named@),
            untracked: texts(self.untracked@),
            ignored: texts(self.ignored@),
            unmerged: conflict_list(self.unmerged@),
            trees: self.trees@,
            asked: self.asked,
        }
    }
}

/// Whether an item is reported: it is not unmerged, and it or what it came from is asked for.
pub open spec fn reported(x: Item, unmerged: Conflicts, paths: Seq<Seq<char>>) -> bool {
    lookup(unmerged, x.path) is None && (covered(paths, x.path) || match x.origin {
        Some(o) => covered(paths, o),
        None => false,
    })
}

/// The items that are reported.
pub open spec fn items_reported(v: Seq<Item>, unmerged: Conflicts, paths: Seq<Seq<char>>) -> Seq<Item>
    decreases v.len(),
{
    if v.len() == 0 {
        seq![]
    } else if reported(v.last(), unmerged, paths) {
        items_reported(v.drop_last(), unmerged, paths).push(v.last())
    } else {
        items_reported(v.drop_last(), unmerged, paths)
    }
}

/// An item as it is seen from the working directory.
pub open spec fn item_seen(prefix: Seq<char>, x: Item) -> Item {
    Item {
        path: seen_from(prefix, x.path),
        origin: match x.origin {
            Some(o) => Some(seen_from(prefix, o)),
            None => None,
        },
        ..x
    }
}

/// Whether a path is untracked and asked for, and ignored or not as `ignored` says.
pub open spec fn is_loose(
    t: Trio,
    paths: Seq<Seq<char>>,
    rules: Seq<Rule>,
    ignored: bool,
    p: Seq<char>,
) -> bool {
    lookup(t.index, p) is None && covered(paths, p) && ignores(rules, p) == ignored
}

/// The test for paths that are untracked and asked for.
pub open spec fn loose_test(t: Trio, paths: Seq<Seq<char>>, rules: Seq<Rule>, ignored: bool) -> spec_fn(
    Seq<char>,
) -> bool {
    |p: Seq<char>| is_loose(t, paths, rules, ignored, p)
}

/// The untracked paths that are listed.
pub open spec fn loose_listed(
    t: Trio,
    paths: Seq<Seq<char>>,
    rules: Seq<Rule>,
    ignored: bool,
    asked: StatusAsk,
) -> Seq<Seq<char>> {
    let v = kept(keys_of(t.work), loose_test(t, paths, rules, ignored));
    if (ignored && !asked.show_ignored) || (!ignored && asked.untracked == Untracked::No) {
        seq![]
    } else if asked.untracked == Untracked::All {
        v
    } else {
        keys_of(all_collapsed(t.index, v))
    }
}

/// Paths as they are seen from the working directory.
pub open spec fn all_seen(prefix: Seq<char>, v: Seq<Seq<char>>) -> Seq<Seq<char>> {
    v.map_values(|p: Seq<char>| seen_from(prefix, p))
}

/// The unmerged paths that are asked for, as they are seen from the working directory.
pub open spec fn unmerged_seen(prefix: Seq<char>, paths: Seq<Seq<char>>, c: Conflicts) -> Conflicts
    decreases c.len(),
{
    if c.len() == 0 {
        seq![]
    } else if covered(paths, c.last().0) {
        unmerged_seen(prefix, paths, c.drop_last()).push(
            (seen_from(prefix, c.last().0), c.last().1),
        )
    } else {
        unmerged_seen(prefix, paths, c.drop_last())
    }
}

/// The report on a repository.
pub open spec fn summary_of(m: Machine, root: Seq<char>, asked: StatusAsk, paths: Seq<Seq<char>>, t: Trio) -> Summary {
    let unmerged = conflicts_of(m, root);
    let rules = ignore_rules(m, root);
    let prefix = cwd_prefix(root, m.cwd);
    let v = items_reported(classified(t), unmerged, paths);
    Summary {
        branch: branch_of(m, root),
        head: head_id(m, root),
        items: v.map_values(|x: Item| item_seen(prefix, x)),
        named: v.map_values(|x: Item| x.path),
        untracked: all_seen(prefix, loose_listed(t, paths, rules, false, asked)),
        ignored: all_seen(prefix, loose_listed(t, paths, rules, true, asked)),
        unmerged: unmerged_seen(prefix, paths, unmerged),
        trees: t,
        asked,
    }
}

fn is_reported(x: &StatusItem, unmerged: &Stages, paths: &[String]) -> (r: bool)
    ensures
        r == reported(x@, unmerged@, texts(paths@)),
{
    !unmerged.contains_key(x.path.as_str()) && (selected(paths, x.path.as_str()) || match &x.origin {
        Some(o) => selected(paths, o.as_str()),
        None => false,
    })
}

fn see_items(v: &Vec<StatusItem>, unmerged: &Stages, paths: &[String], prefix: &str) -> (r: (
    Vec<StatusItem>,
    Vec<String>,
))
    ensures
        ({
            let list = items_reported(items_of(v@), unmerged@, texts(paths@));
            &&& items_of(r.0@) == list.map_values(|x: Item| item_seen(prefix@, x))
            &&& texts(r.1@) == list.map_values(|x: Item| x.path)
        }),
{
    let ghost all = items_of(v@);
    let ghost specs = texts(paths@);
    let mut out: Vec<StatusItem> = Vec::new();
    let mut names: Vec<String> = Vec::new();
    let mut i: usize = 0;
    assert(items_of(out@) =~= items_reported(all.take(0), unmerged@, specs).map_values(
        |x: Item| item_seen(prefix@, x),
    ));
    assert(texts(names@) =~= items_reported(all.take(0), unmerged@, specs).map_values(
        |x: Item| x.path,
    ));
    while i < v.len()
        invariant
            i <= v.len(),
            all == items_of(v@),
            specs == texts(paths@),
            items_of(out@) == items_reported(all.take(i as int), unmerged@, specs).map_values(
                |x: Item| item_seen(prefix@, x),
            ),
            texts(names@) == items_reported(all.take(i as int), unmerged@, specs).map_values(
                |x: Item| x.path,
            ),
        decreases v.len() - i,
    {
        broadcast use {lemma_items_push, lemma_texts_push};

        assert(all.take(i + 1).drop_last() =~= all.take(i as int));
        assert(all.take(i + 1).last() == v@[i as int]@);
        let ghost was = items_reported(all.take(i as int), unmerged@, specs);
        let x = &v[i];
        if is_reported(x, unmerged, paths) {
            let seen = StatusItem {
                path: displayed_path(prefix, x.path.as_str()),
                origin: match &x.origin {
                    Some(o) => Some(displayed_path(prefix, o.as_str())),
                    None => None,
                },
                staged: x.staged,
                unstaged: x.unstaged,
            };
            assert(seen@ == item_seen(prefix@, x@));
            out.push(seen);
            names.push(copy_text(x.path.as_str()));
            assert(items_of(out@) =~= was.push(x@).map_values(|x: Item| item_seen(prefix@, x)));
            assert(texts(names@) =~= was.push(x@).map_values(|x: Item| x.path));
        }
        i += 1;
    }
    assert(all.take(i as int) =~= all);
    (out, names)
}

fn list_loose(
    trees: &Snapshot,
    paths: &[String],
    rules: &IgnoreRules,
    ignored: bool,
    asked: StatusAsk,
) -> (r: Vec<String>)
    ensures
        texts(r@) == loose_listed(trees@, texts(paths@), rules@, ignored, asked),
{
    if (ignored && !asked.show_ignored) || (!ignored && asked.untracked == Untracked::No) {
        let none: Vec<String> = Vec::new();
        assert(texts(none@) =~= seq![]);
        return none;
    }
    let ghost test = loose_test(trees@, texts(paths@), rules@, ignored);
    let ghost all = keys_of(trees@.work);
    let mut v: Vec<String> = Vec::new();
    let mut i: usize = 0;
    assert(texts(v@) =~= seq![]);
    while i < trees.work.len()
        invariant
            i <= trees.work@.len(),
            all == keys_of(trees.work@),
            test == loose_test(trees@, texts(paths@), rules@, ignored),
            texts(v@) == kept(all.take(i as int), test),
        decreases trees.work@.len() - i,
    {
        broadcast use lemma_texts_push;

        assert(all.take(i + 1).drop_last() =~= all.take(i as int));
        let p = trees.work.key_at(i);
        assert(all.take(i + 1).last() == p@);
        if !trees.index.contains_key(p) && selected(paths, p) && rules.is_ignored(p) == ignored {
            v.push(copy_text(p));
        }
        i += 1;
    }
    assert(all.take(i as int) =~= all);
    if asked.untracked == Untracked::All {
        v
    } else {
        collapse_untracked(&trees.index, v.as_slice())
    }
}

fn see_all(prefix: &str, v: &[String]) -> (r: Vec<String>)
    ensures
        texts(r@) == all_seen(prefix@, texts(v@)),
{
    let mut out: Vec<String> = Vec::new();
    let mut i: usize = 0;
    while i < v.len()
        invariant
            i <= v.len(),
            out@.len() == i,
            forall|k: int| 0 <= k < i ==> (#[trigger] out@[k])@ == seen_from(prefix@, v@[k]@),
        decreases v.len() - i,
    {
        out.push(displayed_path(prefix, v[i].as_str()));
        i += 1;
    }
    assert(texts(out@) =~= all_seen(prefix@, texts(v@)));
    out
}

fn see_unmerged(prefix: &str, paths: &[String], stages: &Stages) -> (r: Vec<(String, Unmerged)>)
    ensures
        conflict_list(r@) == unmerged_seen(prefix@, texts(paths@), stages@),
{
    let ghost all = stages@;
    let ghost specs = texts(paths@);
    let mut out: Vec<(String, Unmerged)> = Vec::new();
    let mut i: usize = 0;
    assert(conflict_list(out@) =~= seq![]);
    while i < stages.len()
        invariant
            i <= all.len(),
            all == stages@,
            specs == texts(paths@),
            conflict_list(out@) == unmerged_seen(prefix@, specs, all.take(i as int)),
        decreases all.len() - i,
    {
        assert(all.take(i + 1).drop_last() =~= all.take(i as int));
        let ghost was = conflict_list(out@);
        let path = stages.key_at(i);
        if selected(paths, path) {
            let e = (
                displayed_path(prefix, path),
                crate::order::Duplicate::duplicate(stages.value_at(i)),
            );
            out.push(e);
            assert(conflict_list(out@) =~= was.push((e.0@, e.1@)));
        }
        i += 1;
    }
    assert(all.take(i as int) =~= all);
    out
}

fn make_report(system: &System, root: &str, asked: StatusAsk, paths: &[String], trees: Snapshot) -> (r: Report)
    ensures
        r@ == summary_of(system@, root@, asked, texts(paths@), trees@),
{
    let rules = load_ignores(system, root);
    let stages = load_stages(system, root);
    let prefix = prefix_of_cwd(root, system.cwd().as_str());
    let list = classify(&trees);
    let (items, named) = see_items(&list, &stages, paths, prefix.as_str());
    let loose = list_loose(&trees, paths, &rules, false, asked);
    let hidden = list_loose(&trees, paths, &rules, true, asked);
    Report {
        branch: current_branch(system, root),
        head: head_commit(system, root),
        items,
        named,
        untracked: see_all(prefix.as_str(), loose.as_slice()),
        ignored: see_all(prefix.as_str(), hidden.as_slice()),
        unmerged: see_unmerged(prefix.as_str(), paths, &stages),
        trees,
        asked,
    }
}

// ---------------------------------------------------------------------------
// The three formats
// ---------------------------------------------------------------------------

/// Each text between `front` and `back`, one after the other.
pub open spec fn framed(front: Seq<char>, v: Seq<Seq<char>>, back: Seq<char>) -> Seq<char>
    decreases v.len(),
{
    if v.len() == 0 {
        ""@
    } else {
        framed(front, v.drop_last(), back) + (front + v.last() + back)
    }
}

/// Each text between `front` and `back`, one after the other.
pub fn frame_all(front: &str, v: &[String], back: &str) -> (r: String)
    ensures
        r@ == framed(front@, texts(v@), back@),
{
    let ghost all = texts(v@);
    let mut out = copy_text("");
    let mut i: usize = 0;
    while i < v.len()
        invariant
            i <= v.len(),
            all == texts(v@),
            out@ == framed(front@, all.take(i as int), back@),
        decreases v.len() - i,
    {
        assert(all.take(i + 1).drop_last() =~= all.take(i as int));
        assert(all.take(i + 1).last() == v@[i as int]@);
        out.append(join3(front, v[i].as_str(), back).as_str());
        i += 1;
    }
    assert(all.take(i as int) =~= all);
    out
}

/// The name that stands for no object.
pub open spec fn missing_id() -> Seq<char> {
    "0000000000000000000000000000000000000000"@
}

/// The mode of an entry that may be missing.
pub open spec fn mode_or_none(r: Option<Record>) -> Seq<char> {
    match r {
        Some(x) => mode_of(x),
        None => "000000"@,
    }
}

/// The name of an entry that may be missing.
pub open spec fn hash_or_none(r: Option<Record>) -> Seq<char> {
    match r {
        Some(x) => x.hash,
        None => missing_id(),
    }
}

/// The letter of a change, or `none` where there is none.
pub open spec fn letter_or(c: Option<Change>, none: char) -> char {
    match c {
        Some(x) => change_letter(x),
        None => none,
    }
}

/// The line of a tracked path in the second porcelain format.
pub open spec fn v2_item(t: Trio, x: Item, path: Seq<char>) -> Seq<char> {
    let work = if lookup(t.index, path) is Some {
        mode_or_none(lookup(t.work, path))
    } else {
        "000000"@
    };
    "1 "@.push(letter_or(x.staged, '.')).push(letter_or(x.unstaged, '.')) + " N... "@ + mode_or_none(
        lookup(t.head, path),
    ) + " "@ + mode_or_none(lookup(t.index, path)) + " "@ + work + " "@ + hash_or_none(
        lookup(t.head, path),
    ) + " "@ + hash_or_none(lookup(t.index, path)) + " "@ + shown(x) + "\n"@
}

/// The lines of the first `n` tracked paths in the second porcelain format.
pub open spec fn v2_items(r: Summary, n: int) -> Seq<char>
    decreases n,
{
    if n <= 0 {
        ""@
    } else {
        v2_items(r, n - 1) + v2_item(r.trees, r.items[n - 1], r.named[n - 1])
    }
}

/// The mode of a side that may be missing.
pub open spec fn side_mode(side: Option<Seq<char>>) -> Seq<char> {
    if side is Some {
        "100644"@
    } else {
        "000000"@
    }
}

/// The name of a side that may be missing.
pub open spec fn side_hash(side: Option<Seq<char>>) -> Seq<char> {
    match side {
        Some(h) => h,
        None => missing_id(),
    }
}

/// The line of an unmerged path in the second porcelain format.
pub open spec fn v2_unmerged(path: Seq<char>, u: Sides) -> Seq<char> {
    "u "@ + unmerged_code(u) + " N... "@ + side_mode(u.base) + " "@ + side_mode(u.ours) + " "@
        + side_mode(u.theirs) + " 100644 "@ + side_hash(u.base) + " "@ + side_hash(u.ours) + " "@
        + side_hash(u.theirs) + " "@ + path + "\n"@
}

/// The lines of unmerged paths in the second porcelain format.
pub open spec fn v2_conflicts(c: Conflicts) -> Seq<char>
    decreases c.len(),
{
    if c.len() == 0 {
        ""@
    } else {
        v2_conflicts(c.drop_last()) + v2_unmerged(c.last().0, c.last().1)
    }
}

/// A text, or another where there is none.
pub open spec fn text_or(o: Option<Seq<char>>, other: Seq<char>) -> Seq<char> {
    match o {
        Some(x) => x,
        None => other,
    }
}

/// The header lines of the second porcelain format.
pub open spec fn v2_header(r: Summary) -> Seq<char> {
    if r.asked.branch_header {
        "# branch.oid "@ + text_or(r.head, "(initial)"@) + "\n# branch.head "@ + text_or(
            r.branch,
            "(detached)"@,
        ) + "\n"@
    } else {
        ""@
    }
}

/// The report in the second porcelain format.
pub open spec fn v2_text(r: Summary) -> Seq<char> {
    v2_header(r) + v2_items(r, r.items.len() as int) + v2_conflicts(r.unmerged) + framed(
        "? "@,
        r.untracked,
        "\n"@,
    ) + framed("! "@, r.ignored, "\n"@)
}

fn entry_mode(e: Option<&Entry>) -> (r: &'static str)
    ensures
        r@ == mode_or_none(opt_record(e)),
{
    match e {
        Some(x) => x.mode(),
        None => "000000",
    }
}

fn entry_hash(e: Option<&Entry>) -> (r: String)
    ensures
        r@ == hash_or_none(opt_record(e)),
{
    match e {
        Some(x) => copy_text(x.hash.as_str()),
        None => copy_text("0000000000000000000000000000000000000000"),
    }
}

fn porcelain_or(c: Option<Change>, none: char) -> (r: char)
    ensures
        r == letter_or(c, none),
{
    match c {
        Some(x) => x.porcelain(),
        None => none,
    }
}

fn v2_item_line(t: &Snapshot, x: &StatusItem, path: &str) -> (r: String)
    ensures
        r@ == v2_item(t@, x@, path@),
{
    let staged = t.index.get(path);
    let work = if staged.is_some() {
        entry_mode(t.work.get(path))
    } else {
        "000000"
    };
    let mut line = copy_text("1 ");
    line.push(porcelain_or(x.staged, '.'));
    line.push(porcelain_or(x.unstaged, '.'));
    line.append(" N... ");
    line.append(entry_mode(t.head.get(path)));
    line.append(" ");
    line.append(entry_mode(staged));
    line.append(" ");
    line.append(work);
    line.append(" ");
    line.append(entry_hash(t.head.get(path)).as_str());
    line.append(" ");
    line.append(entry_hash(staged).as_str());
    line.append(" ");
    line.append(x.display().as_str());
    line.append("\n");
    line
}

fn stage_mode(side: &Option<String>) -> (r: &'static str)
    ensures
        r@ == side_mode(opt_text(*side)),
{
    if side.is_some() {
        "100644"
    } else {
        "000000"
    }
}

fn stage_hash(side: &Option<String>) -> (r: String)
    ensures
        r@ == side_hash(opt_text(*side)),
{
    match side {
        Some(h) => copy_text(h.as_str()),
        None => copy_text("0000000000000000000000000000000000000000"),
    }
}

fn v2_unmerged_line(path: &str, u: &Unmerged) -> (r: String)
    ensures
        r@ == v2_unmerged(path@, u@),
{
    let mut line = join4("u ", u.porcelain(), " N... ", stage_mode(&u.base));
    line.append(" ");
    line.append(stage_mode(&u.ours));
    line.append(" ");
    line.append(stage_mode(&u.theirs));
    line.append(" 100644 ");
    line.append(stage_hash(&u.base).as_str());
    line.append(" ");
    line.append(stage_hash(&u.ours).as_str());
    line.append(" ");
    line.append(stage_hash(&u.theirs).as_str());
    line.append(" ");
    line.append(path);
    line.append("\n");
    line
}

/// A text, or another where there is none.
pub fn text_or_else(o: &Option<String>, other: &str) -> (r: String)
    ensures
        r@ == text_or(opt_text(*o), other@),
{
    match o {
        Some(x) => copy_text(x.as_str()),
        None => copy_text(other),
    }
}

fn v2_header_text(r: &Report) -> (t: String)
    ensures
        t@ == v2_header(r@),
{
    if r.asked.branch_header {
        let mut out = join3(
            "# branch.oid ",
            text_or_else(&r.head, "(initial)").as_str(),
            "\n# branch.head ",
        );
        out.append(text_or_else(&r.branch, "(detached)").as_str());
        out.append("\n");
        out
    } else {
        copy_text("")
    }
}

/// The report in the second porcelain format.
pub fn porcelain_v2(r: &Report) -> (t: String)
    requires
        r.items@.len() == r.named@.len(),
    ensures
        t@ == v2_text(r@),
{
    let mut out = v2_header_text(r);
    let ghost view = r@;
    let ghost first = out@;
    let mut lines = copy_text("");
    let mut i: usize = 0;
    while i < r.items.len()
        invariant
            i <= r.items.len(),
            r.items@.len() == r.named@.len(),
            view == r@,
            lines@ == v2_items(view, i as int),
        decreases r.items.len() - i,
    {
        assert(view.items[i as int] == r.items@[i as int]@);
        assert(view.named[i as int] == r.named@[i as int]@);
        lines.append(v2_item_line(&r.trees, &r.items[i], r.named[i].as_str()).as_str());
        i += 1;
    }
    out.append(lines.as_str());
    let ghost all = view.unmerged;
    let mut more = copy_text("");
    let mut k: usize = 0;
    while k < r.unmerged.len()
        invariant
            k <= r.unmerged.len(),
            all == conflict_list(r.unmerged@),
            more@ == v2_conflicts(all.take(k as int)),
        decreases r.unmerged.len() - k,
    {
        assert(all.take(k + 1).drop_last() =~= all.take(k as int));
        assert(all.take(k + 1).last() == (r.unmerged@[k as int].0@, r.unmerged@[k as int].1@));
        more.append(v2_unmerged_line(r.unmerged[k].0.as_str(), &r.unmerged[k].1).as_str());
        k += 1;
    }
    assert(all.take(k as int) =~= all);
    out.append(more.as_str());
    out.append(frame_all("? ", r.untracked.as_slice(), "\n").as_str());
    out.append(frame_all("! ", r.ignored.as_slice(), "\n").as_str());
    out
}

// ---------------------------------------------------------------------------
// Short format
// ---------------------------------------------------------------------------

/// A line of the short format with the path that it is sorted by.
pub type Sortable = (Seq<char>, Seq<char>);

/// The lines with one put at its place, behind those with the same path.
pub open spec fn line_placed(v: Seq<Sortable>, e: Sortable) -> Seq<Sortable>
    decreases v.len(),
{
    if v.len() == 0 {
        seq![e]
    } else if before(e.0, v.last().0) {
        line_placed(v.drop_last(), e).push(v.last())
    } else {
        v.push(e)
    }
}

/// The lines of unmerged paths, in the order of their paths.
pub open spec fn short_unmerged(c: Conflicts) -> Seq<Sortable>
    decreases c.len(),
{
    if c.len() == 0 {
        seq![]
    } else {
        let (path, u) = c.last();
        line_placed(short_unmerged(c.drop_last()), (path, unmerged_code(u) + " "@ + path))
    }
}

/// The lines with those of tracked paths put at their places.
pub open spec fn short_tracked(v: Seq<Sortable>, items: Seq<Item>) -> Seq<Sortable>
    decreases items.len(),
{
    if items.len() == 0 {
        v
    } else {
        let x = items.last();
        line_placed(
            short_tracked(v, items.drop_last()),
            (
                x.path,
                ""@.push(letter_or(x.staged, ' ')).push(letter_or(x.unstaged, ' ')) + " "@ + shown(
                    x,
                ),
            ),
        )
    }
}

/// What ends a line.
pub open spec fn line_end(nul: bool) -> Seq<char> {
    if nul {
        "\0"@
    } else {
        "\n"@
    }
}

/// The header of the short format.
pub open spec fn short_header(r: Summary) -> Seq<char> {
    if r.asked.branch_header {
        "## "@ + (match r.branch {
            Some(b) => if r.head is None {
                "No commits yet on "@ + b
            } else {
                b
            },
            None => "HEAD (no branch)"@,
        }) + line_end(r.asked.nul)
    } else {
        ""@
    }
}

/// The lines alone.
pub open spec fn lines_only(v: Seq<Sortable>) -> Seq<Seq<char>> {
    v.map_values(|e: Sortable| e.1)
}

/// The report in the short format.
pub open spec fn short_text(r: Summary) -> Seq<char> {
    let end = line_end(r.asked.nul);
    short_header(r) + framed(
        ""@,
        lines_only(short_tracked(short_unmerged(r.unmerged), r.items)),
        end,
    ) + framed("?? "@, r.untracked, end) + framed("!! "@, r.ignored, end)
}

spec fn sortables(v: Seq<(String, String)>) -> Seq<Sortable> {
    v.map_values(|e: (String, String)| (e.0@, e.1@))
}

fn place_line(v: &mut Vec<(String, String)>, e: (String, String))
    ensures
        sortables(final(v)@) == line_placed(sortables(old(v)@), (e.0@, e.1@)),
{
    let ghost x = (e.0@, e.1@);
    let ghost all = sortables(v@);
    let mut i: usize = v.len();
    assert(all.take(all.len() as int) =~= all);
    assert(line_placed(all, x) + all.subrange(all.len() as int, all.len() as int) =~= line_placed(
        all,
        x,
    ));
    while i > 0 && less(e.0.as_str(), v[i - 1].0.as_str())
        invariant
            i <= v@.len(),
            all == sortables(v@),
            v@ == old(v)@,
            x == (e.0@, e.1@),
            line_placed(all, x) == line_placed(all.take(i as int), x) + all.subrange(
                i as int,
                all.len() as int,
            ),
        decreases i,
    {
        assert(all.take(i as int).drop_last() =~= all.take(i - 1));
        assert(all.take(i as int).last() == all[i - 1]);
        assert(line_placed(all.take(i - 1), x).push(all[i - 1]) + all.subrange(
            i as int,
            all.len() as int,
        ) =~= line_placed(all.take(i - 1), x) + all.subrange(i - 1, all.len() as int));
        i -= 1;
    }
    assert(i > 0 ==> all.take(i as int).last() == all[i - 1]);
    let ghost goal = line_placed(all, x);
    v.insert(i, e);
    assert(sortables(v@) =~= all.take(i as int).push(x) + all.subrange(i as int, all.len() as int));
    assert(i == 0 ==> seq![x] =~= all.take(0).push(x));
    assert(sortables(v@) =~= goal);
}

fn end_text(nul: bool) -> (r: &'static str)
    ensures
        r@ == line_end(nul),
{
    if nul {
        "\0"
    } else {
        "\n"
    }
}

fn short_header_text(r: &Report) -> (t: String)
    ensures
        t@ == short_header(r@),
{
    if r.asked.branch_header {
        let label = match &r.branch {
            Some(b) => if r.head.is_none() {
                join2("No commits yet on ", b.as_str())
            } else {
                copy_text(b.as_str())
            },
            None => copy_text("HEAD (no branch)"),
        };
        join3("## ", label.as_str(), end_text(r.asked.nul))
    } else {
        copy_text("")
    }
}

fn sorted_lines(r: &Report) -> (v: Vec<String>)
    ensures
        texts(v@) == lines_only(short_tracked(short_unmerged(r@.unmerged), r@.items)),
{
    let ghost c = r@.unmerged;
    let mut v: Vec<(String, String)> = Vec::new();
    let mut i: usize = 0;
    assert(sortables(v@) =~= seq![]);
    while i < r.unmerged.len()
        invariant
            i <= r.unmerged.len(),
            c == conflict_list(r.unmerged@),
            sortables(v@) == short_unmerged(c.take(i as int)),
        decreases r.unmerged.len() - i,
    {
        assert(c.take(i + 1).drop_last() =~= c.take(i as int));
        assert(c.take(i + 1).last() == (r.unmerged@[i as int].0@, r.unmerged@[i as int].1@));
        let path = r.unmerged[i].0.as_str();
        let line = join3(r.unmerged[i].1.porcelain(), " ", path);
        place_line(&mut v, (copy_text(path), line));
        i += 1;
    }
    assert(c.take(i as int) =~= c);
    let ghost first = sortables(v@);
    let ghost items = r@.items;
    let mut k: usize = 0;
    assert(items.take(0) =~= seq![]);
    while k < r.items.len()
        invariant
            k <= r.items.len(),
            items == items_of(r.items@),
            sortables(v@) == short_tracked(first, items.take(k as int)),
        decreases r.items.len() - k,
    {
        assert(items.take(k + 1).drop_last() =~= items.take(k as int));
        assert(items.take(k + 1).last() == r.items@[k as int]@);
        let x = &r.items[k];
        let mut line = copy_text("");
        line.push(porcelain_or(x.staged, ' '));
        line.push(porcelain_or(x.unstaged, ' '));
        line.append(" ");
        line.append(x.display().as_str());
        place_line(&mut v, (copy_text(x.path.as_str()), line));
        k += 1;
    }
    assert(items.take(k as int) =~= items);
    let ghost all = sortables(v@);
    let mut out: Vec<String> = Vec::new();
    let mut j: usize = 0;
    while j < v.len()
        invariant
            j <= v.len(),
            all == sortables(v@),
            out@.len() == j,
            forall|q: int| 0 <= q < j ==> (#[trigger] out@[q])@ == all[q].1,
        decreases v.len() - j,
    {
        assert(all[j as int] == (v@[j as int].0@, v@[j as int].1@));
        out.push(copy_text(v[j].1.as_str()));
        j += 1;
    }
    assert(texts(out@) =~= lines_only(all));
    out
}

/// The report in the short format.
pub fn short_status(r: &Report) -> (t: String)
    ensures
        t@ == short_text(r@),
{
    let end = end_text(r.asked.nul);
    let mut out = short_header_text(r);
    let lines = sorted_lines(r);
    out.append(frame_all("", lines.as_slice(), end).as_str());
    out.append(frame_all("?? ", r.untracked.as_slice(), end).as_str());
    out.append(frame_all("!! ", r.ignored.as_slice(), end).as_str());
    out
}

// ---------------------------------------------------------------------------
// Long format
// ---------------------------------------------------------------------------

/// How to carry on with an operation.
pub open spec fn carry_on(command: Seq<char>, conflicted: bool) -> Seq<char> {
    (if conflicted {
        "  (fix conflicts and run \"git "@
    } else {
        "  (all conflicts fixed: run \"git "@
    }) + command + " --continue\")\n"@
}

/// What is said of a cherry-pick or revert that is not finished.
pub open spec fn replay_note(
    id: Seq<char>,
    doing: Seq<char>,
    command: Seq<char>,
    conflicted: bool,
) -> Seq<char> {
    "You are currently "@ + doing + " commit "@ + short_id(id) + ".\n"@ + carry_on(
        command,
        conflicted,
    ) + "  (use \"git "@ + command + " --skip\" to skip this patch)\n  (use \"git "@ + command
        + " --abort\" to cancel the "@ + command + " operation)\n\n"@
}

/// What is said of an operation that is not finished.
pub open spec fn pending_note(m: Machine, root: Seq<char>, conflicted: bool) -> Seq<char> {
    match replayed_branch(m, root) {
        Some((branch, onto)) => "You are currently rebasing branch '"@ + branch + "' on '"@
            + short_id(onto) + "'.\n"@ + carry_on("rebase"@, conflicted)
            + "  (use \"git rebase --skip\" to skip this patch)\n  (use \"git rebase --abort\" to check out the original branch)\n\n"@,
        None => match pending_commit(m, root, "CHERRY_PICK_HEAD"@) {
            Some(id) => replay_note(id, "cherry-picking"@, "cherry-pick"@, conflicted),
            None => match pending_commit(m, root, "REVERT_HEAD"@) {
                Some(id) => replay_note(id, "reverting"@, "revert"@, conflicted),
                None => if conflicted {
                    "You have unmerged paths.\n  (fix conflicts and run \"git commit\")\n  (use \"git merge --abort\" to abort the merge)\n\n"@
                } else {
                    ""@
                },
            },
        },
    }
}

fn carry_on_text(command: &str, conflicted: bool) -> (r: String)
    ensures
        r@ == carry_on(command@, conflicted),
{
    join3(
        if conflicted {
            "  (fix conflicts and run \"git "
        } else {
            "  (all conflicts fixed: run \"git "
        },
        command,
        " --continue\")\n",
    )
}

fn replay_note_text(id: &str, doing: &str, command: &str, conflicted: bool) -> (r: String)
    ensures
        r@ == replay_note(id@, doing@, command@, conflicted),
{
    let mut out = join4("You are currently ", doing, " commit ", short(id).as_str());
    out.append(".\n");
    out.append(carry_on_text(command, conflicted).as_str());
    out.append("  (use \"git ");
    out.append(command);
    out.append(" --skip\" to skip this patch)\n  (use \"git ");
    out.append(command);
    out.append(" --abort\" to cancel the ");
    out.append(command);
    out.append(" operation)\n\n");
    out
}

/// What is said of an operation that is not finished.
pub fn unfinished_operation(system: &System, root: &str, conflicted: bool) -> (r: String)
    ensures
        r@ == pending_note(system@, root@, conflicted),
{
    if let Some((branch, onto)) = replaying(system, root) {
        let mut out = join4(
            "You are currently rebasing branch '",
            branch.as_str(),
            "' on '",
            short(onto.as_str()).as_str(),
        );
        out.append("'.\n");
        out.append(carry_on_text("rebase", conflicted).as_str());
        out.append(
            "  (use \"git rebase --skip\" to skip this patch)\n  (use \"git rebase --abort\" to check out the original branch)\n\n",
        );
        return out;
    }
    if let Some(id) = in_progress(system, root, "CHERRY_PICK_HEAD") {
        return replay_note_text(id.as_str(), "cherry-picking", "cherry-pick", conflicted);
    }
    if let Some(id) = in_progress(system, root, "REVERT_HEAD") {
        return replay_note_text(id.as_str(), "reverting", "revert", conflicted);
    }
    if conflicted {
        return copy_text(
            "You have unmerged paths.\n  (fix conflicts and run \"git commit\")\n  (use \"git merge --abort\" to abort the merge)\n\n",
        );
    }
    copy_text("")
}

/// The line of one change.
pub open spec fn change_line(c: Change, path: Seq<char>) -> Seq<char> {
    "\t"@ + pad_right(change_phrase(c) + ":"@, ' ', 11) + " "@ + path + "\n"@
}

/// The lines of the staged changes, or of the unstaged ones.
pub open spec fn change_lines(v: Seq<Item>, staged: bool) -> Seq<char>
    decreases v.len(),
{
    if v.len() == 0 {
        ""@
    } else {
        let c = if staged {
            v.last().staged
        } else {
            v.last().unstaged
        };
        change_lines(v.drop_last(), staged) + (match c {
            Some(x) => change_line(x, shown(v.last())),
            None => ""@,
        })
    }
}

/// Whether something is staged, or changed and not staged.
pub open spec fn some_changed(v: Seq<Item>, staged: bool) -> bool {
    exists|i: int|
        0 <= i < v.len() && (if staged {
            (#[trigger] v[i]).staged
        } else {
            v[i].unstaged
        }) is Some
}

/// The lines of unmerged paths.
pub open spec fn conflict_lines(c: Conflicts) -> Seq<char>
    decreases c.len(),
{
    if c.len() == 0 {
        ""@
    } else {
        conflict_lines(c.drop_last()) + ("\t"@ + pad_right(
            unmerged_phrase(c.last().1) + ":"@,
            ' ',
            14,
        ) + "   "@ + c.last().0 + "\n"@)
    }
}

/// The first lines of the long format.
pub open spec fn long_top(r: Summary) -> Seq<char> {
    (match r.branch {
        Some(b) => "On branch "@ + b + "\n"@,
        None => "HEAD detached at "@ + (match r.head {
            Some(id) => short_id(id),
            None => "unknown"@,
        }) + "\n"@,
    }) + (if r.head is None {
        "\nNo commits yet\n\n"@
    } else {
        ""@
    })
}

/// The staged changes in the long format.
pub open spec fn staged_section(r: Summary) -> Seq<char> {
    if !some_changed(r.items, true) {
        ""@
    } else {
        "Changes to be committed:\n"@ + (if r.head is Some {
            "  (use \"git restore --staged <file>...\" to unstage)\n"@
        } else {
            "  (use \"git rm --cached <file>...\" to unstage)\n"@
        }) + change_lines(r.items, true) + "\n"@
    }
}

/// The unmerged paths in the long format.
pub open spec fn unmerged_section(r: Summary) -> Seq<char> {
    if r.unmerged.len() == 0 {
        ""@
    } else {
        "Unmerged paths:\n  (use \"git restore --staged <file>...\" to unstage)\n  (use \"git add <file>...\" to mark resolution)\n"@
            + conflict_lines(r.unmerged) + "\n"@
    }
}

/// The unstaged changes in the long format.
pub open spec fn unstaged_section(r: Summary) -> Seq<char> {
    if !some_changed(r.items, false) {
        ""@
    } else {
        "Changes not staged for commit:\n  (use \"git add <file>...\" to update what will be committed)\n  (use \"git restore <file>...\" to discard changes in working directory)\n"@
            + change_lines(r.items, false) + "\n"@
    }
}

/// A list of paths under a heading; nothing where there are none.
pub open spec fn path_section(heading: Seq<char>, v: Seq<Seq<char>>) -> Seq<char> {
    if v.len() == 0 {
        ""@
    } else {
        heading + framed("\t"@, v, "\n"@) + "\n"@
    }
}

/// The last lines of the long format.
pub open spec fn long_bottom(r: Summary) -> Seq<char> {
    (if r.asked.untracked == Untracked::No {
        "Untracked files not listed (use -u option to show untracked files)\n"@
    } else {
        ""@
    }) + (if r.unmerged.len() > 0 {
        "no changes added to commit (use \"git add\" and/or \"git commit -a\")\n"@
    } else if r.items.len() == 0 && r.untracked.len() == 0 {
        "nothing to commit, working tree clean\n"@
    } else if !some_changed(r.items, true) && !some_changed(r.items, false) && r.untracked.len() > 0 {
        "nothing added to commit but untracked files present (use \"git add\" to track)\n"@
    } else if !some_changed(r.items, true) {
        "no changes added to commit (use \"git add\" and/or \"git commit -a\")\n"@
    } else {
        ""@
    })
}

/// The report in the long format.
pub open spec fn long_text(r: Summary, note: Seq<char>) -> Seq<char> {
    long_top(r) + note + staged_section(r) + unmerged_section(r) + unstaged_section(r)
        + path_section(
        "Untracked files:\n  (use \"git add <file>...\" to include in what will be committed)\n"@,
        r.untracked,
    ) + path_section(
        "Ignored files:\n  (use \"git add -f <file>...\" to include in what will be committed)\n"@,
        r.ignored,
    ) + long_bottom(r)
}

fn change_list(v: &[StatusItem], staged: bool) -> (r: String)
    ensures
        r@ == change_lines(items_of(v@), staged),
{
    let ghost all = items_of(v@);
    let mut out = copy_text("");
    let mut i: usize = 0;
    while i < v.len()
        invariant
            i <= v.len(),
            all == items_of(v@),
            out@ == change_lines(all.take(i as int), staged),
        decreases v.len() - i,
    {
        assert(all.take(i + 1).drop_last() =~= all.take(i as int));
        assert(all.take(i + 1).last() == v@[i as int]@);
        let c = if staged {
            v[i].staged
        } else {
            v[i].unstaged
        };
        match c {
            Some(x) => {
                let mut line = join3(
                    "\t",
                    crate::numbers::padded_right(join2(x.label(), ":").as_str(), ' ', 11).as_str(),
                    " ",
                );
                line.append(v[i].display().as_str());
                line.append("\n");
                out.append(line.as_str());
            },
            None => out.append(""),
        }
        i += 1;
    }
    assert(all.take(i as int) =~= all);
    out
}

fn any_changed(v: &[StatusItem], staged: bool) -> (r: bool)
    ensures
        r == some_changed(items_of(v@), staged),
{
    let ghost all = items_of(v@);
    let mut i: usize = 0;
    while i < v.len()
        invariant
            i <= v.len(),
            all == items_of(v@),
            forall|k: int|
                0 <= k < i ==> (if staged {
                    (#[trigger] all[k]).staged
                } else {
                    all[k].unstaged
                }) is None,
        decreases v.len() - i,
    {
        assert(all[i as int] == v@[i as int]@);
        if (staged && v[i].staged.is_some()) || (!staged && v[i].unstaged.is_some()) {
            return true;
        }
        i += 1;
    }
    false
}

fn conflict_text(v: &[(String, Unmerged)]) -> (r: String)
    ensures
        r@ == conflict_lines(conflict_list(v@)),
{
    let ghost all = conflict_list(v@);
    let mut out = copy_text("");
    let mut i: usize = 0;
    while i < v.len()
        invariant
            i <= v.len(),
            all == conflict_list(v@),
            out@ == conflict_lines(all.take(i as int)),
        decreases v.len() - i,
    {
        assert(all.take(i + 1).drop_last() =~= all.take(i as int));
        assert(all.take(i + 1).last() == (v@[i as int].0@, v@[i as int].1@));
        let mut line = join3(
            "\t",
            crate::numbers::padded_right(join2(v[i].1.label(), ":").as_str(), ' ', 14).as_str(),
            "   ",
        );
        line.append(v[i].0.as_str());
        line.append("\n");
        out.append(line.as_str());
        i += 1;
    }
    assert(all.take(i as int) =~= all);
    out
}

fn long_top_text(r: &Report) -> (t: String)
    ensures
        t@ == long_top(r@),
{
    let mut out = match &r.branch {
        Some(b) => join3("On branch ", b.as_str(), "\n"),
        None => {
            let id = match &r.head {
                Some(id) => short(id.as_str()),
                None => copy_text("unknown"),
            };
            join3("HEAD detached at ", id.as_str(), "\n")
        },
    };
    out.append(
        if r.head.is_none() {
            "\nNo commits yet\n\n"
        } else {
            ""
        },
    );
    out
}

fn staged_text(r: &Report) -> (t: String)
    ensures
        t@ == staged_section(r@),
{
    if !any_changed(r.items.as_slice(), true) {
        return copy_text("");
    }
    let hint = if r.head.is_some() {
        "  (use \"git restore --staged <file>...\" to unstage)\n"
    } else {
        "  (use \"git rm --cached <file>...\" to unstage)\n"
    };
    join4(
        "Changes to be committed:\n",
        hint,
        change_list(r.items.as_slice(), true).as_str(),
        "\n",
    )
}

fn unmerged_text(r: &Report) -> (t: String)
    ensures
        t@ == unmerged_section(r@),
{
    if r.unmerged.len() == 0 {
        return copy_text("");
    }
    join3(
        "Unmerged paths:\n  (use \"git restore --staged <file>...\" to unstage)\n  (use \"git add <file>...\" to mark resolution)\n",
        conflict_text(r.unmerged.as_slice()).as_str(),
        "\n",
    )
}

fn unstaged_text(r: &Report) -> (t: String)
    ensures
        t@ == unstaged_section(r@),
{
    if !any_changed(r.items.as_slice(), false) {
        return copy_text("");
    }
    join3(
        "Changes not staged for commit:\n  (use \"git add <file>...\" to update what will be committed)\n  (use \"git restore <file>...\" to discard changes in working directory)\n",
        change_list(r.items.as_slice(), false).as_str(),
        "\n",
    )
}

fn path_section_text(heading: &str, v: &[String]) -> (t: String)
    ensures
        t@ == path_section(heading@, texts(v@)),
{
    if v.len() == 0 {
        return copy_text("");
    }
    join3(heading, frame_all("\t", v, "\n").as_str(), "\n")
}

fn long_bottom_text(r: &Report) -> (t: String)
    ensures
        t@ == long_bottom(r@),
{
    let staged = any_changed(r.items.as_slice(), true);
    let unstaged = any_changed(r.items.as_slice(), false);
    let hidden = if r.asked.untracked == Untracked::No {
        "Untracked files not listed (use -u option to show untracked files)\n"
    } else {
        ""
    };
    let closing = if r.unmerged.len() > 0 {
        "no changes added to commit (use \"git add\" and/or \"git commit -a\")\n"
    } else if r.items.len() == 0 && r.untracked.len() == 0 {
        "nothing to commit, working tree clean\n"
    } else if !staged && !unstaged && r.untracked.len() > 0 {
        "nothing added to commit but untracked files present (use \"git add\" to track)\n"
    } else if !staged {
        "no changes added to commit (use \"git add\" and/or \"git commit -a\")\n"
    } else {
        ""
    };
    join2(hidden, closing)
}

/// The report in the long format, with a note on an operation that is not finished.
pub fn long_status(r: &Report, note: &str) -> (t: String)
    ensures
        t@ == long_text(r@, note@),
{
    let mut out = long_top_text(r);
    out.append(note);
    out.append(staged_text(r).as_str());
    out.append(unmerged_text(r).as_str());
    out.append(unstaged_text(r).as_str());
    out.append(
        path_section_text(
            "Untracked files:\n  (use \"git add <file>...\" to include in what will be committed)\n",
            r.untracked.as_slice(),
        ).as_str(),
    );
    out.append(
        path_section_text(
            "Ignored files:\n  (use \"git add -f <file>...\" to include in what will be committed)\n",
            r.ignored.as_slice(),
        ).as_str(),
    );
    out.append(long_bottom_text(r).as_str());
    out
}

// ---------------------------------------------------------------------------
// The command
// ---------------------------------------------------------------------------

/// What `git status` prints.
pub open spec fn status_text(m: Machine, root: Seq<char>, r: Summary) -> Seq<char> {
    if r.asked.version_two {
        v2_text(r)
    } else if r.asked.short {
        short_text(r)
    } else {
        long_text(r, pending_note(m, root, r.unmerged.len() > 0))
    }
}

/// `git status`.
pub open spec fn status_done(m: Machine, s: Screen, args: Seq<Seq<char>>) -> Done {
    match words_read::<StatusAsk>(pass_for(args, "sbz"@, "u"@), plain_status(), seq![]) {
        Err(message) => misused(m, s, message),
        Ok((asked, operands)) => match repo_root(m) {
            None => no_repo(m, s),
            Some(root) => match trio_read(m, s, root) {
                (n, t, Err(e)) => Done { m: n, s: t, status: e },
                (n, t, Ok(trees)) => {
                    let r = summary_of(n, root, asked, pathspecs_of(m.cwd, root, operands), trees);
                    Done { m: n, s: printed(t, status_text(n, root, r)), status: 0 }
                },
            },
        },
    }
}

/// `git status`: shows what differs between HEAD, the index and the working tree.
pub fn git_status(system: &mut System, args: &[String], io: &mut Io) -> (r: i32)
    ensures
        done(final(system)@, final(io)@, r) == status_done(old(system)@, old(io)@, texts(args@)),
{
    let start = StatusAsk {
        short: false,
        version_two: false,
        branch_header: false,
        untracked: Untracked::Normal,
        show_ignored: false,
        nul: false,
    };
    let (asked, operands) = match read_words(flags_for(args, "sbz", "u"), start) {
        Ok(pair) => pair,
        Err(message) => return usage(io, message.as_str()),
    };
    let root = match find_repo_root(system) {
        Some(root) => root,
        None => return repo_error(io),
    };
    let paths = pathspecs(system.cwd().as_str(), root.as_str(), operands.as_slice());
    let trees = match snapshot(system, root.as_str(), io) {
        Ok(t) => t,
        Err(e) => return e,
    };
    let report = make_report(system, root.as_str(), asked, paths.as_slice(), trees);
    proof {
        let r = report@;
        assert(r.items.len() == r.named.len());
    }
    let text = if asked.version_two {
        porcelain_v2(&report)
    } else if asked.short {
        short_status(&report)
    } else {
        let note = unfinished_operation(system, root.as_str(), report.unmerged.len() > 0);
        long_status(&report, note.as_str())
    };
    io.print(text.as_str());
    0
}

} // verus!
