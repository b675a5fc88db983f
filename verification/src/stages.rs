//! The unmerged state that an unfinished merge leaves behind.

use vstd::prelude::*;
use vstd::utf8::encode_utf8;

use crate::order::{
    ascending, bind, lemma_lookup_unbind, lemma_unbind_ascending, lookup, unbind, Duplicate, OrdMap,
};
use crate::placing::no_file;
use crate::repo::{git_file, git_path, read_text, readable_text, some_text, write_vfs, written};
use crate::system::{settled, without_file, Machine, System};
use crate::text::{
    copy_opt, copy_text, first_pieces, join2, join4, line_list, lines, opt_text, same, splitn, texts, trim_end,
    trimmed_end,
};

verus! {

/// The three sides that are recorded for one unmerged path.
pub struct Unmerged {
    pub base: Option<String>,
    pub ours: Option<String>,
    pub theirs: Option<String>,
}

/// What the three sides hold.
#[verifier::ext_equal]
pub struct Sides {
    pub base: Option<Seq<char>>,
    pub ours: Option<Seq<char>>,
    pub theirs: Option<Seq<char>>,
}

impl View for Unmerged {
    type V = Sides;

    open spec fn view(&self) -> Sides {
        Sides {
            base: opt_text(self.base),
            ours: opt_text(self.ours),
            theirs: opt_text(self.theirs),
        }
    }
}

impl Duplicate for Unmerged {
    fn duplicate(&self) -> (r: Self) {
        Unmerged {
            base: copy_opt(&self.base),
            ours: copy_opt(&self.ours),
            theirs: copy_opt(&self.theirs),
        }
    }
}

/// The two-letter code of an unmerged path.
pub open spec fn unmerged_code(u: Sides) -> Seq<char> {
    if u.ours is Some && u.theirs is Some {
        if u.base is Some {
            "UU"@
        } else {
            "AA"@
        }
    } else if u.ours is Some {
        "UD"@
    } else if u.theirs is Some {
        "DU"@
    } else {
        "DD"@
    }
}

/// The phrase for an unmerged path.
pub open spec fn unmerged_phrase(u: Sides) -> Seq<char> {
    if u.ours is Some && u.theirs is Some {
        if u.base is Some {
            "both modified"@
        } else {
            "both added"@
        }
    } else if u.ours is Some {
        "deleted by them"@
    } else if u.theirs is Some {
        "deleted by us"@
    } else {
        "both deleted"@
    }
}

impl Unmerged {
    /// The two-letter code that short status prints for this path.
    pub fn porcelain(&self) -> (r: &'static str)
        ensures
            r@ == unmerged_code(self@),
    {
        match (self.ours.is_some(), self.theirs.is_some(), self.base.is_some()) {
            (true, true, false) => "AA",
            (true, true, true) => "UU",
            (true, false, _) => "UD",
            (false, true, _) => "DU",
            _ => "DD",
        }
    }

    /// The phrase that long status prints for this path.
    pub fn label(&self) -> (r: &'static str)
        ensures
            r@ == unmerged_phrase(self@),
    {
        match (self.ours.is_some(), self.theirs.is_some(), self.base.is_some()) {
            (true, true, false) => "both added",
            (true, true, true) => "both modified",
            (true, false, _) => "deleted by them",
            (false, true, _) => "deleted by us",
            _ => "both deleted",
        }
    }
}

/// The unmerged paths.
pub type Stages = OrdMap<Unmerged>;

/// What the unmerged paths hold.
pub type Conflicts = Seq<(Seq<char>, Sides)>;

/// No sides at all.
pub open spec fn no_sides() -> Sides {
    Sides { base: None, ours: None, theirs: None }
}

/// The record once one line is read.
pub open spec fn with_stage(c: Conflicts, line: Seq<char>) -> Conflicts {
    let p = first_pieces(line, '\t', 3);
    if p.len() < 3 {
        c
    } else {
        let u = match lookup(c, p[2]) {
            Some(u) => u,
            None => no_sides(),
        };
        bind(
            c,
            p[2],
            if p[0] == "1"@ {
                Sides { base: Some(p[1]), ..u }
            } else if p[0] == "2"@ {
                Sides { ours: Some(p[1]), ..u }
            } else if p[0] == "3"@ {
                Sides { theirs: Some(p[1]), ..u }
            } else {
                u
            },
        )
    }
}

/// The record that lines hold.
pub open spec fn stages_in(lines: Seq<Seq<char>>) -> Conflicts
    decreases lines.len(),
{
    if lines.len() == 0 {
        seq![]
    } else {
        with_stage(stages_in(lines.drop_last()), lines.last())
    }
}

/// The unmerged paths of a repository.
pub open spec fn conflicts_of(m: Machine, root: Seq<char>) -> Conflicts {
    match readable_text(m, git_file(root, "MERGE_STAGES"@)) {
        Some(s) => stages_in(line_list(s)),
        None => seq![],
    }
}

fn add_stage(stages: &mut Stages, line: &str)
    ensures
        final(stages)@ == with_stage(old(stages)@, line@),
{
    let p = splitn(line, '\t', 3);
    let ghost q = first_pieces(line@, '\t', 3);
    assert(q.len() == p@.len());
    if p.len() < 3 {
        return ;
    }
    assert(q[0] == p@[0]@ && q[1] == p@[1]@ && q[2] == p@[2]@);
    let mut u = match stages.get(p[2].as_str()) {
        Some(u) => u.duplicate(),
        None => Unmerged { base: None, ours: None, theirs: None },
    };
    let hash = Some(copy_text(p[1].as_str()));
    if same(p[0].as_str(), "1") {
        u.base = hash;
    } else if same(p[0].as_str(), "2") {
        u.ours = hash;
    } else if same(p[0].as_str(), "3") {
        u.theirs = hash;
    }
    stages.insert(copy_text(p[2].as_str()), u);
}

/// The unmerged paths of a repository.
pub fn load_stages(system: &System, root: &str) -> (r: Stages)
    ensures
        r@ == conflicts_of(system@, root@),
{
    let mut stages: Stages = OrdMap::new();
    let text = match read_text(system, git_path(root, "MERGE_STAGES").as_str()) {
        Some(s) => s,
        None => return stages,
    };
    let all = lines(text.as_str());
    let ghost list = line_list(text@);
    let mut i: usize = 0;
    assert(stages@ =~= seq![]);
    while i < all.len()
        invariant
            i <= all.len(),
            texts(all@) == list,
            stages@ == stages_in(list.take(i as int)),
        decreases all.len() - i,
    {
        assert(list.take(i + 1).drop_last() =~= list.take(i as int));
        assert(list.take(i + 1).last() == all@[i as int]@);
        add_stage(&mut stages, all[i].as_str());
        i += 1;
    }
    assert(list.take(i as int) =~= list);
    stages
}

/// The line of one side.
pub open spec fn side_line(number: Seq<char>, side: Option<Seq<char>>, path: Seq<char>) -> Seq<char> {
    match side {
        Some(hash) => number + "\t"@ + hash + "\t"@ + path + "\n"@,
        None => ""@,
    }
}

/// The lines of one path.
pub open spec fn sides_lines(path: Seq<char>, u: Sides) -> Seq<char> {
    side_line("1"@, u.base, path) + side_line("2"@, u.ours, path) + side_line("3"@, u.theirs, path)
}

/// The lines of all the paths.
pub open spec fn stages_text(c: Conflicts) -> Seq<char>
    decreases c.len(),
{
    if c.len() == 0 {
        seq![]
    } else {
        stages_text(c.drop_last()) + sides_lines(c.last().0, c.last().1)
    }
}

/// Storing the unmerged paths; where there are none the record goes.
pub open spec fn conflicts_stored(m: Machine, root: Seq<char>, c: Conflicts) -> (Machine, bool) {
    let path = git_file(root, "MERGE_STAGES"@);
    if c.len() == 0 {
        (settled(m, without_file(m.files, path)).0, true)
    } else {
        let (after, r) = written(m, path, encode_utf8(stages_text(c)));
        (after, r is Ok)
    }
}

fn push_side(out: &mut String, number: &str, side: &Option<String>, path: &str)
    ensures
        final(out)@ == old(out)@ + side_line(number@, opt_text(*side), path@),
{
    match side {
        Some(hash) => {
            let mut line = join4(number, "\t", hash.as_str(), "\t");
            line.append(path);
            line.append("\n");
            out.append(line.as_str());
        },
        None => out.append(""),
    }
}

/// Stores the unmerged paths.
pub fn store_stages(system: &mut System, root: &str, stages: &Stages) -> (r: bool)
    ensures
        (final(system)@, r) == conflicts_stored(old(system)@, root@, stages@),
{
    if stages.is_empty() {
        let _ = system.unlink(git_path(root, "MERGE_STAGES").as_str());
        return true;
    }
    let ghost all = stages@;
    let mut text = String::new();
    let mut i: usize = 0;
    while i < stages.len()
        invariant
            i <= all.len(),
            all == stages@,
            text@ == stages_text(all.take(i as int)),
        decreases all.len() - i,
    {
        assert(all.take(i + 1).drop_last() =~= all.take(i as int));
        assert(all.take(i + 1).last() == all[i as int]);
        let ghost was = text@;
        let path = stages.key_at(i);
        let u = stages.value_at(i);
        push_side(&mut text, "1", &u.base, path);
        push_side(&mut text, "2", &u.ours, path);
        push_side(&mut text, "3", &u.theirs, path);
        assert(text@ =~= was + sides_lines(path@, u@));
        i += 1;
    }
    assert(all.take(i as int) =~= all);
    write_vfs(
        system,
        git_path(root, "MERGE_STAGES").as_str(),
        text.as_str().as_bytes(),
    ).is_ok()
}

/// The commit that an unfinished operation of a kind brings in.
pub open spec fn pending_commit(m: Machine, root: Seq<char>, kind: Seq<char>) -> Option<Seq<char>> {
    some_text(readable_text(m, git_file(root, kind)))
}

/// The commit that an unfinished operation of a kind brings in.
pub fn in_progress(system: &System, root: &str, kind: &str) -> (r: Option<String>)
    ensures
        opt_text(r) == pending_commit(system@, root@, kind@),
{
    crate::repo::read_reference(system, root, kind)
}

/// The machine once an operation is recorded as unfinished, and whether both records were made.
pub open spec fn begun(
    m: Machine,
    root: Seq<char>,
    kind: Seq<char>,
    id: Seq<char>,
    message: Seq<char>,
) -> (Machine, bool) {
    let (m1, a) = written(m, git_file(root, kind), encode_utf8(id + "\n"@));
    let (m2, b) = written(m1, git_file(root, "MERGE_MSG"@), encode_utf8(message));
    (m2, a is Ok && b is Ok)
}

/// Records an operation as unfinished; whether both records were made.
pub fn begin(system: &mut System, root: &str, kind: &str, commit: &str, message: &str) -> (r: bool)
    ensures
        (final(system)@, r) == begun(old(system)@, root@, kind@, commit@, message@),
{
    let a = write_vfs(
        system,
        git_path(root, kind).as_str(),
        join2(commit, "\n").as_str().as_bytes(),
    ).is_ok();
    let b = write_vfs(system, git_path(root, "MERGE_MSG").as_str(), message.as_bytes()).is_ok();
    a && b
}

/// The message that is recorded for the operation under way.
pub open spec fn message_pending(m: Machine, root: Seq<char>) -> Option<Seq<char>> {
    match readable_text(m, git_file(root, "MERGE_MSG"@)) {
        Some(s) => Some(trimmed_end(s)),
        None => None,
    }
}

/// The message that is recorded for the operation under way.
pub fn pending_message(system: &System, root: &str) -> (r: Option<String>)
    ensures
        opt_text(r) == message_pending(system@, root@),
{
    match read_text(system, git_path(root, "MERGE_MSG").as_str()) {
        Some(s) => Some(trim_end(s.as_str())),
        None => None,
    }
}

/// The unmerged paths without some that are settled.
pub open spec fn without_paths(c: Conflicts, paths: Seq<Seq<char>>) -> Conflicts
    decreases paths.len(),
{
    if paths.len() == 0 {
        c
    } else {
        unbind(without_paths(c, paths.drop_last()), paths.last())
    }
}

/// Settling paths leaves any other conflict alone.
pub proof fn lemma_others_stay_unmerged(c: Conflicts, paths: Seq<Seq<char>>, path: Seq<char>)
    requires
        ascending(c),
    ensures
        ascending(without_paths(c, paths)),
        lookup(without_paths(c, paths), path) == (if paths.contains(path) {
            None
        } else {
            lookup(c, path)
        }),
        forall|i: int|
            0 <= i < without_paths(c, paths).len() ==> c.contains(#[trigger] without_paths(c, paths)[i]),
    decreases paths.len(),
{
    if paths.len() == 0 {
        assert(!paths.contains(path));
    } else {
        let less = paths.drop_last();
        let head = without_paths(c, less);
        lemma_others_stay_unmerged(c, less, path);
        lemma_unbind_ascending(head, paths.last());
        lemma_lookup_unbind(head, paths.last(), path);
        assert(paths =~= less.push(paths.last()));
        assert(paths.contains(path) <==> less.contains(path) || path == paths.last()) by {
            if less.contains(path) {
                let i = choose|i: int| 0 <= i < less.len() && less[i] == path;
                assert(paths[i] == path);
            }
            if path == paths.last() {
                assert(paths[paths.len() - 1] == path);
            }
        }
        let all = unbind(head, paths.last());
        assert forall|i: int| 0 <= i < all.len() implies c.contains(#[trigger] all[i]) by {
            let j = choose|j: int| 0 <= j < head.len() && #[trigger] head[j] == all[i];
            assert(c.contains(head[j]));
        }
    }
}

/// The machine once the named paths are settled.
pub open spec fn resolved_paths(m: Machine, root: Seq<char>, paths: Seq<Seq<char>>) -> Machine {
    let c = conflicts_of(m, root);
    if c.len() == 0 {
        m
    } else {
        conflicts_stored(m, root, without_paths(c, paths)).0
    }
}

/// Marks the named paths as settled, and leaves any other conflict alone.
pub fn resolve(system: &mut System, root: &str, paths: &[String])
    ensures
        final(system)@ == resolved_paths(old(system)@, root@, texts(paths@)),
{
    let mut stages = load_stages(system, root);
    if stages.is_empty() {
        return ;
    }
    let ghost c = stages@;
    let ghost all = texts(paths@);
    let mut i: usize = 0;
    while i < paths.len()
        invariant
            i <= paths.len(),
            all == texts(paths@),
            stages@ == without_paths(c, all.take(i as int)),
        decreases paths.len() - i,
    {
        assert(all.take(i + 1).drop_last() =~= all.take(i as int));
        assert(all.take(i + 1).last() == paths@[i as int]@);
        stages.remove(paths[i].as_str());
        i += 1;
    }
    assert(all.take(i as int) =~= all);
    let _ = store_stages(system, root, &stages);
}

/// The machine without one file of the repository; one that is missing is no loss.
pub open spec fn dropped(m: Machine, root: Seq<char>, name: Seq<char>) -> Machine {
    settled(m, without_file(m.files, git_file(root, name))).0
}

/// Removes one file of the repository, if it is there.
pub fn drop_file(system: &mut System, root: &str, name: &str)
    ensures
        final(system)@ == dropped(old(system)@, root@, name@),
{
    let _ = system.unlink(git_path(root, name).as_str());
}

/// The machine once every record of an unfinished operation is gone.
pub open spec fn cleared(m: Machine, root: Seq<char>) -> Machine {
    dropped(
        dropped(
            dropped(
                dropped(dropped(m, root, "MERGE_HEAD"@), root, "CHERRY_PICK_HEAD"@),
                root,
                "REVERT_HEAD"@,
            ),
            root,
            "MERGE_STAGES"@,
        ),
        root,
        "MERGE_MSG"@,
    )
}

/// Forgets every record of an unfinished operation.
pub fn clear(system: &mut System, root: &str)
    ensures
        final(system)@ == cleared(old(system)@, root@),
{
    drop_file(system, root, "MERGE_HEAD");
    drop_file(system, root, "CHERRY_PICK_HEAD");
    drop_file(system, root, "REVERT_HEAD");
    drop_file(system, root, "MERGE_STAGES");
    drop_file(system, root, "MERGE_MSG");
}

proof fn lemma_dropped(m: Machine, root: Seq<char>, name: Seq<char>, other: Seq<char>)
    requires
        ascending(m.files),
    ensures
        ascending(dropped(m, root, name).files),
        no_file(dropped(m, root, name).files, git_file(root, name)),
        no_file(m.files, git_file(root, other)) ==> no_file(
            dropped(m, root, name).files,
            git_file(root, other),
        ),
{
    let path = git_file(root, name);
    lemma_unbind_ascending(m.files, path);
    lemma_lookup_unbind(m.files, path, path);
    lemma_lookup_unbind(m.files, path, git_file(root, other));
}

/// Once every record of an unfinished operation is forgotten, none is found: no merge, pick or revert
/// is under way, no path is unmerged and no message waits.
pub proof fn lemma_nothing_pending(m: Machine, root: Seq<char>)
    requires
        ascending(m.files),
    ensures
        pending_commit(cleared(m, root), root, "MERGE_HEAD"@) is None,
        pending_commit(cleared(m, root), root, "CHERRY_PICK_HEAD"@) is None,
        pending_commit(cleared(m, root), root, "REVERT_HEAD"@) is None,
        conflicts_of(cleared(m, root), root).len() == 0,
        message_pending(cleared(m, root), root) is None,
{
    let a = dropped(m, root, "MERGE_HEAD"@);
    let b = dropped(a, root, "CHERRY_PICK_HEAD"@);
    let c = dropped(b, root, "REVERT_HEAD"@);
    let d = dropped(c, root, "MERGE_STAGES"@);
    lemma_dropped(m, root, "MERGE_HEAD"@, "MERGE_HEAD"@);
    lemma_dropped(a, root, "CHERRY_PICK_HEAD"@, "MERGE_HEAD"@);
    lemma_dropped(b, root, "REVERT_HEAD"@, "MERGE_HEAD"@);
    lemma_dropped(b, root, "REVERT_HEAD"@, "CHERRY_PICK_HEAD"@);
    lemma_dropped(c, root, "MERGE_STAGES"@, "MERGE_HEAD"@);
    lemma_dropped(c, root, "MERGE_STAGES"@, "CHERRY_PICK_HEAD"@);
    lemma_dropped(c, root, "MERGE_STAGES"@, "REVERT_HEAD"@);
    lemma_dropped(d, root, "MERGE_MSG"@, "MERGE_HEAD"@);
    lemma_dropped(d, root, "MERGE_MSG"@, "CHERRY_PICK_HEAD"@);
    lemma_dropped(d, root, "MERGE_MSG"@, "REVERT_HEAD"@);
    lemma_dropped(d, root, "MERGE_MSG"@, "MERGE_STAGES"@);
}

} // verus!
