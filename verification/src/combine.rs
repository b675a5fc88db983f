//! Combining two trees against their base.

use vstd::prelude::*;

use crate::diff::{binary, is_binary};
use crate::history::Names;
use crate::merging::{merge_content, merged_content};
use crate::names::{
    add_keys, either, keys_of_either, lemma_with_keys, opt_record, same_entry, with_keys,
};
use crate::objects::blob_id;
use crate::order::{
    ascending, before, bind, lemma_before_irreflexive, lemma_lookup_bind, lookup, Duplicate, OrdMap,
};
use crate::repo::{blob_of, blob_stored, read_blob, write_blob};
use crate::stages::{Conflicts, Sides, Stages, Unmerged};
use crate::system::{FileError, Machine, Refusal, System};
use crate::text::{copy_text, opt_text};
use crate::trees::{Entry, Files, Record, Tree};

verus! {

/// The outcome of combining two trees.
pub struct Combined {
    /// The resolved tree, with conflict-marked content for conflicted paths.
    pub tree: Tree,
    /// The three sides of each path that could not be resolved.
    pub stages: Stages,
}

/// A path whose merged content could not be stored.
pub struct Failed {
    pub path: String,
    pub error: FileError,
}

/// What is combined so far.
#[verifier::ext_equal]
pub struct Mix {
    pub tree: Files,
    pub stages: Conflicts,
}

/// What combining gave.
pub open spec fn mix_of(r: Result<Combined, Failed>) -> Result<Mix, (Seq<char>, Refusal)> {
    match r {
        Ok(c) => Ok(Mix { tree: c.tree@, stages: c.stages@ }),
        Err(f) => Err((f.path@, f.error@)),
    }
}

/// The three versions of one path.
#[verifier::ext_equal]
pub struct Versions {
    pub base: Option<Record>,
    pub ours: Option<Record>,
    pub theirs: Option<Record>,
}

/// The name of the content of an entry that may be missing.
pub open spec fn hash_of(r: Option<Record>) -> Option<Seq<char>> {
    match r {
        Some(x) => Some(x.hash),
        None => None,
    }
}

/// The three sides that are recorded for a path.
pub open spec fn sides_of(v: Versions) -> Sides {
    Sides { base: hash_of(v.base), ours: hash_of(v.ours), theirs: hash_of(v.theirs) }
}

/// The content of an entry that may be missing.
pub open spec fn text_at(m: Machine, root: Seq<char>, r: Option<Record>) -> Seq<u8> {
    match r {
        Some(x) => match blob_of(m, root, x.hash) {
            Some(data) => data,
            None => seq![],
        },
        None => seq![],
    }
}

/// A path left to the user, with our content, or theirs where ours is gone.
pub open spec fn left_open(x: Mix, path: Seq<char>, v: Versions) -> Mix {
    Mix {
        tree: match v.ours {
            Some(r) => bind(x.tree, path, r),
            None => match v.theirs {
                Some(r) => bind(x.tree, path, r),
                None => x.tree,
            },
        },
        stages: bind(x.stages, path, sides_of(v)),
    }
}

/// A path that is settled.
pub open spec fn settled_as(x: Mix, path: Seq<char>, r: Option<Record>) -> Mix {
    match r {
        Some(e) => Mix { tree: bind(x.tree, path, e), ..x },
        None => x,
    }
}

/// What is combined once one path is. A side that did not touch the path defers to the other, and
/// two sides that made the same change agree; otherwise the contents are merged line by line.
pub open spec fn path_mixed(
    m: Machine,
    root: Seq<char>,
    x: Mix,
    path: Seq<char>,
    v: Versions,
    labels: (Seq<char>, Seq<char>),
) -> (Machine, Result<Mix, (Seq<char>, Refusal)>) {
    let a = text_at(m, root, v.base);
    let b = text_at(m, root, v.ours);
    let c = text_at(m, root, v.theirs);
    if v.ours == v.base {
        (m, Ok(settled_as(x, path, v.theirs)))
    } else if v.theirs == v.base || v.ours == v.theirs {
        (m, Ok(settled_as(x, path, v.ours)))
    } else if v.ours is None || v.theirs is None || binary(a) || binary(b) || binary(c) {
        (m, Ok(left_open(x, path, v)))
    } else {
        let (data, conflict) = merged_content(a, b, c, labels);
        match blob_stored(m, root, data) {
            (n, Err(e)) => (n, Err((path, e))),
            (n, Ok(())) => (
                n,
                Ok(
                    Mix {
                        tree: bind(
                            x.tree,
                            path,
                            Record {
                                hash: blob_id(data),
                                executable: v.ours->0.executable || v.theirs->0.executable,
                                symlink: false,
                            },
                        ),
                        stages: if conflict {
                            bind(x.stages, path, sides_of(v))
                        } else {
                            x.stages
                        },
                    },
                ),
            ),
        }
    }
}

/// The three versions of a path.
pub open spec fn versions_at(base: Files, ours: Files, theirs: Files, path: Seq<char>) -> Versions {
    Versions { base: lookup(base, path), ours: lookup(ours, path), theirs: lookup(theirs, path) }
}

/// What is combined once the paths from `i` on are.
pub open spec fn mixed_from(
    m: Machine,
    root: Seq<char>,
    x: Mix,
    names: Names,
    i: int,
    trees: (Files, Files, Files),
    labels: (Seq<char>, Seq<char>),
) -> (Machine, Result<Mix, (Seq<char>, Refusal)>)
    decreases names.len() - i,
{
    if i < 0 || i >= names.len() {
        (m, Ok(x))
    } else {
        let path = names[i].0;
        match path_mixed(
            m,
            root,
            x,
            path,
            versions_at(trees.0, trees.1, trees.2, path),
            labels,
        ) {
            (n, Ok(y)) => mixed_from(n, root, y, names, i + 1, trees, labels),
            (n, Err(e)) => (n, Err(e)),
        }
    }
}

/// The paths of any of three trees.
pub open spec fn any_of_three(a: Files, b: Files, c: Files) -> Names {
    with_keys(either(a, b), c)
}

/// Two trees combined against their base.
pub open spec fn mixed(
    m: Machine,
    root: Seq<char>,
    trees: (Files, Files, Files),
    labels: (Seq<char>, Seq<char>),
) -> (Machine, Result<Mix, (Seq<char>, Refusal)>) {
    mixed_from(
        m,
        root,
        Mix { tree: seq![], stages: seq![] },
        any_of_three(trees.0, trees.1, trees.2),
        0,
        trees,
        labels,
    )
}

fn hash_copy(e: Option<&Entry>) -> (r: Option<String>)
    ensures
        opt_text(r) == hash_of(opt_record(e)),
{
    match e {
        Some(x) => Some(copy_text(x.hash.as_str())),
        None => None,
    }
}

/// Records the three sides of a path that could not be settled.
fn sides(base: Option<&Entry>, ours: Option<&Entry>, theirs: Option<&Entry>) -> (r: Unmerged)
    ensures
        r@ == sides_of(
            Versions {
                base: opt_record(base),
                ours: opt_record(ours),
                theirs: opt_record(theirs),
            },
        ),
{
    Unmerged { base: hash_copy(base), ours: hash_copy(ours), theirs: hash_copy(theirs) }
}

fn read_side(system: &System, root: &str, e: Option<&Entry>) -> (r: Vec<u8>)
    ensures
        r@ == text_at(system@, root@, opt_record(e)),
{
    match e {
        Some(x) => match read_blob(system, root, x.hash.as_str()) {
            Some(data) => data,
            None => Vec::new(),
        },
        None => Vec::new(),
    }
}

fn combine_path(
    system: &mut System,
    root: &str,
    c: &mut Combined,
    path: &str,
    versions: (Option<&Entry>, Option<&Entry>, Option<&Entry>),
    ours_label: &str,
    theirs_label: &str,
) -> (r: Result<(), FileError>)
    ensures
        ({
            let x = Mix { tree: old(c).tree@, stages: old(c).stages@ };
            let v = Versions {
                base: opt_record(versions.0),
                ours: opt_record(versions.1),
                theirs: opt_record(versions.2),
            };
            let (n, o) = path_mixed(
                old(system)@,
                root@,
                x,
                path@,
                v,
                (ours_label@, theirs_label@),
            );
            &&& final(system)@ == n
            &&& match r {
                Ok(()) => o == Ok::<Mix, (Seq<char>, Refusal)>(
                    Mix { tree: final(c).tree@, stages: final(c).stages@ },
                ),
                Err(e) => o == Err::<Mix, (Seq<char>, Refusal)>((path@, e@)),
            }
        }),
{
    let (original, mine, yours) = versions;
    if same_entry(mine, original) {
        if let Some(e) = yours {
            c.tree.insert(copy_text(path), e.duplicate());
        }
        return Ok(());
    }
    if same_entry(yours, original) || same_entry(mine, yours) {
        if let Some(e) = mine {
            c.tree.insert(copy_text(path), e.duplicate());
        }
        return Ok(());
    }
    let a = read_side(system, root, original);
    let b = read_side(system, root, mine);
    let d = read_side(system, root, yours);
    if mine.is_none() || yours.is_none() || is_binary(a.as_slice()) || is_binary(b.as_slice())
        || is_binary(d.as_slice()) {
        match mine {
            Some(e) => c.tree.insert(copy_text(path), e.duplicate()),
            None => match yours {
                Some(e) => c.tree.insert(copy_text(path), e.duplicate()),
                None => {},
            },
        }
        c.stages.insert(copy_text(path), sides(original, mine, yours));
        return Ok(());
    }
    let (merged, conflicted) = merge_content(
        a.as_slice(),
        b.as_slice(),
        d.as_slice(),
        ours_label,
        theirs_label,
    );
    let hash = match write_blob(system, root, merged.as_slice()) {
        Ok(hash) => hash,
        Err(e) => return Err(e),
    };
    if conflicted {
        c.stages.insert(copy_text(path), sides(original, mine, yours));
    }
    let executable = (match mine {
        Some(e) => e.executable,
        None => false,
    }) || (match yours {
        Some(e) => e.executable,
        None => false,
    });
    c.tree.insert(copy_text(path), Entry { hash, executable, symlink: false });
    Ok(())
}

/// Combines `ours` and `theirs` against `base`, and merges file content where both sides changed.
pub fn combine(
    system: &mut System,
    root: &str,
    base: &Tree,
    ours: &Tree,
    theirs: &Tree,
    ours_label: &str,
    theirs_label: &str,
) -> (r: Result<Combined, Failed>)
    ensures
        (final(system)@, mix_of(r)) == mixed(
            old(system)@,
            root@,
            (base@, ours@, theirs@),
            (ours_label@, theirs_label@),
        ),
{
    let ghost trees = (base@, ours@, theirs@);
    let ghost labels = (ours_label@, theirs_label@);
    let ghost goal = mixed(system@, root@, trees, labels);
    let mut names = keys_of_either(base, ours);
    add_keys(&mut names, theirs);
    let mut c = Combined { tree: OrdMap::new(), stages: OrdMap::new() };
    assert(c.tree@ =~= seq![] && c.stages@ =~= seq![]);
    let mut i: usize = 0;
    while i < names.len()
        invariant
            i <= names@.len(),
            names@ == any_of_three(base@, ours@, theirs@),
            trees == (base@, ours@, theirs@),
            labels == (ours_label@, theirs_label@),
            goal == mixed(old(system)@, root@, trees, labels),
            goal == mixed_from(
                system@,
                root@,
                Mix { tree: c.tree@, stages: c.stages@ },
                names@,
                i as int,
                trees,
                labels,
            ),
        decreases names@.len() - i,
    {
        let path = names.key_at(i);
        let versions = (base.get(path), ours.get(path), theirs.get(path));
        assert(versions_at(base@, ours@, theirs@, path@) == (Versions {
            base: opt_record(versions.0),
            ours: opt_record(versions.1),
            theirs: opt_record(versions.2),
        }));
        match combine_path(system, root, &mut c, path, versions, ours_label, theirs_label) {
            Ok(()) => {},
            Err(error) => return Err(Failed { path: copy_text(path), error }),
        }
        i += 1;
    }
    Ok(c)
}

// ---------------------------------------------------------------------------
// What combining keeps
// ---------------------------------------------------------------------------

/// A path that our side did not touch takes the version of the other, without a conflict.
pub proof fn lemma_untouched_path(
    m: Machine,
    root: Seq<char>,
    x: Mix,
    path: Seq<char>,
    v: Versions,
    labels: (Seq<char>, Seq<char>),
)
    ensures
        v.ours == v.base ==> path_mixed(m, root, x, path, v, labels) == (
            m,
            Ok::<Mix, (Seq<char>, Refusal)>(settled_as(x, path, v.theirs)),
        ),
        v.theirs == v.base ==> path_mixed(m, root, x, path, v, labels) == (
            m,
            Ok::<Mix, (Seq<char>, Refusal)>(settled_as(x, path, v.ours)),
        ),
        v.ours == v.theirs ==> path_mixed(m, root, x, path, v, labels) == (
            m,
            Ok::<Mix, (Seq<char>, Refusal)>(settled_as(x, path, v.ours)),
        ),
{
}

/// The version that a path takes where at most one side touched it, or both in the same way.
pub open spec fn agreed(v: Versions) -> Option<Option<Record>> {
    if v.ours == v.base {
        Some(v.theirs)
    } else if v.theirs == v.base || v.ours == v.theirs {
        Some(v.ours)
    } else {
        None
    }
}

/// Whether a path is among the names from `i` on.
spec fn named_from(names: Names, i: int, path: Seq<char>) -> bool {
    exists|j: int| i <= j < names.len() && (#[trigger] names[j]).0 == path
}

proof fn lemma_one_path(
    m: Machine,
    root: Seq<char>,
    x: Mix,
    at: Seq<char>,
    v: Versions,
    labels: (Seq<char>, Seq<char>),
    path: Seq<char>,
)
    requires
        path_mixed(m, root, x, at, v, labels).1 is Ok,
    ensures
        ({
            let y = path_mixed(m, root, x, at, v, labels).1->Ok_0;
            &&& at != path ==> lookup(y.tree, path) == lookup(x.tree, path) && lookup(
                y.stages,
                path,
            ) == lookup(x.stages, path)
            &&& at == path ==> (agreed(v) matches Some(r) ==> lookup(y.stages, path) == lookup(
                x.stages,
                path,
            ) && lookup(y.tree, path) == (match r {
                Some(e) => Some(e),
                None => lookup(x.tree, path),
            }))
        }),
{
    let y = path_mixed(m, root, x, at, v, labels).1->Ok_0;
    if let Some(r) = v.ours {
        lemma_lookup_bind(x.tree, at, r, path);
    }
    if let Some(r) = v.theirs {
        lemma_lookup_bind(x.tree, at, r, path);
    }
    lemma_lookup_bind(x.stages, at, sides_of(v), path);
    if agreed(v) is None && v.ours is Some && v.theirs is Some {
        let data = merged_content(
            text_at(m, root, v.base),
            text_at(m, root, v.ours),
            text_at(m, root, v.theirs),
            labels,
        ).0;
        lemma_lookup_bind(
            x.tree,
            at,
            Record {
                hash: blob_id(data),
                executable: v.ours->0.executable || v.theirs->0.executable,
                symlink: false,
            },
            path,
        );
    }
}

proof fn lemma_mixed_from(
    m: Machine,
    root: Seq<char>,
    x: Mix,
    names: Names,
    i: int,
    trees: (Files, Files, Files),
    labels: (Seq<char>, Seq<char>),
    path: Seq<char>,
)
    requires
        0 <= i <= names.len(),
        ascending(names),
        mixed_from(m, root, x, names, i, trees, labels).1 is Ok,
    ensures
        ({
            let y = mixed_from(m, root, x, names, i, trees, labels).1->Ok_0;
            let v = versions_at(trees.0, trees.1, trees.2, path);
            &&& !named_from(names, i, path) ==> lookup(y.tree, path) == lookup(x.tree, path)
                && lookup(y.stages, path) == lookup(x.stages, path)
            &&& named_from(names, i, path) ==> (agreed(v) matches Some(r) ==> lookup(y.stages, path)
                == lookup(x.stages, path) && lookup(y.tree, path) == (match r {
                Some(e) => Some(e),
                None => lookup(x.tree, path),
            }))
        }),
    decreases names.len() - i,
{
    if i < names.len() {
        let at = names[i].0;
        let v = versions_at(trees.0, trees.1, trees.2, at);
        let (n, r) = path_mixed(m, root, x, at, v, labels);
        lemma_one_path(m, root, x, at, v, labels, path);
        lemma_mixed_from(n, root, r->Ok_0, names, i + 1, trees, labels, path);
        if at == path {
            assert(!named_from(names, i + 1, path)) by {
                if named_from(names, i + 1, path) {
                    let j = choose|j: int| i + 1 <= j < names.len() && (#[trigger] names[j]).0 == path;
                    assert(before(names[i].0, names[j].0));
                    lemma_before_irreflexive(path);
                }
            }
        } else {
            assert(named_from(names, i, path) == named_from(names, i + 1, path)) by {
                if named_from(names, i, path) {
                    let j = choose|j: int| i <= j < names.len() && (#[trigger] names[j]).0 == path;
                    assert(j != i);
                    assert(names[j].0 == path);
                }
            }
        }
    }
}

proof fn lemma_lookup_held<T>(t: Seq<(Seq<char>, T)>, path: Seq<char>)
    ensures
        lookup(t, path) is Some ==> exists|i: int| 0 <= i < t.len() && (#[trigger] t[i]).0 == path,
    decreases t.len(),
{
    if t.len() > 0 && t[0].0 != path {
        let rest = t.subrange(1, t.len() as int);
        lemma_lookup_held(rest, path);
        if lookup(rest, path) is Some {
            let i = choose|i: int| 0 <= i < rest.len() && (#[trigger] rest[i]).0 == path;
            assert(t[i + 1].0 == path);
        }
    }
}

/// Two trees that could be combined hold, for a path that only one of them touched or both in the
/// same way, exactly that version, and no conflict.
pub proof fn lemma_combined_path(
    m: Machine,
    root: Seq<char>,
    trees: (Files, Files, Files),
    labels: (Seq<char>, Seq<char>),
    path: Seq<char>,
)
    requires
        mixed(m, root, trees, labels).1 is Ok,
    ensures
        ({
            let y = mixed(m, root, trees, labels).1->Ok_0;
            agreed(versions_at(trees.0, trees.1, trees.2, path)) matches Some(r) ==> lookup(
                y.tree,
                path,
            ) == r && lookup(y.stages, path) is None
        }),
{
    let v = versions_at(trees.0, trees.1, trees.2, path);
    let names = any_of_three(trees.0, trees.1, trees.2);
    let none: Names = seq![];
    lemma_with_keys(none, trees.0, path);
    lemma_with_keys(with_keys(none, trees.0), trees.1, path);
    lemma_with_keys(with_keys(with_keys(none, trees.0), trees.1), trees.2, path);
    lemma_lookup_held(trees.0, path);
    lemma_lookup_held(trees.1, path);
    lemma_lookup_held(trees.2, path);
    lemma_lookup_held(names, path);
    let x = Mix { tree: seq![], stages: seq![] };
    lemma_mixed_from(m, root, x, names, 0, trees, labels, path);
    if !named_from(names, 0, path) {
        assert(lookup(names, path) is None);
        assert(v.base is None && v.ours is None && v.theirs is None);
    }
}

} // verus!
