//! Reports on commits and references: `git describe`, `git shortlog`, `git show-ref`,
//! `git symbolic-ref` and `git for-each-ref`.

use vstd::prelude::*;

use crate::common::done;
use crate::console::{
    ambiguous, ambiguous_argument, complained, misused, no_repo, printed, repo_error, usage, Done, Io, Screen,
};
use crate::flags::{expand_clusters, expanded};
use crate::history::{first_parent_history, first_parents, listed, reachable, reachable_history, Listed};
use crate::numbers::{decimal, format_usize, pad_left, padded_left};
use crate::objects::{short, short_id};
use crate::order::{bind, lookup, OrdMap};
use crate::records::{subject_of, Commit};
use crate::references::{expand_ref_format, last_part, ref_text, take_last_part};
use crate::repo::{
    annotation_of, find_repo_root, head_commit, head_id, head_on_branch, head_ref, head_reference, read_annotation,
    read_reference, ref_names, reference_names, reference_of, repo_root, set_head_to_branch,
};
use crate::revisions::{resolve_revision, revision};
use crate::syntax::{marks_read, read_marks, Marks};
use crate::system::{Machine, System};
use crate::text::{
    after_prefix, copy_text, copy_texts, ends, ends_with, join2, join3, join4, join5, lemma_texts_push, opt_text,
    same, starts, starts_with, strip_prefix, texts, trim_end_matches, without_trailing,
};

verus! {

/// The most commits that are looked at.
pub const MAX_REPORTED: usize = 10_000;

// ---------------------------------------------------------------------------
// git describe
// ---------------------------------------------------------------------------

/// What the options of `git describe` ask for.
#[derive(Clone, Copy)]
pub struct DescribeAsk {
    pub always: bool,
    pub lightweight: bool,
}

impl View for DescribeAsk {
    type V = DescribeAsk;

    open spec fn view(&self) -> DescribeAsk {
        *self
    }
}

impl Marks for DescribeAsk {
    open spec fn marked(asked: DescribeAsk, option: Seq<char>) -> Option<DescribeAsk> {
        if option == "--tags"@ {
            Some(DescribeAsk { lightweight: true, ..asked })
        } else if option == "--always"@ {
            Some(DescribeAsk { always: true, ..asked })
        } else if option == "--abbrev=0"@ || option == "--long"@ {
            Some(asked)
        } else {
            None
        }
    }

    fn mark(&mut self, option: &str) -> (r: bool) {
        if same(option, "--tags") {
            self.lightweight = true;
        } else if same(option, "--always") {
            self.always = true;
        } else if !same(option, "--abbrev=0") && !same(option, "--long") {
            return false;
        }
        true
    }
}

/// Tags by the commits that they stand on. Of two on one commit the later name is kept.
pub open spec fn tags_by_commit(m: Machine, root: Seq<char>, lightweight: bool, names: Seq<Seq<char>>) -> Seq<
    (Seq<char>, Seq<char>),
>
    decreases names.len(),
{
    if names.len() == 0 {
        seq![]
    } else {
        let tags = tags_by_commit(m, root, lightweight, names.drop_last());
        let tag = names.last();
        if lightweight || annotation_of(m, root, tag) is Some {
            match reference_of(m, root, "refs/tags/"@ + tag) {
                Some(id) => bind(tags, id, tag),
                None => tags,
            }
        } else {
            tags
        }
    }
}

fn find_tags(system: &System, root: &str, lightweight: bool, names: &[String]) -> (r: OrdMap<String>)
    ensures
        r@ == tags_by_commit(system@, root@, lightweight, texts(names@)),
{
    let ghost all = texts(names@);
    let mut tags: OrdMap<String> = OrdMap::new();
    let mut i: usize = 0;
    assert(tags@ =~= tags_by_commit(system@, root@, lightweight, all.take(0)));
    while i < names.len()
        invariant
            i <= names@.len(),
            all == texts(names@),
            tags@ == tags_by_commit(system@, root@, lightweight, all.take(i as int)),
        decreases names@.len() - i,
    {
        assert(all.take(i + 1).drop_last() =~= all.take(i as int));
        assert(all.take(i + 1).last() == names@[i as int]@);
        let tag = names[i].as_str();
        if lightweight || read_annotation(system, root, tag).is_some() {
            if let Some(id) = read_reference(system, root, join2("refs/tags/", tag).as_str()) {
                tags.insert(id, copy_text(tag));
            }
        }
        i += 1;
    }
    assert(all.take(i as int) =~= all);
    tags
}

/// The nearest tagged commit from `i` on: how far away it is, and its tag.
pub open spec fn nearest_tag(tags: Seq<(Seq<char>, Seq<char>)>, v: Seq<Listed>, i: int) -> Option<
    (int, Seq<char>),
>
    decreases v.len() - i,
{
    if i < 0 || i >= v.len() {
        None
    } else {
        match lookup(tags, v[i].0) {
            Some(tag) => Some((i, tag)),
            None => nearest_tag(tags, v, i + 1),
        }
    }
}

fn find_nearest(tags: &OrdMap<String>, v: &[(String, Commit)]) -> (r: Option<(usize, String)>)
    ensures
        match r {
            Some((i, tag)) => nearest_tag(tags@, listed(v@), 0) == Some((i as int, tag@)),
            None => nearest_tag(tags@, listed(v@), 0) is None,
        },
{
    let ghost all = listed(v@);
    let mut i: usize = 0;
    while i < v.len()
        invariant
            i <= v@.len(),
            all == listed(v@),
            nearest_tag(tags@, all, 0) == nearest_tag(tags@, all, i as int),
        decreases v@.len() - i,
    {
        assert(all.len() == v@.len());
        assert(all[i as int].0 == v@[i as int].0@);
        if let Some(tag) = tags.get(v[i].0.as_str()) {
            return Some((i, copy_text(tag.as_str())));
        }
        i += 1;
    }
    assert(all.len() == v@.len());
    None
}

/// Describing a commit by the nearest tag along first parents.
pub open spec fn described(m: Machine, s: Screen, root: Seq<char>, asked: DescribeAsk, start: Seq<char>) -> Done {
    let names = ref_names(m, root, "tags"@);
    match nearest_tag(
        tags_by_commit(m, root, asked.lightweight, names),
        first_parents(m, root, Some(start), MAX_REPORTED as nat, seq![]),
        0,
    ) {
        Some((distance, tag)) => Done {
            m,
            s: printed(
                s,
                if distance == 0 {
                    tag + "\n"@
                } else {
                    tag + "-"@ + decimal(distance as nat) + "-g"@ + short_id(start) + "\n"@
                },
            ),
            status: 0,
        },
        None => if asked.always {
            Done { m, s: printed(s, short_id(start) + "\n"@), status: 0 }
        } else {
            Done {
                m,
                s: complained(
                    s,
                    "fatal: No annotated tags can describe '"@ + start + "'.\n"@ + (if names.len()
                        > 0 {
                        "However, there were unannotated tags: try --tags.\n"@
                    } else {
                        ""@
                    }),
                ),
                status: 128,
            }
        },
    }
}

/// What `git describe` does.
pub open spec fn describe_done(m: Machine, s: Screen, args: Seq<Seq<char>>) -> Done {
    match repo_root(m) {
        None => no_repo(m, s),
        Some(root) => match marks_read::<DescribeAsk>(
            args,
            DescribeAsk { always: false, lightweight: false },
            seq![],
            0,
        ) {
            Err(option) => misused(m, s, "unsupported describe option: "@ + option),
            Ok((asked, operands)) => {
                let name = if operands.len() > 0 {
                    operands.last()
                } else {
                    "HEAD"@
                };
                match revision(m, root, name) {
                    None => ambiguous(m, s, name),
                    Some(start) => described(m, s, root, asked, start),
                }
            },
        },
    }
}

/// `git describe`: describes a commit by the nearest tag.
pub fn git_describe(system: &mut System, args: &[String], io: &mut Io) -> (r: i32)
    ensures
        done(final(system)@, final(io)@, r) == describe_done(old(system)@, old(io)@, texts(args@)),
{
    let root = match find_repo_root(system) {
        Some(root) => root,
        None => return repo_error(io),
    };
    let (asked, operands) = match read_marks(args, DescribeAsk { always: false, lightweight: false }) {
        Ok(x) => x,
        Err(option) => return usage(
            io,
            join2("unsupported describe option: ", option.as_str()).as_str(),
        ),
    };
    assert(texts(operands@).len() == operands@.len());
    let name = if operands.len() > 0 {
        assert(texts(operands@).last() == operands@[operands@.len() - 1]@);
        copy_text(operands[operands.len() - 1].as_str())
    } else {
        copy_text("HEAD")
    };
    let start = match resolve_revision(system, root.as_str(), name.as_str()) {
        Some(id) => id,
        None => return ambiguous_argument(io, name.as_str()),
    };
    let names = reference_names(system, root.as_str(), "tags");
    assert(texts(names@).len() == names@.len());
    let tags = find_tags(system, root.as_str(), asked.lightweight, names.as_slice());
    let v = first_parent_history(system, root.as_str(), start.as_str(), MAX_REPORTED);
    if let Some((distance, tag)) = find_nearest(&tags, v.as_slice()) {
        if distance == 0 {
            io.print(join2(tag.as_str(), "\n").as_str());
        } else {
            let mut line = join5(
                tag.as_str(),
                "-",
                format_usize(distance).as_str(),
                "-g",
                short(start.as_str()).as_str(),
            );
            line.append("\n");
            io.print(line.as_str());
        }
        return 0;
    }
    if asked.always {
        io.print(join2(short(start.as_str()).as_str(), "\n").as_str());
        return 0;
    }
    io.print_err(
        join4(
            "fatal: No annotated tags can describe '",
            start.as_str(),
            "'.\n",
            if names.len() > 0 {
                "However, there were unannotated tags: try --tags.\n"
            } else {
                ""
            },
        ).as_str(),
    );
    128
}

// ---------------------------------------------------------------------------
// git shortlog
// ---------------------------------------------------------------------------

/// What the options of `git shortlog` ask for.
#[derive(Clone, Copy)]
pub struct ShortlogAsk {
    pub summary: bool,
    pub numbered: bool,
    pub with_email: bool,
}

impl View for ShortlogAsk {
    type V = ShortlogAsk;

    open spec fn view(&self) -> ShortlogAsk {
        *self
    }
}

impl Marks for ShortlogAsk {
    open spec fn marked(asked: ShortlogAsk, option: Seq<char>) -> Option<ShortlogAsk> {
        if option == "-s"@ || option == "--summary"@ {
            Some(ShortlogAsk { summary: true, ..asked })
        } else if option == "-n"@ || option == "--numbered"@ {
            Some(ShortlogAsk { numbered: true, ..asked })
        } else if option == "-e"@ || option == "--email"@ {
            Some(ShortlogAsk { with_email: true, ..asked })
        } else if option == "--no-merges"@ {
            Some(asked)
        } else {
            None
        }
    }

    fn mark(&mut self, option: &str) -> (r: bool) {
        if same(option, "-s") || same(option, "--summary") {
            self.summary = true;
        } else if same(option, "-n") || same(option, "--numbered") {
            self.numbered = true;
        } else if same(option, "-e") || same(option, "--email") {
            self.with_email = true;
        } else if !same(option, "--no-merges") {
            return false;
        }
        true
    }
}

/// The subjects of one author's commits.
pub struct Subjects {
    pub list: Vec<String>,
}

impl View for Subjects {
    type V = Seq<Seq<char>>;

    open spec fn view(&self) -> Seq<Seq<char>> {
        texts(self.list@)
    }
}

/// Subjects by author.
pub type Ledger = Seq<(Seq<char>, Seq<Seq<char>>)>;

/// Who is counted as the author of a commit.
pub open spec fn counted_author(n: crate::records::Note, with_email: bool) -> Seq<char> {
    if with_email {
        n.author_name + " <"@ + n.author_email + ">"@
    } else {
        n.author_name
    }
}

/// The subjects of commits by author, each author's in the order of the commits.
pub open spec fn ledger_of(v: Seq<Listed>, with_email: bool) -> Ledger
    decreases v.len(),
{
    if v.len() == 0 {
        seq![]
    } else {
        let ledger = ledger_of(v.drop_last(), with_email);
        let author = counted_author(v.last().1, with_email);
        let subject = subject_of(v.last().1.message);
        bind(
            ledger,
            author,
            match lookup(ledger, author) {
                Some(list) => list.push(subject),
                None => seq![subject],
            },
        )
    }
}

fn keep_ledger(v: &[(String, Commit)], with_email: bool) -> (r: OrdMap<Subjects>)
    ensures
        r@ == ledger_of(listed(v@), with_email),
{
    let ghost all = listed(v@);
    let mut ledger: OrdMap<Subjects> = OrdMap::new();
    let mut i: usize = 0;
    assert(ledger@ =~= ledger_of(all.take(0), with_email));
    while i < v.len()
        invariant
            i <= v@.len(),
            all == listed(v@),
            ledger@ == ledger_of(all.take(i as int), with_email),
        decreases v@.len() - i,
    {
        broadcast use lemma_texts_push;

        assert(all.take(i + 1).drop_last() =~= all.take(i as int));
        assert(all.take(i + 1).last() == (v@[i as int].0@, v@[i as int].1@));
        let commit = &v[i].1;
        let author = if with_email {
            join4(commit.author_name.as_str(), " <", commit.author_email.as_str(), ">")
        } else {
            copy_text(commit.author_name.as_str())
        };
        let subject = commit.subject();
        let mut list: Vec<String> = Vec::new();
        assert(texts(list@) =~= seq![]);
        if let Some(known) = ledger.get(author.as_str()) {
            list = copy_texts(known.list.as_slice());
        }
        list.push(subject);
        assert(seq![].push(subject@) =~= seq![subject@]);
        ledger.insert(author, Subjects { list });
        i += 1;
    }
    assert(all.take(i as int) =~= all);
    ledger
}

/// `ranks` with row `x` put behind the rows that count at least as much.
pub open spec fn ranked_in(ledger: Ledger, ranks: Seq<int>, x: int) -> Seq<int>
    decreases ranks.len(),
{
    if ranks.len() == 0 || ledger[ranks.last()].1.len() >= ledger[x].1.len() {
        ranks.push(x)
    } else {
        ranked_in(ledger, ranks.drop_last(), x).push(ranks.last())
    }
}

/// The first `n` rows of a ledger, those that count more first.
pub open spec fn ranking(ledger: Ledger, n: int) -> Seq<int>
    decreases n,
{
    if n <= 0 {
        seq![]
    } else {
        ranked_in(ledger, ranking(ledger, n - 1), n - 1)
    }
}

/// The rows of a ledger in the order in which they are printed.
pub open spec fn row_order(ledger: Ledger, numbered: bool) -> Seq<int> {
    if numbered {
        ranking(ledger, ledger.len() as int)
    } else {
        Seq::new(ledger.len(), |i: int| i)
    }
}

/// Rows as numbers.
pub open spec fn numbers_of(v: Seq<usize>) -> Seq<int> {
    v.map_values(|x: usize| x as int)
}

fn rank_row(ledger: &OrdMap<Subjects>, ranks: &mut Vec<usize>, x: usize)
    requires
        x < ledger@.len(),
        forall|k: int| 0 <= k < old(ranks)@.len() ==> (#[trigger] old(ranks)@[k]) < ledger@.len(),
    ensures
        numbers_of(final(ranks)@) == ranked_in(ledger@, numbers_of(old(ranks)@), x as int),
        forall|k: int|
            0 <= k < final(ranks)@.len() ==> (#[trigger] final(ranks)@[k]) < ledger@.len(),
{
    let ghost all = numbers_of(ranks@);
    let ghost goal = ranked_in(ledger@, all, x as int);
    let mut i: usize = ranks.len();
    let count: usize = ledger.value_at(x).list.len();
    assert(count == ledger@[x as int].1.len());
    assert(all.take(all.len() as int) =~= all);
    assert(goal + all.subrange(all.len() as int, all.len() as int) =~= goal);
    while i > 0
        invariant
            i <= ranks@.len(),
            x < ledger@.len(),
            count == ledger@[x as int].1.len(),
            all == numbers_of(ranks@),
            ranks@ == old(ranks)@,
            forall|k: int| 0 <= k < ranks@.len() ==> (#[trigger] ranks@[k]) < ledger@.len(),
            goal == ranked_in(ledger@, all.take(i as int), x as int) + all.subrange(
                i as int,
                all.len() as int,
            ),
        ensures
            i <= ranks@.len(),
            goal == all.take(i as int).push(x as int) + all.subrange(i as int, all.len() as int),
        decreases i,
    {
        assert(all.take(i as int).last() == ranks@[i - 1]);
        let other: usize = ledger.value_at(ranks[i - 1]).list.len();
        assert(other == ledger@[ranks@[i - 1] as int].1.len());
        if other >= count {
            break ;
        }
        assert(all.take(i as int).drop_last() =~= all.take(i - 1));
        assert(ranked_in(ledger@, all.take(i - 1), x as int).push(all[i - 1]) + all.subrange(
            i as int,
            all.len() as int,
        ) =~= ranked_in(ledger@, all.take(i - 1), x as int) + all.subrange(
            i - 1,
            all.len() as int,
        ));
        i -= 1;
    }
    ranks.insert(i, x);
    assert(numbers_of(ranks@) =~= all.take(i as int).push(x as int) + all.subrange(
        i as int,
        all.len() as int,
    ));
}

fn rank_rows(ledger: &OrdMap<Subjects>, numbered: bool) -> (r: Vec<usize>)
    ensures
        numbers_of(r@) == row_order(ledger@, numbered),
        forall|k: int| 0 <= k < r@.len() ==> (#[trigger] r@[k]) < ledger@.len(),
{
    let mut ranks: Vec<usize> = Vec::new();
    let mut i: usize = 0;
    assert(numbers_of(ranks@) =~= seq![]);
    while i < ledger.len()
        invariant
            i <= ledger@.len(),
            numbered ==> numbers_of(ranks@) == ranking(ledger@, i as int),
            !numbered ==> numbers_of(ranks@) == Seq::new(i as nat, |k: int| k),
            forall|k: int| 0 <= k < ranks@.len() ==> (#[trigger] ranks@[k]) < ledger@.len(),
        decreases ledger@.len() - i,
    {
        if numbered {
            rank_row(ledger, &mut ranks, i);
        } else {
            let ghost was = ranks@;
            ranks.push(i);
            assert(numbers_of(was).len() == i);
            assert forall|k: int| 0 <= k < i + 1 implies numbers_of(ranks@)[k] == k by {
                if k < i {
                    assert(numbers_of(was)[k] == k);
                }
            }
            assert(numbers_of(ranks@) =~= Seq::new((i + 1) as nat, |k: int| k));
        }
        i += 1;
    }
    ranks
}

/// The lines of subjects.
pub open spec fn subject_lines(v: Seq<Seq<char>>) -> Seq<char>
    decreases v.len(),
{
    if v.len() == 0 {
        ""@
    } else {
        subject_lines(v.drop_last()) + ("      "@ + v.last() + "\n"@)
    }
}

/// One author's part of the report.
pub open spec fn author_part(author: Seq<char>, subjects: Seq<Seq<char>>, summary: bool) -> Seq<char> {
    if summary {
        pad_left(decimal(subjects.len()), ' ', 6) + "\t"@ + author + "\n"@
    } else {
        author + " ("@ + decimal(subjects.len()) + "):\n"@ + subject_lines(subjects) + "\n"@
    }
}

/// The report on authors.
pub open spec fn author_parts(ledger: Ledger, order: Seq<int>, summary: bool) -> Seq<char>
    decreases order.len(),
{
    if order.len() == 0 {
        ""@
    } else {
        author_parts(ledger, order.drop_last(), summary) + author_part(
            ledger[order.last()].0,
            ledger[order.last()].1,
            summary,
        )
    }
}

fn write_author(author: &str, subjects: &[String], summary: bool) -> (r: String)
    ensures
        r@ == author_part(author@, texts(subjects@), summary),
{
    let ghost all = texts(subjects@);
    assert(all.len() == subjects@.len());
    let n = format_usize(subjects.len());
    if summary {
        return join4(padded_left(n.as_str(), ' ', 6).as_str(), "\t", author, "\n");
    }
    let mut body = copy_text("");
    let mut i: usize = 0;
    while i < subjects.len()
        invariant
            i <= subjects@.len(),
            all == texts(subjects@),
            body@ == subject_lines(all.take(i as int)),
        decreases subjects@.len() - i,
    {
        assert(all.take(i + 1).drop_last() =~= all.take(i as int));
        assert(all.take(i + 1).last() == subjects@[i as int]@);
        body.append(join3("      ", subjects[i].as_str(), "\n").as_str());
        i += 1;
    }
    assert(all.take(i as int) =~= all);
    let mut out = join5(author, " (", n.as_str(), "):\n", body.as_str());
    out.append("\n");
    out
}

/// The ids of revisions from `i` on, or the one that names nothing.
pub open spec fn resolved_all(m: Machine, root: Seq<char>, v: Seq<Seq<char>>, ids: Seq<Seq<char>>, i: int) -> Result<
    Seq<Seq<char>>,
    Seq<char>,
>
    decreases v.len() - i,
{
    if i < 0 || i >= v.len() {
        Ok(ids)
    } else {
        match revision(m, root, v[i]) {
            Some(id) => resolved_all(m, root, v, ids.push(id), i + 1),
            None => Err(v[i]),
        }
    }
}

fn resolve_each(system: &System, root: &str, v: &[String]) -> (r: Result<Vec<String>, String>)
    ensures
        match r {
            Ok(ids) => resolved_all(system@, root@, texts(v@), seq![], 0) == Ok::<
                Seq<Seq<char>>,
                Seq<char>,
            >(texts(ids@)),
            Err(e) => resolved_all(system@, root@, texts(v@), seq![], 0) == Err::<
                Seq<Seq<char>>,
                Seq<char>,
            >(e@),
        },
{
    let ghost all = texts(v@);
    let mut ids: Vec<String> = Vec::new();
    let mut i: usize = 0;
    assert(texts(ids@) =~= seq![]);
    let ghost goal = resolved_all(system@, root@, all, seq![], 0);
    while i < v.len()
        invariant
            i <= v@.len(),
            all == texts(v@),
            goal == resolved_all(system@, root@, all, seq![], 0),
            goal == resolved_all(system@, root@, all, texts(ids@), i as int),
        decreases v@.len() - i,
    {
        broadcast use lemma_texts_push;

        assert(all.len() == v@.len());
        assert(all[i as int] == v@[i as int]@);
        match resolve_revision(system, root, v[i].as_str()) {
            Some(id) => ids.push(id),
            None => return Err(copy_text(v[i].as_str())),
        }
        i += 1;
    }
    assert(all.len() == v@.len());
    Ok(ids)
}

/// The report on the authors of what can be reached.
pub open spec fn shortlog_text(m: Machine, root: Seq<char>, asked: ShortlogAsk, starts: Seq<Seq<char>>) -> Seq<
    char,
> {
    let ledger = ledger_of(
        reachable(m, root, starts, MAX_REPORTED as nat),
        asked.with_email,
    );
    author_parts(ledger, row_order(ledger, asked.numbered), asked.summary)
}

/// What `git shortlog` does.
pub open spec fn shortlog_done(m: Machine, s: Screen, args: Seq<Seq<char>>) -> Done {
    match repo_root(m) {
        None => no_repo(m, s),
        Some(root) => match marks_read::<ShortlogAsk>(
            expanded(args, "sne"@),
            ShortlogAsk { summary: false, numbered: false, with_email: false },
            seq![],
            0,
        ) {
            Err(option) => misused(m, s, "unsupported shortlog option: "@ + option),
            Ok((asked, operands)) => {
                let starts = if operands.len() == 0 {
                    match head_id(m, root) {
                        Some(id) => Ok::<Seq<Seq<char>>, Seq<char>>(seq![id]),
                        None => Ok(seq![]),
                    }
                } else {
                    resolved_all(m, root, operands, seq![], 0)
                };
                match starts {
                    Err(e) => ambiguous(m, s, e),
                    Ok(ids) => if ids.len() == 0 {
                        Done { m, s, status: 0 }
                    } else {
                        Done { m, s: printed(s, shortlog_text(m, root, asked, ids)), status: 0 }
                    },
                }
            },
        },
    }
}

/// `git shortlog`: commits by author.
pub fn git_shortlog(system: &mut System, args: &[String], io: &mut Io) -> (r: i32)
    ensures
        done(final(system)@, final(io)@, r) == shortlog_done(old(system)@, old(io)@, texts(args@)),
{
    let root = match find_repo_root(system) {
        Some(root) => root,
        None => return repo_error(io),
    };
    let split = expand_clusters(args, "sne");
    let begin = ShortlogAsk { summary: false, numbered: false, with_email: false };
    let (asked, operands) = match read_marks(split.as_slice(), begin) {
        Ok(x) => x,
        Err(option) => return usage(
            io,
            join2("unsupported shortlog option: ", option.as_str()).as_str(),
        ),
    };
    assert(texts(operands@).len() == operands@.len());
    let ids = if operands.len() == 0 {
        let mut ids: Vec<String> = Vec::new();
        assert(texts(ids@) =~= seq![]);
        if let Some(id) = head_commit(system, root.as_str()) {
            ids.push(id);
            assert(texts(ids@) =~= seq![id@]);
        }
        ids
    } else {
        match resolve_each(system, root.as_str(), operands.as_slice()) {
            Ok(ids) => ids,
            Err(e) => return ambiguous_argument(io, e.as_str()),
        }
    };
    assert(texts(ids@).len() == ids@.len());
    if ids.len() == 0 {
        return 0;
    }
    let v = reachable_history(system, root.as_str(), ids.as_slice(), MAX_REPORTED);
    let ledger = keep_ledger(v.as_slice(), asked.with_email);
    let order = rank_rows(&ledger, asked.numbered);
    let ghost all = numbers_of(order@);
    let mut out = copy_text("");
    let mut i: usize = 0;
    while i < order.len()
        invariant
            i <= order@.len(),
            all == numbers_of(order@),
            forall|k: int| 0 <= k < order@.len() ==> (#[trigger] order@[k]) < ledger@.len(),
            out@ == author_parts(ledger@, all.take(i as int), asked.summary),
        decreases order@.len() - i,
    {
        assert(all.take(i + 1).drop_last() =~= all.take(i as int));
        assert(all.take(i + 1).last() == order@[i as int]);
        let k: usize = order[i];
        let part = write_author(
            ledger.key_at(k),
            ledger.value_at(k).list.as_slice(),
            asked.summary,
        );
        out.append(part.as_str());
        i += 1;
    }
    assert(all.take(i as int) =~= all);
    io.print(out.as_str());
    0
}

/// Whether rows stand in an order in which none counts more than one before it.
pub open spec fn counted_down(ledger: Ledger, order: Seq<int>) -> bool {
    forall|i: int, j: int|
        0 <= i <= j < order.len() ==> ledger[#[trigger] order[i]].1.len() >= ledger[
        #[trigger] order[j]].1.len()
}

proof fn lemma_ranked_in(ledger: Ledger, ranks: Seq<int>, x: int)
    requires
        counted_down(ledger, ranks),
    ensures
        counted_down(ledger, ranked_in(ledger, ranks, x)),
        forall|i: int|
            0 <= i < ranked_in(ledger, ranks, x).len() ==> (#[trigger] ranked_in(
                ledger,
                ranks,
                x,
            )[i] == x || ranks.contains(ranked_in(ledger, ranks, x)[i])),
    decreases ranks.len(),
{
    let r = ranked_in(ledger, ranks, x);
    if ranks.len() == 0 || ledger[ranks.last()].1.len() >= ledger[x].1.len() {
        assert forall|i: int, j: int| 0 <= i <= j < r.len() implies ledger[#[trigger] r[i]].1.len()
            >= ledger[#[trigger] r[j]].1.len() by {
            if j == ranks.len() && i < ranks.len() {
                assert(ledger[ranks[i]].1.len() >= ledger[ranks[ranks.len() - 1]].1.len());
            }
        }
        assert forall|i: int| 0 <= i < r.len() implies (#[trigger] r[i] == x || ranks.contains(
            r[i],
        )) by {
            if i < ranks.len() {
                assert(ranks[i] == r[i]);
            }
        }
    } else {
        let less = ranks.drop_last();
        lemma_ranked_in(ledger, less, x);
        let inner = ranked_in(ledger, less, x);
        assert forall|i: int| 0 <= i < inner.len() implies ledger[#[trigger] inner[i]].1.len()
            >= ledger[ranks.last()].1.len() by {
            if inner[i] != x {
                assert(less.contains(inner[i]));
                let k = choose|k: int| 0 <= k < less.len() && less[k] == inner[i];
                assert(ledger[ranks[k]].1.len() >= ledger[ranks[ranks.len() - 1]].1.len());
            }
        }
        assert forall|i: int, j: int| 0 <= i <= j < r.len() implies ledger[#[trigger] r[i]].1.len()
            >= ledger[#[trigger] r[j]].1.len() by {
            if j < inner.len() {
                assert(r[i] == inner[i] && r[j] == inner[j]);
            } else if i < inner.len() {
                assert(r[i] == inner[i]);
            }
        }
        assert forall|i: int| 0 <= i < r.len() implies (#[trigger] r[i] == x || ranks.contains(
            r[i],
        )) by {
            if i < inner.len() {
                assert(r[i] == inner[i]);
                if inner[i] != x {
                    assert(less.contains(inner[i]));
                    let k = choose|k: int| 0 <= k < less.len() && less[k] == inner[i];
                    assert(ranks[k] == r[i]);
                }
            } else {
                assert(ranks[ranks.len() - 1] == r[i]);
            }
        }
    }
}

proof fn lemma_ranking(ledger: Ledger, n: int)
    ensures
        counted_down(ledger, ranking(ledger, n)),
    decreases n,
{
    if n > 0 {
        lemma_ranking(ledger, n - 1);
        lemma_ranked_in(ledger, ranking(ledger, n - 1), n - 1);
    }
}

/// In a numbered report no author comes behind one with fewer commits.
pub proof fn lemma_numbered_counts_down(ledger: Ledger)
    ensures
        counted_down(ledger, row_order(ledger, true)),
{
    lemma_ranking(ledger, ledger.len() as int);
}

// ---------------------------------------------------------------------------
// References
// ---------------------------------------------------------------------------

/// The references of a kind, by full name, with what they point at, and those that are known.
pub open spec fn references_with(
    m: Machine,
    root: Seq<char>,
    known: Seq<(Seq<char>, Seq<char>)>,
    prefix: Seq<char>,
    names: Seq<Seq<char>>,
) -> Seq<(Seq<char>, Seq<char>)>
    decreases names.len(),
{
    if names.len() == 0 {
        known
    } else {
        let all = references_with(m, root, known, prefix, names.drop_last());
        match reference_of(m, root, prefix + names.last()) {
            Some(id) => bind(all, prefix + names.last(), id),
            None => all,
        }
    }
}

/// Every branch and every tag by full name, with what it points at.
pub open spec fn references(m: Machine, root: Seq<char>) -> Seq<(Seq<char>, Seq<char>)> {
    references_with(
        m,
        root,
        references_with(m, root, seq![], "refs/heads/"@, ref_names(m, root, "heads"@)),
        "refs/tags/"@,
        ref_names(m, root, "tags"@),
    )
}

fn add_references(system: &System, root: &str, known: &mut OrdMap<String>, prefix: &str, names: &[String])
    ensures
        final(known)@ == references_with(system@, root@, old(known)@, prefix@, texts(names@)),
{
    let ghost all = texts(names@);
    let mut i: usize = 0;
    while i < names.len()
        invariant
            i <= names@.len(),
            all == texts(names@),
            known@ == references_with(system@, root@, old(known)@, prefix@, all.take(i as int)),
        decreases names@.len() - i,
    {
        assert(all.take(i + 1).drop_last() =~= all.take(i as int));
        assert(all.take(i + 1).last() == names@[i as int]@);
        let full = join2(prefix, names[i].as_str());
        if let Some(id) = read_reference(system, root, full.as_str()) {
            known.insert(full, id);
        }
        i += 1;
    }
    assert(all.take(i as int) =~= all);
}

/// Every branch and every tag by full name, with what it points at.
pub fn all_references(system: &System, root: &str) -> (r: OrdMap<String>)
    ensures
        r@ == references(system@, root@),
{
    let mut known: OrdMap<String> = OrdMap::new();
    assert(known@ =~= seq![]);
    add_references(
        system,
        root,
        &mut known,
        "refs/heads/",
        reference_names(system, root, "heads").as_slice(),
    );
    add_references(
        system,
        root,
        &mut known,
        "refs/tags/",
        reference_names(system, root, "tags").as_slice(),
    );
    known
}

// ---------------------------------------------------------------------------
// git show-ref
// ---------------------------------------------------------------------------

/// What the options of `git show-ref` ask for.
#[derive(Clone, Copy)]
pub struct ShowRefAsk {
    pub heads_only: bool,
    pub tags_only: bool,
    pub verify: bool,
}

impl View for ShowRefAsk {
    type V = ShowRefAsk;

    open spec fn view(&self) -> ShowRefAsk {
        *self
    }
}

impl Marks for ShowRefAsk {
    open spec fn marked(asked: ShowRefAsk, option: Seq<char>) -> Option<ShowRefAsk> {
        if option == "--heads"@ {
            Some(ShowRefAsk { heads_only: true, ..asked })
        } else if option == "--tags"@ {
            Some(ShowRefAsk { tags_only: true, ..asked })
        } else if option == "--verify"@ {
            Some(ShowRefAsk { verify: true, ..asked })
        } else if option == "-q"@ || option == "--quiet"@ || option == "--hash"@ || option == "-d"@
            || option == "--dereference"@ {
            Some(asked)
        } else {
            None
        }
    }

    fn mark(&mut self, option: &str) -> (r: bool) {
        if same(option, "--heads") {
            self.heads_only = true;
        } else if same(option, "--tags") {
            self.tags_only = true;
        } else if same(option, "--verify") {
            self.verify = true;
        } else if !same(option, "-q") && !same(option, "--quiet") && !same(option, "--hash") && !same(
            option,
            "-d",
        ) && !same(option, "--dereference") {
            return false;
        }
        true
    }
}

/// Whether some pattern names a reference: in full or, unless that is asked for, by its end.
pub open spec fn some_names(patterns: Seq<Seq<char>>, verify: bool, name: Seq<char>) -> bool {
    exists|i: int|
        0 <= i < patterns.len() && (name == #[trigger] patterns[i] || (!verify && ends(
            name,
            "/"@ + patterns[i],
        )))
}

/// Whether a reference is listed.
pub open spec fn ref_listed(asked: ShowRefAsk, patterns: Seq<Seq<char>>, name: Seq<char>) -> bool {
    &&& asked.heads_only ==> starts(name, "refs/heads/"@)
    &&& asked.tags_only ==> starts(name, "refs/tags/"@)
    &&& patterns.len() == 0 || some_names(patterns, asked.verify, name)
}

fn is_listed(asked: ShowRefAsk, patterns: &[String], name: &str) -> (r: bool)
    ensures
        r == ref_listed(asked, texts(patterns@), name@),
{
    if asked.heads_only && !starts_with(name, "refs/heads/") {
        return false;
    }
    if asked.tags_only && !starts_with(name, "refs/tags/") {
        return false;
    }
    let ghost all = texts(patterns@);
    assert(all.len() == patterns@.len());
    if patterns.len() == 0 {
        return true;
    }
    let mut i: usize = 0;
    while i < patterns.len()
        invariant
            i <= patterns@.len(),
            all == texts(patterns@),
            asked.heads_only ==> starts(name@, "refs/heads/"@),
            asked.tags_only ==> starts(name@, "refs/tags/"@),
            forall|k: int|
                0 <= k < i ==> !(name@ == #[trigger] all[k] || (!asked.verify && ends(
                    name@,
                    "/"@ + all[k],
                ))),
        decreases patterns@.len() - i,
    {
        assert(all.len() == patterns@.len());
        assert(all[i as int] == patterns@[i as int]@);
        let p = patterns[i].as_str();
        if same(name, p) || (!asked.verify && ends_with(name, join2("/", p).as_str())) {
            assert(some_names(all, asked.verify, name@));
            return true;
        }
        i += 1;
    }
    assert(all.len() == patterns@.len());
    false
}

/// The lines of the references that are listed, and whether there are any.
pub open spec fn ref_lines(asked: ShowRefAsk, patterns: Seq<Seq<char>>, v: Seq<(Seq<char>, Seq<char>)>) -> (
    Seq<char>,
    bool,
)
    decreases v.len(),
{
    if v.len() == 0 {
        (""@, false)
    } else {
        let (out, any) = ref_lines(asked, patterns, v.drop_last());
        if ref_listed(asked, patterns, v.last().0) {
            (out + (v.last().1 + " "@ + v.last().0 + "\n"@), true)
        } else {
            (out, any)
        }
    }
}

/// What `git show-ref` does.
pub open spec fn show_ref_done(m: Machine, s: Screen, args: Seq<Seq<char>>) -> Done {
    match repo_root(m) {
        None => no_repo(m, s),
        Some(root) => match marks_read::<ShowRefAsk>(
            args,
            ShowRefAsk { heads_only: false, tags_only: false, verify: false },
            seq![],
            0,
        ) {
            Err(option) => misused(m, s, "unsupported show-ref option: "@ + option),
            Ok((asked, patterns)) => {
                let (out, any) = ref_lines(asked, patterns, references(m, root));
                Done {
                    m,
                    s: printed(s, out),
                    status: if any {
                        0
                    } else {
                        1
                    },
                }
            },
        },
    }
}

/// `git show-ref`: lists references with what they point at.
pub fn git_show_ref(system: &mut System, args: &[String], io: &mut Io) -> (r: i32)
    ensures
        done(final(system)@, final(io)@, r) == show_ref_done(old(system)@, old(io)@, texts(args@)),
{
    let root = match find_repo_root(system) {
        Some(root) => root,
        None => return repo_error(io),
    };
    let begin = ShowRefAsk { heads_only: false, tags_only: false, verify: false };
    let (asked, patterns) = match read_marks(args, begin) {
        Ok(x) => x,
        Err(option) => return usage(
            io,
            join2("unsupported show-ref option: ", option.as_str()).as_str(),
        ),
    };
    let all = all_references(system, root.as_str());
    let mut out = copy_text("");
    let mut any = false;
    let mut i: usize = 0;
    while i < all.len()
        invariant
            i <= all@.len(),
            (out@, any) == ref_lines(asked, texts(patterns@), all@.take(i as int)),
        decreases all@.len() - i,
    {
        assert(all@.take(i + 1).drop_last() =~= all@.take(i as int));
        assert(all@.take(i + 1).last() == all@[i as int]);
        let name = all.key_at(i);
        if is_listed(asked, patterns.as_slice(), name) {
            any = true;
            out.append(join4(all.value_at(i).as_str(), " ", name, "\n").as_str());
        }
        i += 1;
    }
    assert(all@.take(i as int) =~= all@);
    io.print(out.as_str());
    if any {
        0
    } else {
        1
    }
}

// ---------------------------------------------------------------------------
// git symbolic-ref
// ---------------------------------------------------------------------------

/// What the options of `git symbolic-ref` ask for.
#[derive(Clone, Copy)]
pub struct SymbolicAsk {
    pub short: bool,
}

impl View for SymbolicAsk {
    type V = SymbolicAsk;

    open spec fn view(&self) -> SymbolicAsk {
        *self
    }
}

impl Marks for SymbolicAsk {
    open spec fn marked(asked: SymbolicAsk, option: Seq<char>) -> Option<SymbolicAsk> {
        if option == "--short"@ {
            Some(SymbolicAsk { short: true })
        } else if option == "-q"@ || option == "--quiet"@ {
            Some(asked)
        } else {
            None
        }
    }

    fn mark(&mut self, option: &str) -> (r: bool) {
        if same(option, "--short") {
            self.short = true;
        } else if !same(option, "-q") && !same(option, "--quiet") {
            return false;
        }
        true
    }
}

/// Reading HEAD, or pointing it at a branch.
pub open spec fn head_pointed(m: Machine, s: Screen, root: Seq<char>, asked: SymbolicAsk, v: Seq<Seq<char>>) -> Done {
    if v.len() == 1 && v[0] == "HEAD"@ {
        match head_ref(m, root) {
            Some(name) => Done {
                m,
                s: printed(
                    s,
                    (if asked.short {
                        last_part(name)
                    } else {
                        name
                    }) + "\n"@,
                ),
                status: 0,
            },
            None => Done {
                m,
                s: complained(s, "fatal: ref HEAD is not a symbolic ref\n"@),
                status: 1,
            },
        }
    } else if v.len() == 2 && v[0] == "HEAD"@ {
        match after_prefix(v[1], "refs/heads/"@) {
            Some(branch) => match head_on_branch(m, root, branch, ""@) {
                (n, Ok(())) => Done { m: n, s, status: 0 },
                (n, Err(_)) => Done { m: n, s, status: 1 },
            },
            None => misused(m, s, "only refs/heads/* can be pointed at by HEAD"@),
        }
    } else {
        misused(m, s, "usage: git symbolic-ref [--short] HEAD [REF]"@)
    }
}

/// What `git symbolic-ref` does.
pub open spec fn symbolic_ref_done(m: Machine, s: Screen, args: Seq<Seq<char>>) -> Done {
    match repo_root(m) {
        None => no_repo(m, s),
        Some(root) => match marks_read::<SymbolicAsk>(args, SymbolicAsk { short: false }, seq![], 0) {
            Err(option) => misused(m, s, "unsupported symbolic-ref option: "@ + option),
            Ok((asked, operands)) => head_pointed(m, s, root, asked, operands),
        },
    }
}

/// `git symbolic-ref`: says which branch HEAD is on, or puts it on one.
pub fn git_symbolic_ref(system: &mut System, args: &[String], io: &mut Io) -> (r: i32)
    ensures
        done(final(system)@, final(io)@, r) == symbolic_ref_done(
            old(system)@,
            old(io)@,
            texts(args@),
        ),
{
    let root = match find_repo_root(system) {
        Some(root) => root,
        None => return repo_error(io),
    };
    let (asked, v) = match read_marks(args, SymbolicAsk { short: false }) {
        Ok(x) => x,
        Err(option) => return usage(
            io,
            join2("unsupported symbolic-ref option: ", option.as_str()).as_str(),
        ),
    };
    let ghost all = texts(v@);
    assert(all.len() == v@.len());
    assert(v@.len() > 0 ==> all[0] == v@[0]@);
    assert(v@.len() > 1 ==> all[1] == v@[1]@);
    if v.len() == 1 && same(v[0].as_str(), "HEAD") {
        return match head_reference(system, root.as_str()) {
            Some(name) => {
                let shown = if asked.short {
                    take_last_part(name.as_str())
                } else {
                    name
                };
                io.print(join2(shown.as_str(), "\n").as_str());
                0
            },
            None => {
                io.print_err("fatal: ref HEAD is not a symbolic ref\n");
                1
            },
        };
    }
    if v.len() == 2 && same(v[0].as_str(), "HEAD") {
        return match strip_prefix(v[1].as_str(), "refs/heads/") {
            Some(branch) => match set_head_to_branch(system, root.as_str(), branch.as_str(), "") {
                Ok(()) => 0,
                Err(_) => 1,
            },
            None => usage(io, "only refs/heads/* can be pointed at by HEAD"),
        };
    }
    usage(io, "usage: git symbolic-ref [--short] HEAD [REF]")
}

// ---------------------------------------------------------------------------
// git for-each-ref
// ---------------------------------------------------------------------------

/// What the arguments of `git for-each-ref` from `i` on ask for: a template, and prefixes; or the
/// option that is unknown.
pub open spec fn each_ref_words(
    args: Seq<Seq<char>>,
    format: Option<Seq<char>>,
    prefixes: Seq<Seq<char>>,
    i: int,
) -> Result<(Option<Seq<char>>, Seq<Seq<char>>), Seq<char>>
    decreases args.len() - i,
{
    if i < 0 || i >= args.len() {
        Ok((format, prefixes))
    } else if args[i] == "--format"@ {
        if i + 1 < args.len() {
            each_ref_words(args, Some(args[i + 1]), prefixes, i + 2)
        } else {
            Ok((None, prefixes))
        }
    } else {
        match after_prefix(args[i], "--format="@) {
            Some(f) => each_ref_words(args, Some(f), prefixes, i + 1),
            None => if starts(args[i], "--count="@) || starts(args[i], "--sort="@) {
                each_ref_words(args, format, prefixes, i + 1)
            } else if starts(args[i], "-"@) {
                Err(args[i])
            } else {
                each_ref_words(
                    args,
                    format,
                    prefixes.push(without_trailing(args[i], '*')),
                    i + 1,
                )
            },
        }
    }
}

fn read_each_ref(args: &[String]) -> (r: Result<(Option<String>, Vec<String>), String>)
    ensures
        match r {
            Ok((f, p)) => each_ref_words(texts(args@), None, seq![], 0) == Ok::<
                (Option<Seq<char>>, Seq<Seq<char>>),
                Seq<char>,
            >((opt_text(f), texts(p@))),
            Err(e) => each_ref_words(texts(args@), None, seq![], 0) == Err::<
                (Option<Seq<char>>, Seq<Seq<char>>),
                Seq<char>,
            >(e@),
        },
{
    let ghost all = texts(args@);
    let mut format: Option<String> = None;
    let mut prefixes: Vec<String> = Vec::new();
    let mut i: usize = 0;
    assert(texts(prefixes@) =~= seq![]);
    let ghost goal = each_ref_words(all, None, seq![], 0);
    while i < args.len()
        invariant
            i <= args@.len(),
            all == texts(args@),
            goal == each_ref_words(all, None, seq![], 0),
            goal == each_ref_words(all, opt_text(format), texts(prefixes@), i as int),
        decreases args@.len() - i,
    {
        broadcast use lemma_texts_push;

        assert(all.len() == args@.len());
        assert(all[i as int] == args@[i as int]@);
        let a = args[i].as_str();
        if same(a, "--format") {
            if args.len() - i > 1 {
                assert(all[i + 1] == args@[i + 1]@);
                format = Some(copy_text(args[i + 1].as_str()));
                i += 1;
            } else {
                return Ok((None, prefixes));
            }
        } else if let Some(f) = strip_prefix(a, "--format=") {
            format = Some(f);
        } else if starts_with(a, "--count=") || starts_with(a, "--sort=") {
        } else if starts_with(a, "-") {
            return Err(copy_text(a));
        } else {
            prefixes.push(trim_end_matches(a, '*'));
        }
        i += 1;
    }
    assert(all.len() == args@.len());
    Ok((format, prefixes))
}

/// Whether a name starts with one of the prefixes.
pub open spec fn some_starts(prefixes: Seq<Seq<char>>, name: Seq<char>) -> bool {
    exists|i: int| 0 <= i < prefixes.len() && starts(name, #[trigger] prefixes[i])
}

fn any_starts(prefixes: &[String], name: &str) -> (r: bool)
    ensures
        r == some_starts(texts(prefixes@), name@),
{
    let ghost all = texts(prefixes@);
    let mut i: usize = 0;
    while i < prefixes.len()
        invariant
            i <= prefixes@.len(),
            all == texts(prefixes@),
            forall|k: int| 0 <= k < i ==> !starts(name@, #[trigger] all[k]),
        decreases prefixes@.len() - i,
    {
        assert(all.len() == prefixes@.len());
        assert(all[i as int] == prefixes@[i as int]@);
        if starts_with(name, prefixes[i].as_str()) {
            return true;
        }
        i += 1;
    }
    assert(all.len() == prefixes@.len());
    false
}

/// Printing the references from `i` on by a template.
pub open spec fn each_printed(
    m: Machine,
    s: Screen,
    format: Seq<char>,
    prefixes: Seq<Seq<char>>,
    v: Seq<(Seq<char>, Seq<char>)>,
    i: int,
) -> Done
    decreases v.len() - i,
{
    if i < 0 || i >= v.len() {
        Done { m, s, status: 0 }
    } else if prefixes.len() > 0 && !some_starts(prefixes, v[i].0) {
        each_printed(m, s, format, prefixes, v, i + 1)
    } else {
        match ref_text(format, v[i].0, v[i].1) {
            Some(line) => each_printed(m, printed(s, line + "\n"@), format, prefixes, v, i + 1),
            None => misused(m, s, "unsupported for-each-ref format: "@ + format),
        }
    }
}

/// The template that is used where none is given.
pub open spec fn usual_format() -> Seq<char> {
    "%(objectname) %(objecttype)\t%(refname)"@
}

/// What `git for-each-ref` does.
pub open spec fn for_each_ref_done(m: Machine, s: Screen, args: Seq<Seq<char>>) -> Done {
    match repo_root(m) {
        None => no_repo(m, s),
        Some(root) => match each_ref_words(args, None, seq![], 0) {
            Err(option) => misused(m, s, "unsupported for-each-ref option: "@ + option),
            Ok((format, prefixes)) => each_printed(
                m,
                s,
                match format {
                    Some(f) => f,
                    None => usual_format(),
                },
                prefixes,
                references(m, root),
                0,
            ),
        },
    }
}

/// `git for-each-ref`: prints references by a template.
pub fn git_for_each_ref(system: &mut System, args: &[String], io: &mut Io) -> (r: i32)
    ensures
        done(final(system)@, final(io)@, r) == for_each_ref_done(
            old(system)@,
            old(io)@,
            texts(args@),
        ),
{
    let root = match find_repo_root(system) {
        Some(root) => root,
        None => return repo_error(io),
    };
    let (given, prefixes) = match read_each_ref(args) {
        Ok(x) => x,
        Err(option) => return usage(
            io,
            join2("unsupported for-each-ref option: ", option.as_str()).as_str(),
        ),
    };
    let format = match given {
        Some(f) => f,
        None => copy_text("%(objectname) %(objecttype)\t%(refname)"),
    };
    assert(texts(prefixes@).len() == prefixes@.len());
    let v = all_references(system, root.as_str());
    let ghost goal = each_printed(system@, io@, format@, texts(prefixes@), v@, 0);
    assert(goal == for_each_ref_done(old(system)@, old(io)@, texts(args@)));
    let mut i: usize = 0;
    while i < v.len()
        invariant
            i <= v@.len(),
            texts(prefixes@).len() == prefixes@.len(),
            system@ == old(system)@,
            goal == for_each_ref_done(old(system)@, old(io)@, texts(args@)),
            goal == each_printed(system@, io@, format@, texts(prefixes@), v@, i as int),
        decreases v@.len() - i,
    {
        let name = v.key_at(i);
        if prefixes.len() == 0 || any_starts(prefixes.as_slice(), name) {
            match expand_ref_format(format.as_str(), name, v.value_at(i).as_str()) {
                Some(line) => io.print(join2(line.as_str(), "\n").as_str()),
                None => return usage(
                    io,
                    join2("unsupported for-each-ref format: ", format.as_str()).as_str(),
                ),
            }
        }
        i += 1;
    }
    0
}

} // verus!
