//! `git tag`.

use vstd::prelude::*;

use crate::common::done;
use crate::configuration::{identity, identity_of, Globals, Overrides};
use crate::console::{
    ambiguous, ambiguous_argument, cannot_write, complained, failed, fatal, misused, no_repo, printed, repo_error,
    usage, write_message, Done, Io, Screen,
};
use crate::dates::{clock_seconds, now_seconds};
use crate::numbers::{pad_right, padded_right};
use crate::objects::{short, short_id};
use crate::records::{note_bytes, subject_of, Commit, Note};
use crate::references::{
    does_fit, expand_ref_format, first_of, fits, proper_name, ref_text, reference_deleted, take_first,
    valid_reference_name,
};
use crate::repo::{
    annotation_file, annotation_of, delete_reference, find_repo_root, read_annotation, read_reference, ref_names,
    reference_names, reference_of, reference_written, repo_root, write_annotation, write_reference, written,
};
use crate::revisions::{resolve_revision, revision};
use crate::revset::{count_named, count_option};
use crate::showing::or_empty;
use crate::syntax::{flags_for, pass_for, read_words, words_read, Syntax, Want};
use crate::system::{Machine, Refusal, System};
use crate::text::{copy_text, join2, join3, join4, join5, opt_text, same, texts};

verus! {

/// What the options of `git tag` ask for.
pub struct TagAsk {
    pub list: bool,
    pub delete: bool,
    pub force: bool,
    pub annotations: bool,
    pub message: Option<String>,
    pub format: Option<String>,
    pub points_at: Option<String>,
}

/// What is asked of `git tag`.
#[verifier::ext_equal]
pub struct TagWish {
    pub list: bool,
    pub delete: bool,
    pub force: bool,
    pub annotations: bool,
    pub message: Option<Seq<char>>,
    pub format: Option<Seq<char>>,
    pub points_at: Option<Seq<char>>,
}

impl View for TagAsk {
    type V = TagWish;

    open spec fn view(&self) -> TagWish {
        TagWish {
            list: self.list,
            delete: self.delete,
            force: self.force,
            annotations: self.annotations,
            message: opt_text(self.message),
            format: opt_text(self.format),
            points_at: opt_text(self.points_at),
        }
    }
}

/// What `git tag` is asked for without any option.
pub open spec fn plain_tag() -> TagWish {
    TagWish {
        list: false,
        delete: false,
        force: false,
        annotations: false,
        message: None,
        format: None,
        points_at: None,
    }
}

impl Syntax for TagAsk {
    open spec fn wants(name: Seq<char>) -> Want {
        if name == "-m"@ || name == "--message"@ || name == "--format"@ || name == "--points-at"@
            || name == "--sort"@ {
            Want::Needed
        } else {
            Want::Attached
        }
    }

    open spec fn with(asked: TagWish, name: Seq<char>, value: Option<Seq<char>>) -> Result<
        TagWish,
        Seq<char>,
    > {
        if name == "-l"@ || name == "--list"@ {
            Ok(TagWish { list: true, ..asked })
        } else if name == "-d"@ || name == "--delete"@ {
            Ok(TagWish { delete: true, ..asked })
        } else if name == "-f"@ || name == "--force"@ {
            Ok(TagWish { force: true, ..asked })
        } else if name == "-a"@ || name == "--annotate"@ || name == "-q"@ || name == "--quiet"@ {
            Ok(asked)
        } else if name == "-m"@ || name == "--message"@ {
            Ok(TagWish { message: value, ..asked })
        } else if name == "--format"@ {
            Ok(TagWish { format: value, list: true, ..asked })
        } else if name == "--points-at"@ {
            Ok(TagWish { points_at: value, list: true, ..asked })
        } else if name == "--sort"@ {
            Ok(TagWish { list: true, ..asked })
        } else if name == "-n"@ || name == "--list-annotations"@ || count_named(name) is Some {
            Ok(TagWish { list: true, annotations: true, ..asked })
        } else {
            Err("unsupported tag option: "@ + name)
        }
    }

    fn wanted(name: &str) -> (r: Want) {
        if same(name, "-m") || same(name, "--message") || same(name, "--format") || same(
            name,
            "--points-at",
        ) || same(name, "--sort") {
            Want::Needed
        } else {
            Want::Attached
        }
    }

    fn apply(&mut self, name: &str, value: Option<String>) -> (r: Result<(), String>) {
        if same(name, "-l") || same(name, "--list") {
            self.list = true;
        } else if same(name, "-d") || same(name, "--delete") {
            self.delete = true;
        } else if same(name, "-f") || same(name, "--force") {
            self.force = true;
        } else if same(name, "-a") || same(name, "--annotate") || same(name, "-q") || same(
            name,
            "--quiet",
        ) {
        } else if same(name, "-m") || same(name, "--message") {
            self.message = value;
        } else if same(name, "--format") {
            self.format = value;
            self.list = true;
        } else if same(name, "--points-at") {
            self.points_at = value;
            self.list = true;
        } else if same(name, "--sort") {
            self.list = true;
        } else if same(name, "-n") || same(name, "--list-annotations") || count_option(
            name,
        ).is_some() {
            self.list = true;
            self.annotations = true;
        } else {
            return Err(join2("unsupported tag option: ", name));
        }
        Ok(())
    }
}

/// Deleting tags from `i` on. The first that is not there ends it.
pub open spec fn tags_deleted(m: Machine, s: Screen, root: Seq<char>, names: Seq<Seq<char>>, i: int) -> Done
    decreases names.len() - i,
{
    if i < 0 || i >= names.len() {
        Done { m, s, status: 0 }
    } else {
        let full = "refs/tags/"@ + names[i];
        let was = or_empty(reference_of(m, root, full));
        match reference_deleted(m, root, full) {
            (n, Err(_)) => Done {
                m: n,
                s: complained(s, "error: tag '"@ + names[i] + "' not found.\n"@),
                status: 1,
            },
            (n, Ok(())) => tags_deleted(
                n,
                printed(s, "Deleted tag '"@ + names[i] + "' (was "@ + short_id(was) + ")\n"@),
                root,
                names,
                i + 1,
            ),
        }
    }
}

fn delete_tags(system: &mut System, root: &str, names: &[String], io: &mut Io) -> (r: i32)
    ensures
        done(final(system)@, final(io)@, r) == tags_deleted(
            old(system)@,
            old(io)@,
            root@,
            texts(names@),
            0,
        ),
{
    let ghost all = texts(names@);
    let ghost goal = tags_deleted(system@, io@, root@, all, 0);
    let mut i: usize = 0;
    while i < names.len()
        invariant
            i <= names@.len(),
            all == texts(names@),
            goal == tags_deleted(old(system)@, old(io)@, root@, all, 0),
            goal == tags_deleted(system@, io@, root@, all, i as int),
        decreases names@.len() - i,
    {
        assert(all.len() == names@.len());
        assert(all[i as int] == names@[i as int]@);
        let name = names[i].as_str();
        let full = join2("refs/tags/", name);
        let was = match read_reference(system, root, full.as_str()) {
            Some(id) => id,
            None => copy_text(""),
        };
        match delete_reference(system, root, full.as_str()) {
            Ok(()) => {},
            Err(_) => {
                io.print_err(join3("error: tag '", name, "' not found.\n").as_str());
                return 1;
            },
        }
        io.print(
            join5(
                "Deleted tag '",
                name,
                "' (was ",
                short(was.as_str()).as_str(),
                ")\n",
            ).as_str(),
        );
        i += 1;
    }
    0
}

/// The line of a tag, with the first line of its note where that is asked for and there is one.
pub open spec fn tag_line(m: Machine, root: Seq<char>, name: Seq<char>, annotations: bool) -> Seq<char> {
    match annotation_of(m, root, name) {
        Some(n) => if annotations {
            pad_right(name, ' ', 15) + " "@ + subject_of(n.message) + "\n"@
        } else {
            name + "\n"@
        },
        None => name + "\n"@,
    }
}

fn render_tag_line(system: &System, root: &str, name: &str, annotations: bool) -> (r: String)
    ensures
        r@ == tag_line(system@, root@, name@, annotations),
{
    if annotations {
        if let Some(n) = read_annotation(system, root, name) {
            return join4(
                padded_right(name, ' ', 15).as_str(),
                " ",
                n.subject().as_str(),
                "\n",
            );
        }
    }
    join2(name, "\n")
}

/// What one tag adds to the list; nothing where it is passed over, or the template that is refused.
pub open spec fn tag_listed(
    m: Machine,
    root: Seq<char>,
    x: TagWish,
    pattern: Option<Seq<char>>,
    target: Option<Seq<char>>,
    name: Seq<char>,
) -> Result<Seq<char>, Seq<char>> {
    let full = "refs/tags/"@ + name;
    let id = or_empty(reference_of(m, root, full));
    if !fits(pattern, name) || (target is Some && target != Some(id)) {
        Ok(""@)
    } else {
        match x.format {
            Some(format) => match ref_text(format, full, id) {
                Some(line) => Ok(line + "\n"@),
                None => Err(format),
            },
            None => Ok(tag_line(m, root, name, x.annotations)),
        }
    }
}

/// Listing tags from `i` on.
pub open spec fn tags_listed(
    m: Machine,
    s: Screen,
    root: Seq<char>,
    x: TagWish,
    pattern: Option<Seq<char>>,
    target: Option<Seq<char>>,
    names: Seq<Seq<char>>,
    i: int,
) -> Done
    decreases names.len() - i,
{
    if i < 0 || i >= names.len() {
        Done { m, s, status: 0 }
    } else {
        match tag_listed(m, root, x, pattern, target, names[i]) {
            Err(format) => misused(m, s, "unsupported tag format: "@ + format),
            Ok(text) => tags_listed(
                m,
                printed(s, text),
                root,
                x,
                pattern,
                target,
                names,
                i + 1,
            ),
        }
    }
}

fn is_other(target: &Option<String>, id: &str) -> (r: bool)
    ensures
        r == (opt_text(*target) is Some && opt_text(*target) != Some(id@)),
{
    match target {
        Some(t) => !same(t.as_str(), id),
        None => false,
    }
}

fn list_tag(
    system: &System,
    root: &str,
    x: &TagAsk,
    pattern: &Option<String>,
    target: &Option<String>,
    name: &str,
) -> (r: Result<String, String>)
    ensures
        match r {
            Ok(text) => tag_listed(
                system@,
                root@,
                x@,
                opt_text(*pattern),
                opt_text(*target),
                name@,
            ) == Ok::<Seq<char>, Seq<char>>(text@),
            Err(format) => tag_listed(
                system@,
                root@,
                x@,
                opt_text(*pattern),
                opt_text(*target),
                name@,
            ) == Err::<Seq<char>, Seq<char>>(format@),
        },
{
    if !does_fit(pattern, name) {
        return Ok(copy_text(""));
    }
    let full = join2("refs/tags/", name);
    let id = match read_reference(system, root, full.as_str()) {
        Some(id) => id,
        None => copy_text(""),
    };
    if is_other(target, id.as_str()) {
        return Ok(copy_text(""));
    }
    match &x.format {
        Some(format) => match expand_ref_format(format.as_str(), full.as_str(), id.as_str()) {
            Some(line) => Ok(join2(line.as_str(), "\n")),
            None => Err(copy_text(format.as_str())),
        },
        None => Ok(render_tag_line(system, root, name, x.annotations)),
    }
}

fn list_tags(
    system: &System,
    root: &str,
    x: &TagAsk,
    pattern: &Option<String>,
    target: &Option<String>,
    io: &mut Io,
) -> (r: i32)
    ensures
        done(system@, final(io)@, r) == tags_listed(
            system@,
            old(io)@,
            root@,
            x@,
            opt_text(*pattern),
            opt_text(*target),
            ref_names(system@, root@, "tags"@),
            0,
        ),
{
    let names = reference_names(system, root, "tags");
    let ghost all = texts(names@);
    let ghost p = opt_text(*pattern);
    let ghost t = opt_text(*target);
    let ghost goal = tags_listed(system@, io@, root@, x@, p, t, all, 0);
    let mut i: usize = 0;
    while i < names.len()
        invariant
            i <= names@.len(),
            all == texts(names@),
            all == ref_names(system@, root@, "tags"@),
            p == opt_text(*pattern),
            t == opt_text(*target),
            goal == tags_listed(system@, old(io)@, root@, x@, p, t, all, 0),
            goal == tags_listed(system@, io@, root@, x@, p, t, all, i as int),
        decreases names@.len() - i,
    {
        assert(all.len() == names@.len());
        assert(all[i as int] == names@[i as int]@);
        match list_tag(system, root, x, pattern, target, names[i].as_str()) {
            Ok(text) => io.print(text.as_str()),
            Err(format) => {
                return usage(io, join2("unsupported tag format: ", format.as_str()).as_str());
            },
        }
        i += 1;
    }
    0
}

/// Writing the note of a tag beside it.
pub open spec fn annotation_written(m: Machine, root: Seq<char>, name: Seq<char>, n: Note) -> (
    Machine,
    Result<(), Refusal>,
) {
    written(m, annotation_file(root, name), note_bytes(n))
}

/// The note of a new tag.
pub open spec fn tag_note(m: Machine, root: Seq<char>, g: Overrides, message: Seq<char>) -> Note {
    let who = identity_of(m, root, g);
    Note {
        parents: seq![],
        author_name: who.0,
        author_email: who.1,
        timestamp: clock_seconds(m),
        message,
    }
}

/// Creating a tag.
pub open spec fn tag_created(
    m: Machine,
    s: Screen,
    root: Seq<char>,
    g: Overrides,
    x: TagWish,
    v: Seq<Seq<char>>,
) -> Done {
    let name = v[0];
    let start = if v.len() > 1 {
        v[1]
    } else {
        "HEAD"@
    };
    let full = "refs/tags/"@ + name;
    if !proper_name(name) {
        failed(m, s, "invalid tag name: "@ + name)
    } else {
        match revision(m, root, start) {
            None => failed(m, s, "not a valid object name: '"@ + start + "'"@),
            Some(id) => if !x.force && reference_of(m, root, full) is Some {
                failed(m, s, "tag '"@ + name + "' already exists"@)
            } else {
                match reference_written(m, root, full, id) {
                    (m1, Err(e)) => failed(m1, s, write_message(full, e)),
                    (m1, Ok(())) => match x.message {
                        None => Done { m: m1, s, status: 0 },
                        Some(message) => match annotation_written(
                            m1,
                            root,
                            name,
                            tag_note(m1, root, g, message),
                        ) {
                            (m2, Err(e)) => failed(m2, s, write_message("the tag annotation"@, e)),
                            (m2, Ok(())) => Done { m: m2, s, status: 0 },
                        },
                    },
                }
            },
        }
    }
}

fn create_tag(system: &mut System, root: &str, globals: &Globals, x: &TagAsk, v: &[String], io: &mut Io) -> (r:
    i32)
    requires
        v@.len() > 0,
    ensures
        done(final(system)@, final(io)@, r) == tag_created(
            old(system)@,
            old(io)@,
            root@,
            globals@,
            x@,
            texts(v@),
        ),
{
    let ghost all = texts(v@);
    let n: usize = v.len();
    assert(all.len() == n);
    assert(forall|k: int| 0 <= k < n ==> all[k] == #[trigger] v@[k]@);
    let name = v[0].as_str();
    if !valid_reference_name(name) {
        return fatal(io, join2("invalid tag name: ", name).as_str());
    }
    let start = if n > 1 {
        v[1].as_str()
    } else {
        "HEAD"
    };
    let id = match resolve_revision(system, root, start) {
        Some(id) => id,
        None => return fatal(io, join3("not a valid object name: '", start, "'").as_str()),
    };
    let full = join2("refs/tags/", name);
    if !x.force && read_reference(system, root, full.as_str()).is_some() {
        return fatal(io, join3("tag '", name, "' already exists").as_str());
    }
    match write_reference(system, root, full.as_str(), id.as_str()) {
        Ok(()) => {},
        Err(e) => return cannot_write(io, full.as_str(), &e),
    }
    if let Some(message) = &x.message {
        let (author_name, author_email) = identity(system, root, globals);
        let parents: Vec<String> = Vec::new();
        assert(texts(parents@) =~= seq![]);
        let note = Commit {
            parents,
            author_name,
            author_email,
            timestamp: now_seconds(system),
            message: copy_text(message.as_str()),
        };
        match write_annotation(system, root, name, &note) {
            Ok(()) => {},
            Err(e) => return cannot_write(io, "the tag annotation", &e),
        }
    }
    0
}

/// `git tag` in a repository.
pub open spec fn tag_within(
    m: Machine,
    s: Screen,
    root: Seq<char>,
    g: Overrides,
    x: TagWish,
    v: Seq<Seq<char>>,
) -> Done {
    if x.delete {
        tags_deleted(m, s, root, v, 0)
    } else if v.len() == 0 || x.list {
        match x.points_at {
            Some(rev) => match revision(m, root, rev) {
                Some(id) => tags_listed(
                    m,
                    s,
                    root,
                    x,
                    first_of(v),
                    Some(id),
                    ref_names(m, root, "tags"@),
                    0,
                ),
                None => ambiguous(m, s, rev),
            },
            None => tags_listed(
                m,
                s,
                root,
                x,
                first_of(v),
                None,
                ref_names(m, root, "tags"@),
                0,
            ),
        }
    } else {
        tag_created(m, s, root, g, x, v)
    }
}

/// `git tag`.
pub open spec fn tag_done(m: Machine, s: Screen, g: Overrides, args: Seq<Seq<char>>) -> Done {
    match repo_root(m) {
        None => no_repo(m, s),
        Some(root) => match words_read::<TagAsk>(pass_for(args, "adflqm"@, "m"@), plain_tag(), seq![]) {
            Err(message) => misused(m, s, message),
            Ok((x, v)) => tag_within(m, s, root, g, x, v),
        },
    }
}

/// `git tag`: lists, creates and deletes tags.
pub fn git_tag(system: &mut System, globals: &Globals, args: &[String], io: &mut Io) -> (r: i32)
    ensures
        done(final(system)@, final(io)@, r) == tag_done(
            old(system)@,
            old(io)@,
            globals@,
            texts(args@),
        ),
{
    let root = match find_repo_root(system) {
        Some(root) => root,
        None => return repo_error(io),
    };
    let start = TagAsk {
        list: false,
        delete: false,
        force: false,
        annotations: false,
        message: None,
        format: None,
        points_at: None,
    };
    assert(start@ =~= plain_tag());
    let (x, v) = match read_words(flags_for(args, "adflqm", "m"), start) {
        Ok(words) => words,
        Err(message) => return usage(io, message.as_str()),
    };
    assert(texts(v@).len() == v@.len());
    if x.delete {
        return delete_tags(system, root.as_str(), v.as_slice(), io);
    }
    if v.len() == 0 || x.list {
        let pattern = take_first(v.as_slice());
        let target = match &x.points_at {
            Some(rev) => match resolve_revision(system, root.as_str(), rev.as_str()) {
                Some(id) => Some(id),
                None => return ambiguous_argument(io, rev.as_str()),
            },
            None => None,
        };
        return list_tags(system, root.as_str(), &x, &pattern, &target, io);
    }
    create_tag(system, root.as_str(), globals, &x, v.as_slice(), io)
}

} // verus!
