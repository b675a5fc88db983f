//! `git show`: printing commits, tags and files.

use vstd::prelude::*;

use crate::common::done;
use crate::compare::Format;
use crate::console::{
    ambiguous, ambiguous_argument, fatal, failed, misused, no_repo, printed, repo_error, usage, Done, Io, Screen,
};
use crate::dates::{clock_seconds, date_text, format_date, now_seconds};
use crate::history::Listed;
use crate::logging::{blob_text, commit_diff, hash_at, render_commit_diff};
use crate::pretty::{
    decoration_of, decorations, header_text, is_template, is_terminated, parse_pretty, person, render_commit_header,
    spaced, usable_layout, Entry, Layout, Pretty,
};
use crate::records::{Commit, Note};
use crate::repo::{
    annotation_of, commit_of, find_repo_root, load_commit, read_annotation, read_blob, repo_root,
};
use crate::revisions::{resolve_revision, revision, tree_and_path, tree_path};
use crate::syntax::{flags_for, pass_for, read_words, words_read, Syntax, Want};
use crate::system::{Machine, System};
use crate::text::{
    contains, copy_text, cut_once, holds, join2, join4, join5, same, split_once, texts,
};

verus! {

/// What the options of `git show` ask for.
pub struct ShowAsk {
    pub format: Option<Format>,
    pub pretty: Pretty,
}

/// What is asked of `git show`.
pub struct ShowWish {
    pub format: Option<Format>,
    pub pretty: Layout,
}

impl View for ShowAsk {
    type V = ShowWish;

    open spec fn view(&self) -> ShowWish {
        ShowWish { format: self.format, pretty: self.pretty@ }
    }
}

/// What `git show` is asked for without any option.
pub open spec fn plain_show() -> ShowWish {
    ShowWish { format: Some(Format::Patch), pretty: Layout::Medium }
}

/// The text behind an optional value, or nothing.
pub open spec fn or_empty(o: Option<Seq<char>>) -> Seq<char> {
    match o {
        Some(v) => v,
        None => ""@,
    }
}

impl Syntax for ShowAsk {
    open spec fn wants(name: Seq<char>) -> Want {
        Want::Attached
    }

    open spec fn with(asked: ShowWish, name: Seq<char>, value: Option<Seq<char>>) -> Result<
        ShowWish,
        Seq<char>,
    > {
        if name == "-s"@ || name == "--no-patch"@ {
            Ok(ShowWish { format: None, ..asked })
        } else if name == "--stat"@ {
            Ok(ShowWish { format: Some(Format::Stat), ..asked })
        } else if name == "--name-only"@ {
            Ok(ShowWish { format: Some(Format::NameOnly), ..asked })
        } else if name == "--name-status"@ {
            Ok(ShowWish { format: Some(Format::NameStatus), ..asked })
        } else if name == "--oneline"@ {
            Ok(ShowWish { pretty: Layout::AbbreviatedOneLine, ..asked })
        } else if name == "--no-color"@ || name == "--abbrev-commit"@ {
            Ok(asked)
        } else if name == "--pretty"@ || name == "--format"@ {
            match usable_layout(or_empty(value), name == "--format"@) {
                Some(pretty) => Ok(ShowWish { pretty, ..asked }),
                None => Err("unsupported show format: "@ + name),
            }
        } else {
            Err("unsupported show option: "@ + name)
        }
    }

    fn wanted(name: &str) -> (r: Want) {
        Want::Attached
    }

    fn apply(&mut self, name: &str, value: Option<String>) -> (r: Result<(), String>) {
        if same(name, "-s") || same(name, "--no-patch") {
            self.format = None;
        } else if same(name, "--stat") {
            self.format = Some(Format::Stat);
        } else if same(name, "--name-only") {
            self.format = Some(Format::NameOnly);
        } else if same(name, "--name-status") {
            self.format = Some(Format::NameStatus);
        } else if same(name, "--oneline") {
            self.pretty = Pretty::AbbreviatedOneLine;
        } else if same(name, "--no-color") || same(name, "--abbrev-commit") {
        } else if same(name, "--pretty") || same(name, "--format") {
            let word = match value {
                Some(v) => v,
                None => copy_text(""),
            };
            match parse_pretty(word.as_str(), same(name, "--format")) {
                Some(p) => self.pretty = p,
                None => return Err(join2("unsupported show format: ", name)),
            }
        } else {
            return Err(join2("unsupported show option: ", name));
        }
        Ok(())
    }
}

/// What is written of the note of a tag.
pub open spec fn tag_text(name: Seq<char>, n: Note) -> Seq<char> {
    "tag "@ + name + "\nTagger: "@ + person(n) + "\nDate:   "@ + date_text(n.timestamp) + "\n\n"@
        + n.message + "\n\n"@
}

fn render_tag(name: &str, note: &Commit) -> (r: String)
    ensures
        r@ == tag_text(name@, note@),
{
    let who = join4(note.author_name.as_str(), " <", note.author_email.as_str(), ">");
    let mut out = join5(
        "tag ",
        name,
        "\nTagger: ",
        who.as_str(),
        "\nDate:   ",
    );
    out.append(format_date(note.timestamp).as_str());
    out.append("\n\n");
    out.append(note.message.as_str());
    out.append("\n\n");
    out
}

/// What is written of a commit.
pub open spec fn show_text(m: Machine, root: Seq<char>, x: ShowWish, name: Seq<char>, e: Listed) -> Seq<char> {
    let tag = match annotation_of(m, root, name) {
        Some(n) => tag_text(name, n),
        None => ""@,
    };
    let header = header_text(
        Entry {
            id: e.0,
            note: e.1,
            decoration: if is_template(x.pretty) {
                decoration_of(m, root, e.0)
            } else {
                ""@
            },
            now: clock_seconds(m),
        },
        x.pretty,
    );
    tag + header + (if is_terminated(x.pretty) {
        "\n"@
    } else {
        ""@
    }) + match x.format {
        None => ""@,
        Some(f) => (if spaced(x.pretty) {
            "\n"@
        } else {
            ""@
        }) + commit_diff(m, root, e, f, seq![]),
    }
}

fn render_commit(system: &System, root: &str, x: &ShowAsk, name: &str, id: &str, commit: &Commit) -> (r:
    String)
    ensures
        r@ == show_text(system@, root@, x@, name@, (id@, commit@)),
{
    let tag = match read_annotation(system, root, name) {
        Some(n) => render_tag(name, &n),
        None => copy_text(""),
    };
    let decoration = if x.pretty.is_template() {
        decorations(system, root, id)
    } else {
        copy_text("")
    };
    let header = render_commit_header(
        id,
        commit,
        &x.pretty,
        decoration.as_str(),
        now_seconds(system),
    );
    let part = match x.format {
        None => copy_text(""),
        Some(f) => {
            let none: Vec<String> = Vec::new();
            assert(texts(none@) =~= seq![]);
            join2(
                if x.pretty.diff_needs_spacing() {
                    "\n"
                } else {
                    ""
                },
                render_commit_diff(system, root, id, commit, f, none.as_slice()).as_str(),
            )
        },
    };
    join4(
        tag.as_str(),
        header.as_str(),
        if x.pretty.is_terminated() {
            "\n"
        } else {
            ""
        },
        part.as_str(),
    )
}

/// The part of an operand before its first colon.
pub open spec fn before_colon(s: Seq<char>) -> Seq<char> {
    match cut_once(s, ':') {
        Some((a, _)) => a,
        None => s,
    }
}

/// Printing what one operand names: `REVISION:PATH` is a file, anything else a commit.
pub open spec fn one_shown(m: Machine, s: Screen, root: Seq<char>, x: ShowWish, name: Seq<char>) -> Done {
    if holds(name, ":"@) {
        match tree_path(m, root, name) {
            None => ambiguous(m, s, name),
            Some((tree, path)) => match blob_text(m, root, hash_at(tree, path)) {
                Some(data) => Done { m, s: Screen { out: s.out + data, ..s }, status: 0 },
                None => failed(
                    m,
                    s,
                    "path '"@ + path + "' does not exist in '"@ + before_colon(name) + "'"@,
                ),
            },
        }
    } else {
        match revision(m, root, name) {
            None => ambiguous(m, s, name),
            Some(id) => match commit_of(m, root, id) {
                None => ambiguous(m, s, name),
                Some(n) => Done {
                    m,
                    s: printed(s, show_text(m, root, x, name, (id, n))),
                    status: 0,
                },
            },
        }
    }
}

/// Printing what the operands from `i` on name. The first that cannot be printed ends it.
pub open spec fn all_shown(
    m: Machine,
    s: Screen,
    root: Seq<char>,
    x: ShowWish,
    names: Seq<Seq<char>>,
    i: int,
) -> Done
    decreases names.len() - i,
{
    if i < 0 || i >= names.len() {
        Done { m, s, status: 0 }
    } else {
        let d = one_shown(m, s, root, x, names[i]);
        if d.status != 0 {
            d
        } else {
            all_shown(m, d.s, root, x, names, i + 1)
        }
    }
}

/// The operands, or HEAD where there are none.
pub open spec fn names_or_head(v: Seq<Seq<char>>) -> Seq<Seq<char>> {
    if v.len() == 0 {
        seq!["HEAD"@]
    } else {
        v
    }
}

/// `git show`.
pub open spec fn show_done(m: Machine, s: Screen, args: Seq<Seq<char>>) -> Done {
    match repo_root(m) {
        None => no_repo(m, s),
        Some(root) => match words_read::<ShowAsk>(pass_for(args, ""@, ""@), plain_show(), seq![]) {
            Err(message) => misused(m, s, message),
            Ok((x, names)) => all_shown(m, s, root, x, names_or_head(names), 0),
        },
    }
}

fn show_one(system: &System, root: &str, x: &ShowAsk, name: &str, io: &mut Io) -> (r: i32)
    ensures
        done(system@, final(io)@, r) == one_shown(system@, old(io)@, root@, x@, name@),
{
    if contains(name, ":") {
        return match tree_and_path(system, root, name) {
            None => ambiguous_argument(io, name),
            Some((tree, path)) => {
                let data = match tree.get(path.as_str()) {
                    Some(e) => read_blob(system, root, e.hash.as_str()),
                    None => None,
                };
                match data {
                    Some(data) => {
                        io.print_bytes(data.as_slice());
                        0
                    },
                    None => {
                        let front = match split_once(name, ':') {
                            Some((a, _)) => a,
                            None => copy_text(name),
                        };
                        fatal(
                            io,
                            join5(
                                "path '",
                                path.as_str(),
                                "' does not exist in '",
                                front.as_str(),
                                "'",
                            ).as_str(),
                        )
                    },
                }
            },
        };
    }
    match resolve_revision(system, root, name) {
        None => ambiguous_argument(io, name),
        Some(id) => match load_commit(system, root, id.as_str()) {
            None => ambiguous_argument(io, name),
            Some(commit) => {
                io.print(render_commit(system, root, x, name, id.as_str(), &commit).as_str());
                0
            },
        },
    }
}

/// `git show`: prints commits, tags and files.
pub fn git_show(system: &mut System, args: &[String], io: &mut Io) -> (r: i32)
    ensures
        done(final(system)@, final(io)@, r) == show_done(old(system)@, old(io)@, texts(args@)),
{
    let root = match find_repo_root(system) {
        Some(root) => root,
        None => return repo_error(io),
    };
    let start = ShowAsk { format: Some(Format::Patch), pretty: Pretty::Medium };
    let (x, names) = match read_words(flags_for(args, "", ""), start) {
        Ok(words) => words,
        Err(message) => return usage(io, message.as_str()),
    };
    let mut names = names;
    assert(texts(names@).len() == names@.len());
    if names.len() == 0 {
        names.push(copy_text("HEAD"));
        assert(texts(names@) =~= seq!["HEAD"@]);
    }
    let ghost all = texts(names@);
    let ghost goal = all_shown(system@, io@, root@, x@, all, 0);
    let mut i: usize = 0;
    while i < names.len()
        invariant
            i <= names@.len(),
            all == texts(names@),
            system@ == old(system)@,
            goal == show_done(old(system)@, old(io)@, texts(args@)),
            goal == all_shown(system@, io@, root@, x@, all, i as int),
        decreases names@.len() - i,
    {
        assert(all[i as int] == names@[i as int]@);
        let status = show_one(system, root.as_str(), &x, names[i].as_str(), io);
        if status != 0 {
            return status;
        }
        i += 1;
    }
    0
}

} // verus!
