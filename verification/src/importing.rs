//! Taking over the history of another repository.
//!
//! The objects of that repository come from outside, one at a time. What is asked for next, and what
//! is made of the answer, is decided here: every object is checked before it is stored.

use vstd::prelude::*;
use vstd::utf8::{decode_utf8, encode_utf8, valid_utf8};

use crate::bytes::{decode, decode_lossy, loose_text};
use crate::hashes::{encode_hex, hex, hex_digit_value, hex_value};
use crate::numbers::{decimal, format_usize, parse_i64, parse_usize, read_signed, read_unsigned};
use crate::objects::blob_id;
use crate::order::{bind, lookup, OrdMap};
use crate::records::{Commit, Note};
use crate::repo::{
    blob_stored, commit_id, commit_stored, git_file, git_path, index_stored, reference_written, store_commit,
    store_index, write_blob, write_reference, write_vfs, written,
};
use crate::settings::{serialize_config, settings_bytes, Config, Keys, Values};
use crate::system::{below, outcome, path_join, refusal_text, settled, with_parents, Machine, Refusal, System};
use crate::text::{
    after_prefix, chars_of, contains, copy_text, copy_texts, cut_once_text, holds, join, join2, join3, join4, join5,
    joined, lemma_texts_push, line_list, lines, opt_text, pieces, rcut_once_text, rsplit_once_text, same, split,
    split_once_text, split_whitespace, strip_prefix, texts, trim, trim_end_matches, trimmed, without_trailing,
    word_list,
};
use crate::trees::{Entry, Files, Record, Tree};

verus! {

pub const MAX_COMMAND_OUTPUT: usize = 8_388_608;

pub const MAX_OBJECT_BYTES: usize = 16_777_216;

pub const MAX_COMMITS: usize = 512;

pub const MAX_COMMIT_PARENTS: usize = 64;

pub const MAX_TREE_DEPTH: usize = 64;

pub const MAX_TREE_ENTRIES: usize = 1_000_000;

pub const MAX_PATH_BYTES: usize = 4_096;

pub const MAX_BATCH_HEADER_BYTES: usize = 512;

pub const MAX_DIAGNOSTIC_BYTES: usize = 8_192;

/// What `std::fmt::Debug` writes for a text.
pub uninterp spec fn debug_text(s: Seq<char>) -> Seq<char>;

/// `std::fmt::Debug` of a text: the text in quotes, with escapes. The result is only named.
#[verifier::external_body]
pub(crate) fn quoted(s: &str) -> (r: String)
    ensures
        r@ == debug_text(s@),
{
    format!("{s:?}")
}

// ---------------------------------------------------------------------------
// Names
// ---------------------------------------------------------------------------

/// Whether a text is the name of an object: forty hexadecimal digits.
pub open spec fn is_oid(s: Seq<char>) -> bool {
    s.len() == 40 && forall|i: int| 0 <= i < s.len() ==> hex_value(#[trigger] s[i]) is Some
}

/// The complaint about a text that is no name of an object.
pub open spec fn bad_oid(s: Seq<char>, what: Seq<char>) -> Seq<char> {
    "invalid SHA-1 for "@ + what + ": "@ + debug_text(s)
}

/// Whether a text is the name of an object; the complaint where it is none.
pub fn validate_oid(value: &str, what: &str) -> (r: Result<(), String>)
    ensures
        match r {
            Ok(()) => is_oid(value@),
            Err(e) => !is_oid(value@) && e@ == bad_oid(value@, what@),
        },
{
    let cs = chars_of(value);
    let mut good = cs.len() == 40;
    let mut i: usize = 0;
    while good && i < cs.len()
        invariant
            i <= cs@.len(),
            cs@ == value@,
            good ==> cs@.len() == 40 && forall|k: int|
                0 <= k < i ==> hex_value(#[trigger] cs@[k]) is Some,
            !good ==> !is_oid(value@),
        decreases cs@.len() - i + if good {
            1int
        } else {
            0
        },
    {
        if hex_digit_value(cs[i]).is_none() {
            assert(hex_value(value@[i as int]) is None);
            good = false;
        } else {
            i += 1;
        }
    }
    if good {
        Ok(())
    } else {
        Err(join4("invalid SHA-1 for ", what, ": ", quoted(value).as_str()))
    }
}

/// Whether a part of a path leads nowhere new.
pub open spec fn unsafe_part(s: Seq<char>) -> bool {
    s.len() == 0 || s == "."@ || s == ".."@
}

fn is_unsafe_part(s: &str) -> (r: bool)
    ensures
        r == unsafe_part(s@),
{
    s.is_empty() || same(s, ".") || same(s, "..")
}

/// Whether some part of a path leads nowhere new.
pub open spec fn some_unsafe(v: Seq<Seq<char>>) -> bool {
    exists|i: int| 0 <= i < v.len() && unsafe_part(#[trigger] v[i])
}

/// What is wrong with what HEAD points at.
pub open spec fn head_refusal(reference: Seq<char>) -> Option<Seq<char>> {
    match after_prefix(reference, "refs/heads/"@) {
        None => Some("unsupported symbolic HEAD target: "@ + reference),
        Some(branch) => if branch.len() == 0 || some_unsafe(pieces(branch, '/')) {
            Some("unsafe symbolic HEAD target: "@ + reference)
        } else {
            None
        },
    }
}

/// Whether HEAD points at a branch; the complaint where it does not.
pub fn validate_head_reference(reference: &str) -> (r: Result<(), String>)
    ensures
        match r {
            Ok(()) => head_refusal(reference@) is None,
            Err(e) => head_refusal(reference@) == Some(e@),
        },
{
    let branch = match strip_prefix(reference, "refs/heads/") {
        Some(b) => b,
        None => return Err(join2("unsupported symbolic HEAD target: ", reference)),
    };
    if branch.as_str().is_empty() {
        return Err(join2("unsafe symbolic HEAD target: ", reference));
    }
    let parts = split(branch.as_str(), '/');
    let ghost all = texts(parts@);
    let mut i: usize = 0;
    while i < parts.len()
        invariant
            i <= parts@.len(),
            all == texts(parts@),
            all == pieces(branch@, '/'),
            branch@.len() > 0,
            after_prefix(reference@, "refs/heads/"@) == Some(branch@),
            forall|k: int| 0 <= k < i ==> !unsafe_part(#[trigger] all[k]),
        decreases parts@.len() - i,
    {
        assert(all.len() == parts@.len());
        assert(all[i as int] == parts@[i as int]@);
        if is_unsafe_part(parts[i].as_str()) {
            assert(some_unsafe(all));
            return Err(join2("unsafe symbolic HEAD target: ", reference));
        }
        i += 1;
    }
    assert(all.len() == parts@.len());
    Ok(())
}

// ---------------------------------------------------------------------------
// What the other side says
// ---------------------------------------------------------------------------

/// How a command of the other side ended.
pub struct Answer {
    pub success: bool,
    pub code: Option<i32>,
    pub status: String,
    pub stdout: Vec<u8>,
    pub stderr: Vec<u8>,
}

/// A text without the line ends behind it.
pub open spec fn without_line_ends(s: Seq<char>) -> Seq<char>
    decreases s.len(),
{
    if s.len() > 0 && (s.last() == '\r' || s.last() == '\n') {
        without_line_ends(s.drop_last())
    } else {
        s
    }
}

fn trim_line_ends(s: &str) -> (r: String)
    ensures
        r@ == without_line_ends(s@),
{
    let cs = chars_of(s);
    let mut n: usize = cs.len();
    assert(cs@.take(n as int) =~= cs@);
    while n > 0 && (cs[n - 1] == '\r' || cs[n - 1] == '\n')
        invariant
            n <= cs@.len(),
            cs@ == s@,
            without_line_ends(s@) == without_line_ends(cs@.take(n as int)),
        decreases n,
    {
        assert(cs@.take(n as int).drop_last() =~= cs@.take(n - 1));
        assert(cs@.take(n as int).last() == cs@[n - 1]);
        n -= 1;
    }
    assert(n > 0 ==> cs@.take(n as int).last() == cs@[n - 1]);
    crate::text::text_of(vstd::slice::slice_subrange(cs.as_slice(), 0, n))
}

/// The complaint about a command that failed.
pub open spec fn failure_text(arguments: Seq<Seq<char>>, status: Seq<char>, stderr: Seq<u8>) -> Seq<char> {
    let part = if stderr.len() < MAX_DIAGNOSTIC_BYTES {
        stderr
    } else {
        stderr.take(MAX_DIAGNOSTIC_BYTES as int)
    };
    let diagnostic = trimmed(loose_text(part));
    if diagnostic.len() == 0 {
        "host git "@ + joined(arguments, " "@) + " exited with status "@ + status
    } else {
        "host git "@ + joined(arguments, " "@) + " failed: "@ + diagnostic
    }
}

/// The complaint about a command that failed.
pub fn git_failure(arguments: &[String], answer: &Answer) -> (r: String)
    ensures
        r@ == failure_text(texts(arguments@), answer.status@, answer.stderr@),
{
    let n: usize = if answer.stderr.len() < MAX_DIAGNOSTIC_BYTES {
        answer.stderr.len()
    } else {
        MAX_DIAGNOSTIC_BYTES
    };
    let part = vstd::slice::slice_subrange(answer.stderr.as_slice(), 0, n);
    assert(answer.stderr@.len() < MAX_DIAGNOSTIC_BYTES ==> part@ =~= answer.stderr@);
    assert(answer.stderr@.len() >= MAX_DIAGNOSTIC_BYTES ==> part@ =~= answer.stderr@.take(
        MAX_DIAGNOSTIC_BYTES as int,
    ));
    let diagnostic = trim(decode_lossy(part).as_str());
    let words = join(arguments, " ");
    if diagnostic.as_str().is_empty() {
        join4("host git ", words.as_str(), " exited with status ", answer.status.as_str())
    } else {
        join4("host git ", words.as_str(), " failed: ", diagnostic.as_str())
    }
}

/// The text that a command of the other side printed, or the complaint.
pub open spec fn printed_text(arguments: Seq<Seq<char>>, stdout: Seq<u8>) -> Result<Seq<char>, Seq<char>> {
    if stdout.len() > MAX_COMMAND_OUTPUT {
        Err(
            "git "@ + joined(arguments, " "@) + " output exceeds the "@ + decimal(
                MAX_COMMAND_OUTPUT as nat,
            ) + "-byte spike limit"@,
        )
    } else if valid_utf8(stdout) {
        Ok(without_line_ends(decode_utf8(stdout)))
    } else {
        Err("git "@ + joined(arguments, " "@) + " returned non-UTF-8 output"@)
    }
}

/// What a text or a complaint says.
pub open spec fn said(r: Result<String, String>) -> Result<Seq<char>, Seq<char>> {
    match r {
        Ok(t) => Ok(t@),
        Err(e) => Err(e@),
    }
}

fn read_printed(arguments: &[String], stdout: &[u8]) -> (r: Result<String, String>)
    ensures
        said(r) == printed_text(texts(arguments@), stdout@),
{
    let words = join(arguments, " ");
    if stdout.len() > MAX_COMMAND_OUTPUT {
        return Err(
            join5(
                "git ",
                words.as_str(),
                " output exceeds the ",
                format_usize(MAX_COMMAND_OUTPUT).as_str(),
                "-byte spike limit",
            ),
        );
    }
    match decode(stdout) {
        Some(t) => Ok(trim_line_ends(t.as_str())),
        None => Err(join3("git ", words.as_str(), " returned non-UTF-8 output")),
    }
}

/// The text that a command printed that must not fail.
pub fn git_text(arguments: &[String], answer: &Answer) -> (r: Result<String, String>)
    ensures
        said(r) == (if answer.success {
            printed_text(texts(arguments@), answer.stdout@)
        } else {
            Err(failure_text(texts(arguments@), answer.status@, answer.stderr@))
        }),
{
    if !answer.success {
        return Err(git_failure(arguments, answer));
    }
    read_printed(arguments, answer.stdout.as_slice())
}

/// What an optional text or a complaint says.
pub open spec fn said_opt(r: Result<Option<String>, String>) -> Result<Option<Seq<char>>, Seq<char>> {
    match r {
        Ok(t) => Ok(opt_text(t)),
        Err(e) => Err(e@),
    }
}

/// The text that a command printed that may say no, which it does with status one.
pub fn git_optional_text(arguments: &[String], answer: &Answer) -> (r: Result<Option<String>, String>)
    ensures
        said_opt(r) == (if answer.success {
            match printed_text(texts(arguments@), answer.stdout@) {
                Ok(t) => Ok(Some(t)),
                Err(e) => Err(e),
            }
        } else if answer.code == Some(1i32) {
            Ok(None)
        } else {
            Err(failure_text(texts(arguments@), answer.status@, answer.stderr@))
        }),
{
    if answer.success {
        return match read_printed(arguments, answer.stdout.as_slice()) {
            Ok(t) => Ok(Some(t)),
            Err(e) => Err(e),
        };
    }
    if let Some(code) = answer.code {
        if code == 1 {
            return Ok(None);
        }
    }
    Err(git_failure(arguments, answer))
}

/// How many bytes an object has by the header before it, or the complaint.
pub open spec fn size_in(header: Seq<u8>, id: Seq<char>, kind: Seq<char>) -> Result<nat, Seq<char>> {
    if header.len() > MAX_BATCH_HEADER_BYTES {
        Err("Git object header for "@ + id + " is too large"@)
    } else if !valid_utf8(header) {
        Err("Git object header for "@ + id + " is not UTF-8"@)
    } else {
        let text = without_trailing(decode_utf8(header), '\n');
        let fields = word_list(text);
        if fields.len() == 2 && fields[1] == "missing"@ {
            Err("Git object "@ + id + " is missing"@)
        } else if fields.len() != 3 {
            Err("invalid Git object header for "@ + id + ": "@ + text)
        } else if fields[0] != id || fields[1] != kind {
            Err(
                "Git object "@ + id + " resolved as "@ + fields[0] + " "@ + fields[1]
                    + ", expected "@ + kind,
            )
        } else {
            match read_unsigned(fields[2], usize::MAX as nat) {
                None => Err("Git object "@ + id + " has an invalid size"@),
                Some(n) => if n > MAX_OBJECT_BYTES {
                    Err(
                        "Git object "@ + id + " exceeds the "@ + decimal(MAX_OBJECT_BYTES as nat)
                            + "-byte spike limit"@,
                    )
                } else {
                    Ok(n)
                },
            }
        }
    }
}

/// How many bytes an object has by the header before it.
pub fn object_size(header: &[u8], id: &str, kind: &str) -> (r: Result<usize, String>)
    ensures
        match r {
            Ok(n) => size_in(header@, id@, kind@) == Ok::<nat, Seq<char>>(n as nat),
            Err(e) => size_in(header@, id@, kind@) == Err::<nat, Seq<char>>(e@),
        },
{
    if header.len() > MAX_BATCH_HEADER_BYTES {
        return Err(join3("Git object header for ", id, " is too large"));
    }
    let text = match decode(header) {
        Some(t) => trim_end_matches(t.as_str(), '\n'),
        None => return Err(join3("Git object header for ", id, " is not UTF-8")),
    };
    let fields = split_whitespace(text.as_str());
    let ghost all = texts(fields@);
    assert(all.len() == fields@.len());
    assert(forall|k: int| 0 <= k < fields@.len() ==> all[k] == #[trigger] fields@[k]@);
    if fields.len() == 2 {
        assert(all[1] == fields@[1]@);
        if same(fields[1].as_str(), "missing") {
            return Err(join3("Git object ", id, " is missing"));
        }
    }
    if fields.len() != 3 {
        return Err(join4("invalid Git object header for ", id, ": ", text.as_str()));
    }
    assert(all[0] == fields@[0]@ && all[1] == fields@[1]@ && all[2] == fields@[2]@);
    if !same(fields[0].as_str(), id) || !same(fields[1].as_str(), kind) {
        let mut out = join5("Git object ", id, " resolved as ", fields[0].as_str(), " ");
        out.append(fields[1].as_str());
        out.append(", expected ");
        out.append(kind);
        return Err(out);
    }
    match parse_usize(fields[2].as_str()) {
        None => Err(join3("Git object ", id, " has an invalid size")),
        Some(n) => if n > MAX_OBJECT_BYTES {
            Err(
                join5(
                    "Git object ",
                    id,
                    " exceeds the ",
                    format_usize(MAX_OBJECT_BYTES).as_str(),
                    "-byte spike limit",
                ),
            )
        } else {
            Ok(n)
        },
    }
}

// ---------------------------------------------------------------------------
// Which commits
// ---------------------------------------------------------------------------

/// What is found out about the repository of the other side.
pub enum Finding {
    /// Whether it is bare, in words.
    Bare(String),
    /// How its objects are named, in words.
    ObjectFormat(String),
    /// Whether the directory is the top of its working tree.
    AtTop(bool),
    /// Whether it borrows objects.
    Alternates(bool),
}

/// Why a repository cannot be taken over.
pub open spec fn unfit(f: Finding) -> Option<Seq<char>> {
    match f {
        Finding::Bare(answer) => if answer@ == "false"@ {
            None
        } else {
            Some("bare Git repositories are unsupported by this spike"@)
        },
        Finding::ObjectFormat(answer) => if answer@ == "sha1"@ {
            None
        } else {
            Some("SHA-256 Git repositories are unsupported by this spike"@)
        },
        Finding::AtTop(there) => if there {
            None
        } else {
            Some("supplied directory is not the Git working-tree root"@)
        },
        Finding::Alternates(present) => if present {
            Some("Git object alternates are unsupported by this spike"@)
        } else {
            None
        },
    }
}

/// Says whether a repository can be taken over, as far as one finding goes.
pub fn validate_repository(f: &Finding) -> (r: Result<(), String>)
    ensures
        complaint(r) == unfit(*f),
{
    match f {
        Finding::Bare(answer) => if same(answer.as_str(), "false") {
            Ok(())
        } else {
            Err(copy_text("bare Git repositories are unsupported by this spike"))
        },
        Finding::ObjectFormat(answer) => if same(answer.as_str(), "sha1") {
            Ok(())
        } else {
            Err(copy_text("SHA-256 Git repositories are unsupported by this spike"))
        },
        Finding::AtTop(there) => if *there {
            Ok(())
        } else {
            Err(copy_text("supplied directory is not the Git working-tree root"))
        },
        Finding::Alternates(present) => if *present {
            Err(copy_text("Git object alternates are unsupported by this spike"))
        } else {
            Ok(())
        },
    }
}

/// The commits that are taken over, oldest first.
pub struct CommitSelection {
    pub order: Vec<String>,
    pub truncated: bool,
}

/// The first of the lines from `i` on that is no name of an object.
pub open spec fn first_bad(v: Seq<Seq<char>>, i: int) -> Option<Seq<char>>
    decreases v.len() - i,
{
    if i < 0 || i >= v.len() {
        None
    } else if is_oid(v[i]) {
        first_bad(v, i + 1)
    } else {
        Some(v[i])
    }
}

/// The commits that a walk gives, oldest first, and whether there are more than are taken over; or
/// the complaint.
pub open spec fn selection(output: Seq<char>) -> Result<(Seq<Seq<char>>, bool), Seq<char>> {
    let v = line_list(output);
    match first_bad(v, 0) {
        Some(line) => Err(bad_oid(line, "revision walk"@)),
        None => if v.len() == 0 {
            Err("Git repository has no commits reachable from HEAD"@)
        } else if v.len() > MAX_COMMITS {
            Ok((v.subrange(1, v.len() as int), true))
        } else {
            Ok((v, false))
        },
    }
}

/// The commits that a walk gives. The walk asks for one more than are taken over.
pub fn select_commits(output: &str) -> (r: Result<CommitSelection, String>)
    ensures
        match r {
            Ok(x) => selection(output@) == Ok::<(Seq<Seq<char>>, bool), Seq<char>>(
                (texts(x.order@), x.truncated),
            ),
            Err(e) => selection(output@) == Err::<(Seq<Seq<char>>, bool), Seq<char>>(e@),
        },
{
    let v = lines(output);
    let ghost all = texts(v@);
    let mut i: usize = 0;
    while i < v.len()
        invariant
            i <= v@.len(),
            all == texts(v@),
            all == line_list(output@),
            first_bad(all, 0) == first_bad(all, i as int),
        decreases v@.len() - i,
    {
        assert(all.len() == v@.len());
        assert(all[i as int] == v@[i as int]@);
        match validate_oid(v[i].as_str(), "revision walk") {
            Ok(()) => {},
            Err(e) => return Err(e),
        }
        i += 1;
    }
    assert(all.len() == v@.len());
    if v.len() == 0 {
        return Err(copy_text("Git repository has no commits reachable from HEAD"));
    }
    if v.len() > MAX_COMMITS {
        let order = copy_texts(vstd::slice::slice_subrange(v.as_slice(), 1, v.len()));
        assert(texts(order@) =~= all.subrange(1, all.len() as int));
        return Ok(CommitSelection { order, truncated: true });
    }
    Ok(CommitSelection { order: v, truncated: false })
}

/// Refuses a selection that HEAD is not among.
pub fn require_head(selection: &CommitSelection, head: &str) -> (r: Result<(), String>)
    ensures
        match r {
            Ok(()) => texts(selection.order@).contains(head@),
            Err(e) => !texts(selection.order@).contains(head@) && e@
                == "bounded revision walk did not include HEAD"@,
        },
{
    let ghost all = texts(selection.order@);
    let mut i: usize = 0;
    while i < selection.order.len()
        invariant
            i <= selection.order@.len(),
            all == texts(selection.order@),
            forall|k: int| 0 <= k < i ==> #[trigger] all[k] != head@,
        decreases selection.order@.len() - i,
    {
        assert(all[i as int] == selection.order@[i as int]@);
        if same(selection.order[i].as_str(), head) {
            return Ok(());
        }
        i += 1;
    }
    assert(all.len() == selection.order@.len());
    Err(copy_text("bounded revision walk did not include HEAD"))
}

// ---------------------------------------------------------------------------
// Commits
// ---------------------------------------------------------------------------

/// A commit of the other side.
pub struct SourceCommit {
    pub parents: Vec<String>,
    pub tree: String,
    pub author_name: String,
    pub author_email: String,
    pub timestamp: i64,
    pub message: String,
}

/// What a commit of the other side holds.
#[verifier::ext_equal]
pub struct SourceNote {
    pub parents: Seq<Seq<char>>,
    pub tree: Seq<char>,
    pub author_name: Seq<char>,
    pub author_email: Seq<char>,
    pub timestamp: int,
    pub message: Seq<char>,
}

impl View for SourceCommit {
    type V = SourceNote;

    open spec fn view(&self) -> SourceNote {
        SourceNote {
            parents: texts(self.parents@),
            tree: self.tree@,
            author_name: self.author_name@,
            author_email: self.author_email@,
            timestamp: self.timestamp as int,
            message: self.message@,
        }
    }
}

/// Who made a commit, and when: name, address and seconds; or the complaint.
pub open spec fn author_of(value: Seq<char>, id: Seq<char>) -> Result<(Seq<char>, Seq<char>, int), Seq<char>> {
    match rcut_once_text(value, " <"@) {
        None => Err("commit "@ + id + " has an invalid author"@),
        Some((name, rest)) => match cut_once_text(rest, "> "@) {
            None => Err("commit "@ + id + " has an invalid author email"@),
            Some((email, time)) => {
                let words = word_list(time);
                if words.len() == 0 {
                    Err("commit "@ + id + " has no author timestamp"@)
                } else {
                    match read_signed(words[0], 0x8000_0000_0000_0000) {
                        Some(t) => Ok((name, email, t)),
                        None => Err("commit "@ + id + " has an invalid author timestamp"@),
                    }
                }
            },
        },
    }
}

/// Who made a commit, and when.
pub fn parse_author(value: &str, id: &str) -> (r: Result<(String, String, i64), String>)
    ensures
        match r {
            Ok((n, e, t)) => author_of(value@, id@) == Ok::<(Seq<char>, Seq<char>, int), Seq<char>>(
                (n@, e@, t as int),
            ),
            Err(x) => author_of(value@, id@) == Err::<(Seq<char>, Seq<char>, int), Seq<char>>(x@),
        },
{
    let (name, rest) = match rsplit_once_text(value, " <") {
        Some(x) => x,
        None => return Err(join3("commit ", id, " has an invalid author")),
    };
    let (email, time) = match split_once_text(rest.as_str(), "> ") {
        Some(x) => x,
        None => return Err(join3("commit ", id, " has an invalid author email")),
    };
    let words = split_whitespace(time.as_str());
    assert(texts(words@).len() == words@.len());
    if words.len() == 0 {
        return Err(join3("commit ", id, " has no author timestamp"));
    }
    assert(texts(words@)[0] == words@[0]@);
    match parse_i64(words[0].as_str()) {
        Some(t) => Ok((name, email, t)),
        None => Err(join3("commit ", id, " has an invalid author timestamp")),
    }
}

/// What the headers of a commit say so far.
#[verifier::ext_equal]
pub struct Heading {
    pub tree: Option<Seq<char>>,
    pub parents: Seq<Seq<char>>,
    pub author: Option<(Seq<char>, Seq<char>, int)>,
}

/// What the headers from `i` on say, with what was read before; or the complaint.
pub open spec fn headings(v: Seq<Seq<char>>, id: Seq<char>, h: Heading, i: int) -> Result<Heading, Seq<char>>
    decreases v.len() - i,
{
    if i < 0 || i >= v.len() {
        Ok(h)
    } else {
        match after_prefix(v[i], "tree "@) {
            Some(value) => if is_oid(value) {
                headings(v, id, Heading { tree: Some(value), ..h }, i + 1)
            } else {
                Err(bad_oid(value, "commit tree"@))
            },
            None => match after_prefix(v[i], "parent "@) {
                Some(value) => if !is_oid(value) {
                    Err(bad_oid(value, "commit parent"@))
                } else if h.parents.len() + 1 > MAX_COMMIT_PARENTS {
                    Err(
                        "commit "@ + id + " exceeds the "@ + decimal(MAX_COMMIT_PARENTS as nat)
                            + "-parent spike limit"@,
                    )
                } else {
                    headings(v, id, Heading { parents: h.parents.push(value), ..h }, i + 1)
                },
                None => match after_prefix(v[i], "author "@) {
                    Some(value) => match author_of(value, id) {
                        Ok(a) => headings(v, id, Heading { author: Some(a), ..h }, i + 1),
                        Err(e) => Err(e),
                    },
                    None => headings(v, id, h, i + 1),
                },
            },
        }
    }
}

/// The commit that bytes of the other side hold, or the complaint.
pub open spec fn source_of(bytes: Seq<u8>, id: Seq<char>) -> Result<SourceNote, Seq<char>> {
    if !valid_utf8(bytes) {
        Err("commit "@ + id + " contains non-UTF-8 metadata or message"@)
    } else {
        match cut_once_text(decode_utf8(bytes), "\n\n"@) {
            None => Err("commit "@ + id + " has no header terminator"@),
            Some((header, message)) => match headings(
                line_list(header),
                id,
                Heading { tree: None, parents: seq![], author: None },
                0,
            ) {
                Err(e) => Err(e),
                Ok(h) => match h.author {
                    None => Err("commit "@ + id + " has no author"@),
                    Some((author_name, author_email, timestamp)) => match h.tree {
                        None => Err("commit "@ + id + " has no tree"@),
                        Some(tree) => Ok(
                            SourceNote {
                                parents: h.parents,
                                tree,
                                author_name,
                                author_email,
                                timestamp,
                                message,
                            },
                        ),
                    },
                },
            },
        }
    }
}

/// What an optional author holds.
pub open spec fn opt_author(o: Option<(String, String, i64)>) -> Option<(Seq<char>, Seq<char>, int)> {
    match o {
        Some((n, e, t)) => Some((n@, e@, t as int)),
        None => None,
    }
}

/// Reads a commit of the other side.
pub fn parse_commit(bytes: &[u8], id: &str) -> (r: Result<SourceCommit, String>)
    ensures
        match r {
            Ok(c) => source_of(bytes@, id@) == Ok::<SourceNote, Seq<char>>(c@),
            Err(e) => source_of(bytes@, id@) == Err::<SourceNote, Seq<char>>(e@),
        },
{
    let text = match decode(bytes) {
        Some(t) => t,
        None => return Err(join3("commit ", id, " contains non-UTF-8 metadata or message")),
    };
    let (header, message) = match split_once_text(text.as_str(), "\n\n") {
        Some(x) => x,
        None => return Err(join3("commit ", id, " has no header terminator")),
    };
    let v = lines(header.as_str());
    let ghost all = texts(v@);
    let mut tree: Option<String> = None;
    let mut parents: Vec<String> = Vec::new();
    let mut author: Option<(String, String, i64)> = None;
    let mut i: usize = 0;
    let ghost start = Heading { tree: None, parents: seq![], author: None };
    assert(texts(parents@) =~= seq![]);
    let ghost goal = headings(all, id@, start, 0);
    while i < v.len()
        invariant
            i <= v@.len(),
            all == texts(v@),
            all == line_list(header@),
            valid_utf8(bytes@),
            cut_once_text(decode_utf8(bytes@), "\n\n"@) == Some((header@, message@)),
            start == (Heading { tree: None, parents: seq![], author: None }),
            goal == headings(all, id@, start, 0),
            goal == headings(
                all,
                id@,
                (Heading {
                    tree: opt_text(tree),
                    parents: texts(parents@),
                    author: opt_author(author),
                }),
                i as int,
            ),
        decreases v@.len() - i,
    {
        broadcast use lemma_texts_push;

        assert(all.len() == v@.len());
        assert(all[i as int] == v@[i as int]@);
        assert(texts(parents@).len() == parents@.len());
        let line = v[i].as_str();
        if let Some(value) = strip_prefix(line, "tree ") {
            match validate_oid(value.as_str(), "commit tree") {
                Ok(()) => {},
                Err(e) => return Err(e),
            }
            tree = Some(value);
        } else if let Some(value) = strip_prefix(line, "parent ") {
            match validate_oid(value.as_str(), "commit parent") {
                Ok(()) => {},
                Err(e) => return Err(e),
            }
            if parents.len() >= MAX_COMMIT_PARENTS {
                return Err(
                    join5(
                        "commit ",
                        id,
                        " exceeds the ",
                        format_usize(MAX_COMMIT_PARENTS).as_str(),
                        "-parent spike limit",
                    ),
                );
            }
            parents.push(value);
        } else if let Some(value) = strip_prefix(line, "author ") {
            match parse_author(value.as_str(), id) {
                Ok(a) => author = Some(a),
                Err(e) => return Err(e),
            }
        }
        i += 1;
    }
    assert(all.len() == v@.len());
    match author {
        None => Err(join3("commit ", id, " has no author")),
        Some((author_name, author_email, timestamp)) => match tree {
            None => Err(join3("commit ", id, " has no tree")),
            Some(tree) => Ok(
                SourceCommit { parents, tree, author_name, author_email, timestamp, message },
            ),
        },
    }
}

// ---------------------------------------------------------------------------
// Trees
// ---------------------------------------------------------------------------

/// One entry of a tree of the other side.
#[derive(Debug)]
pub struct RawTreeEntry {
    pub mode: String,
    pub name: Vec<u8>,
    pub id: String,
}

/// What an entry of a tree of the other side holds.
#[verifier::ext_equal]
pub struct RawEntry {
    pub mode: Seq<char>,
    pub name: Seq<u8>,
    pub id: Seq<char>,
}

impl View for RawTreeEntry {
    type V = RawEntry;

    open spec fn view(&self) -> RawEntry {
        RawEntry { mode: self.mode@, name: self.name@, id: self.id@ }
    }
}

/// What a list of entries holds.
pub open spec fn raw_entries(v: Seq<RawTreeEntry>) -> Seq<RawEntry> {
    v.map_values(|e: RawTreeEntry| e@)
}

/// Where a byte stands first at or after `i`.
pub open spec fn byte_from(bytes: Seq<u8>, b: u8, i: int) -> Option<int>
    decreases bytes.len() - i,
{
    if i < 0 || i >= bytes.len() {
        None
    } else if bytes[i] == b {
        Some(i)
    } else {
        byte_from(bytes, b, i + 1)
    }
}

fn find_byte(bytes: &[u8], b: u8, from: usize) -> (r: Option<usize>)
    requires
        from <= bytes@.len(),
    ensures
        match r {
            Some(k) => byte_from(bytes@, b, from as int) == Some(k as int) && from <= k
                < bytes@.len(),
            None => byte_from(bytes@, b, from as int) is None,
        },
{
    let mut i: usize = from;
    while i < bytes.len()
        invariant
            from <= i <= bytes@.len(),
            byte_from(bytes@, b, from as int) == byte_from(bytes@, b, i as int),
        decreases bytes@.len() - i,
    {
        if bytes[i] == b {
            return Some(i);
        }
        i += 1;
    }
    None
}

/// The entries of a tree from `i` on, with those before; or the complaint. Each is a mode, a space,
/// a name, a zero byte and the twenty bytes of a name of an object.
pub open spec fn entries_from(bytes: Seq<u8>, id: Seq<char>, out: Seq<RawEntry>, i: int) -> Result<
    Seq<RawEntry>,
    Seq<char>,
>
    decreases bytes.len() - i,
{
    if i < 0 || i >= bytes.len() {
        Ok(out)
    } else {
        match byte_from(bytes, 32, i) {
            None => Err("tree "@ + id + " has an unterminated mode"@),
            Some(space) => if !valid_utf8(bytes.subrange(i, space)) {
                Err("tree "@ + id + " has a non-ASCII mode"@)
            } else {
                match byte_from(bytes, 0, space + 1) {
                    None => Err("tree "@ + id + " has an unterminated name"@),
                    Some(zero) => if zero + 21 > bytes.len() || zero < i {
                        Err("tree "@ + id + " has a truncated object id"@)
                    } else {
                        entries_from(
                            bytes,
                            id,
                            out.push(
                                RawEntry {
                                    mode: decode_utf8(bytes.subrange(i, space)),
                                    name: bytes.subrange(space + 1, zero),
                                    id: hex(bytes.subrange(zero + 1, zero + 21)),
                                },
                            ),
                            zero + 21,
                        )
                    },
                }
            },
        }
    }
}

/// Reads the entries of a tree of the other side.
pub fn parse_tree_entries(bytes: &[u8], id: &str) -> (r: Result<Vec<RawTreeEntry>, String>)
    ensures
        match r {
            Ok(v) => entries_from(bytes@, id@, seq![], 0) == Ok::<Seq<RawEntry>, Seq<char>>(
                raw_entries(v@),
            ),
            Err(e) => entries_from(bytes@, id@, seq![], 0) == Err::<Seq<RawEntry>, Seq<char>>(e@),
        },
{
    let mut out: Vec<RawTreeEntry> = Vec::new();
    let mut i: usize = 0;
    assert(raw_entries(out@) =~= seq![]);
    let ghost goal = entries_from(bytes@, id@, seq![], 0);
    while i < bytes.len()
        invariant
            i <= bytes@.len(),
            bytes@.len() == bytes.len(),
            goal == entries_from(bytes@, id@, seq![], 0),
            goal == entries_from(bytes@, id@, raw_entries(out@), i as int),
        decreases bytes@.len() - i,
    {
        let space = match find_byte(bytes, 32, i) {
            Some(k) => k,
            None => return Err(join3("tree ", id, " has an unterminated mode")),
        };
        let mode = match decode(vstd::slice::slice_subrange(bytes, i, space)) {
            Some(t) => t,
            None => return Err(join3("tree ", id, " has a non-ASCII mode")),
        };
        let zero = match find_byte(bytes, 0, space + 1) {
            Some(k) => k,
            None => return Err(join3("tree ", id, " has an unterminated name")),
        };
        if bytes.len() - zero < 21 {
            return Err(join3("tree ", id, " has a truncated object id"));
        }
        let name = crate::text::copy_bytes(vstd::slice::slice_subrange(bytes, space + 1, zero));
        let hash = encode_hex(vstd::slice::slice_subrange(bytes, zero + 1, zero + 21));
        let entry = RawTreeEntry { mode, name, id: hash };
        let ghost was = out@;
        let ghost e = entry;
        out.push(entry);
        assert(raw_entries(out@) =~= raw_entries(was).push(e@));
        i = zero + 21;
    }
    Ok(out)
}

// ---------------------------------------------------------------------------
// Walking a tree
// ---------------------------------------------------------------------------

/// What has been taken over so far.
pub struct TranslationState {
    pub blobs: OrdMap<()>,
    pub tree_entries: usize,
}

/// What has been taken over so far.
#[verifier::ext_equal]
pub struct Tally {
    pub blobs: Seq<(Seq<char>, ())>,
    pub tree_entries: nat,
}

impl View for TranslationState {
    type V = Tally;

    open spec fn view(&self) -> Tally {
        Tally { blobs: self.blobs@, tree_entries: self.tree_entries as nat }
    }
}

/// A directory that is still to be read.
pub struct Pending {
    pub prefix: String,
    pub id: String,
    pub depth: usize,
}

/// A directory that is still to be read: its path, the name of its tree, and how deep it lies.
pub type Spot = (Seq<char>, Seq<char>, nat);

/// What a list of directories holds.
pub open spec fn spots_of(v: Seq<Pending>) -> Seq<Spot> {
    v.map_values(|p: Pending| (p.prefix@, p.id@, p.depth as nat))
}

/// A walk through the tree of a commit.
pub struct TreeWalk {
    pub imported: Tree,
    pub pending: Vec<Pending>,
    /// The entries of the directory that is being read, and the next of them.
    pub entries: Vec<RawTreeEntry>,
    pub next: usize,
    pub prefix: String,
    pub depth: usize,
}

/// A walk through the tree of a commit.
#[verifier::ext_equal]
pub struct Walk {
    pub imported: Files,
    pub pending: Seq<Spot>,
    pub entries: Seq<RawEntry>,
    pub next: nat,
    pub prefix: Seq<char>,
    pub depth: nat,
}

impl View for TreeWalk {
    type V = Walk;

    open spec fn view(&self) -> Walk {
        Walk {
            imported: self.imported@,
            pending: spots_of(self.pending@),
            entries: raw_entries(self.entries@),
            next: self.next as nat,
            prefix: self.prefix@,
            depth: self.depth as nat,
        }
    }
}

/// A walk that is about to start.
pub open spec fn walk_start(root: Seq<char>) -> Walk {
    Walk {
        imported: seq![],
        pending: seq![(""@, root, 0nat)],
        entries: seq![],
        next: 0,
        prefix: ""@,
        depth: 0,
    }
}

/// Starts a walk through a tree.
pub fn start_walk(root: &str) -> (r: TreeWalk)
    ensures
        r@ == walk_start(root@),
        r.next <= r.entries@.len(),
        r.depth <= MAX_TREE_DEPTH,
        forall|k: int| 0 <= k < r.pending@.len() ==> (#[trigger] r.pending@[k]).depth <= MAX_TREE_DEPTH + 1,
{
    let mut pending: Vec<Pending> = Vec::new();
    pending.push(Pending { prefix: copy_text(""), id: copy_text(root), depth: 0 });
    let walk = TreeWalk {
        imported: OrdMap::new(),
        pending,
        entries: Vec::new(),
        next: 0,
        prefix: copy_text(""),
        depth: 0,
    };
    assert(walk@.imported =~= seq![]);
    assert(walk@.pending =~= seq![(""@, root@, 0nat)]);
    assert(walk@.entries =~= seq![]);
    walk
}

/// Whether a walk is in a state that walking can reach.
pub open spec fn sound_walk(w: TreeWalk) -> bool {
    &&& w.next <= w.entries@.len()
    &&& w.depth <= MAX_TREE_DEPTH
    &&& forall|k: int|
        0 <= k < w.pending@.len() ==> (#[trigger] w.pending@[k]).depth <= MAX_TREE_DEPTH + 1
}

/// The object that a walk needs next.
pub enum Ask {
    Tree(String),
    Blob(String),
    Nothing,
}

/// The object that a walk needs next.
pub enum Need {
    Tree(Seq<char>),
    Blob(Seq<char>),
    Nothing,
}

impl View for Ask {
    type V = Need;

    open spec fn view(&self) -> Need {
        match *self {
            Ask::Tree(id) => Need::Tree(id@),
            Ask::Blob(id) => Need::Blob(id@),
            Ask::Nothing => Need::Nothing,
        }
    }
}

/// The path of an entry, or the complaint about its name.
pub open spec fn entry_path(prefix: Seq<char>, name: Seq<u8>) -> Result<Seq<char>, Seq<char>> {
    if !valid_utf8(name) {
        Err("non-UTF-8 Git tree path is unsupported by this spike"@)
    } else {
        let text = decode_utf8(name);
        let path = if prefix.len() == 0 {
            text
        } else {
            prefix + "/"@ + text
        };
        if unsafe_part(text) || holds(text, "/"@) {
            Err("unsafe Git tree path component: "@ + debug_text(text))
        } else if encode_utf8(path).len() > MAX_PATH_BYTES {
            Err("Git path exceeds the "@ + decimal(MAX_PATH_BYTES as nat) + "-byte spike limit"@)
        } else {
            Ok(path)
        }
    }
}

fn find_entry_path(prefix: &str, name: &[u8]) -> (r: Result<String, String>)
    ensures
        said(r) == entry_path(prefix@, name@),
{
    let text = match decode(name) {
        Some(t) => t,
        None => return Err(copy_text("non-UTF-8 Git tree path is unsupported by this spike")),
    };
    if is_unsafe_part(text.as_str()) || contains(text.as_str(), "/") {
        return Err(join2("unsafe Git tree path component: ", quoted(text.as_str()).as_str()));
    }
    let path = if prefix.is_empty() {
        text
    } else {
        join3(prefix, "/", text.as_str())
    };
    if path.as_str().as_bytes().len() > MAX_PATH_BYTES {
        return Err(
            join3(
                "Git path exceeds the ",
                format_usize(MAX_PATH_BYTES).as_str(),
                "-byte spike limit",
            ),
        );
    }
    Ok(path)
}

/// Whether a mode is that of a directory.
pub open spec fn directory_mode(mode: Seq<char>) -> bool {
    mode == "40000"@ || mode == "040000"@
}

/// Whether a mode is that of a file or a link.
pub open spec fn leaf_mode(mode: Seq<char>) -> bool {
    mode == "100644"@ || mode == "100755"@ || mode == "120000"@
}

/// The tree with one more file.
pub open spec fn leaf_added(t: Files, path: Seq<char>, e: RawEntry) -> Files {
    bind(
        t,
        path,
        Record { hash: e.id, executable: e.mode == "100755"@, symlink: e.mode == "120000"@ },
    )
}

/// What a walk does until it needs an object: it takes the entries of the directory that was read,
/// one after the other, and then the directory that was met last.
pub open spec fn walked(w: Walk, c: Tally) -> (Walk, Tally, Result<Need, Seq<char>>)
    decreases w.entries.len() - w.next,
{
    if w.next >= w.entries.len() {
        if w.pending.len() == 0 {
            (w, c, Ok(Need::Nothing))
        } else {
            let (prefix, id, depth) = w.pending.last();
            let rest = Walk { pending: w.pending.drop_last(), ..w };
            if depth > MAX_TREE_DEPTH {
                (
                    rest,
                    c,
                    Err(
                        "Git tree exceeds the "@ + decimal(MAX_TREE_DEPTH as nat)
                            + "-level spike limit"@,
                    ),
                )
            } else {
                (
                    Walk { entries: seq![], next: 0, prefix, depth, ..rest },
                    c,
                    Ok(Need::Tree(id)),
                )
            }
        }
    } else {
        let e = w.entries[w.next as int];
        let more = Tally { tree_entries: c.tree_entries + 1, ..c };
        if more.tree_entries > MAX_TREE_ENTRIES {
            (
                w,
                c,
                Err(
                    "translated history exceeds the "@ + decimal(MAX_TREE_ENTRIES as nat)
                        + "-tree-entry spike limit"@,
                ),
            )
        } else {
            match entry_path(w.prefix, e.name) {
                Err(message) => (w, more, Err(message)),
                Ok(path) => if directory_mode(e.mode) {
                    walked(
                        Walk {
                            pending: w.pending.push((path, e.id, w.depth + 1)),
                            next: w.next + 1,
                            ..w
                        },
                        more,
                    )
                } else if leaf_mode(e.mode) {
                    let after = Walk {
                        imported: leaf_added(w.imported, path, e),
                        next: w.next + 1,
                        ..w
                    };
                    if lookup(more.blobs, e.id) is Some {
                        walked(after, more)
                    } else {
                        (
                            after,
                            Tally { blobs: bind(more.blobs, e.id, ()), ..more },
                            Ok(Need::Blob(e.id)),
                        )
                    }
                } else if e.mode == "160000"@ {
                    (w, more, Err("submodule at "@ + path + " is unsupported by this spike"@))
                } else {
                    (w, more, Err("unsupported Git mode "@ + e.mode + " at "@ + path))
                },
            }
        }
    }
}

/// What a walk needs, or the complaint.
pub open spec fn needed(r: Result<Ask, String>) -> Result<Need, Seq<char>> {
    match r {
        Ok(a) => Ok(a@),
        Err(e) => Err(e@),
    }
}

/// Walks on until an object is needed.
pub fn advance_walk(w: &mut TreeWalk, c: &mut TranslationState) -> (r: Result<Ask, String>)
    requires
        sound_walk(*old(w)),
        old(c).tree_entries <= MAX_TREE_ENTRIES,
    ensures
        (final(w)@, final(c)@, needed(r)) == walked(old(w)@, old(c)@),
        sound_walk(*final(w)),
        final(c).tree_entries <= MAX_TREE_ENTRIES,
{
    let ghost goal = walked(w@, c@);
    while w.next < w.entries.len()
        invariant
            sound_walk(*w),
            c.tree_entries <= MAX_TREE_ENTRIES,
            goal == walked(old(w)@, old(c)@),
            goal == walked(w@, c@),
        decreases w.entries@.len() - w.next,
    {
        let ghost before = w@;
        assert(w@.entries[w.next as int] == w.entries@[w.next as int]@);
        assert(w@.entries.len() == w.entries@.len());
        if c.tree_entries >= MAX_TREE_ENTRIES {
            return Err(
                join3(
                    "translated history exceeds the ",
                    format_usize(MAX_TREE_ENTRIES).as_str(),
                    "-tree-entry spike limit",
                ),
            );
        }
        c.tree_entries = c.tree_entries + 1;
        let path = match find_entry_path(w.prefix.as_str(), w.entries[w.next].name.as_slice()) {
            Ok(p) => p,
            Err(e) => return Err(e),
        };
        let mode = copy_text(w.entries[w.next].mode.as_str());
        let id = copy_text(w.entries[w.next].id.as_str());
        if same(mode.as_str(), "40000") || same(mode.as_str(), "040000") {
            let spot = Pending { prefix: path, id, depth: w.depth + 1 };
            let ghost was = w.pending@;
            let ghost g = spot;
            w.pending.push(spot);
            assert(spots_of(w.pending@) =~= spots_of(was).push(
                (g.prefix@, g.id@, g.depth as nat),
            ));
            w.next = w.next + 1;
        } else if same(mode.as_str(), "100644") || same(mode.as_str(), "100755") || same(
            mode.as_str(),
            "120000",
        ) {
            w.imported.insert(
                path,
                Entry {
                    hash: copy_text(id.as_str()),
                    executable: same(mode.as_str(), "100755"),
                    symlink: same(mode.as_str(), "120000"),
                },
            );
            w.next = w.next + 1;
            if !c.blobs.contains_key(id.as_str()) {
                c.blobs.insert(copy_text(id.as_str()), ());
                return Ok(Ask::Blob(id));
            }
        } else if same(mode.as_str(), "160000") {
            return Err(
                join3("submodule at ", path.as_str(), " is unsupported by this spike"),
            );
        } else {
            return Err(join4("unsupported Git mode ", mode.as_str(), " at ", path.as_str()));
        }
    }
    assert(w@.entries.len() == w.entries@.len());
    assert(w@.pending.len() == w.pending@.len());
    let ghost was = w.pending@;
    match w.pending.pop() {
        None => Ok(Ask::Nothing),
        Some(spot) => {
            assert(was[was.len() - 1] == spot);
            assert(spots_of(was).last() == (spot.prefix@, spot.id@, spot.depth as nat));
            assert(spots_of(w.pending@) =~= spots_of(was).drop_last());
            if spot.depth > MAX_TREE_DEPTH {
                return Err(
                    join3(
                        "Git tree exceeds the ",
                        format_usize(MAX_TREE_DEPTH).as_str(),
                        "-level spike limit",
                    ),
                );
            }
            w.entries = Vec::new();
            assert(raw_entries(w.entries@) =~= seq![]);
            w.next = 0;
            w.prefix = spot.prefix;
            w.depth = spot.depth;
            Ok(Ask::Tree(spot.id))
        },
    }
}

/// The walk once the directory that it asked for is read.
pub open spec fn tree_taken(w: Walk, bytes: Seq<u8>, id: Seq<char>) -> Result<Walk, Seq<char>> {
    match entries_from(bytes, id, seq![], 0) {
        Ok(entries) => Ok(Walk { entries, next: 0, ..w }),
        Err(e) => Err(e),
    }
}

/// Hands a walk the directory that it asked for.
pub fn take_tree(w: &mut TreeWalk, bytes: &[u8], id: &str) -> (r: Result<(), String>)
    requires
        sound_walk(*old(w)),
    ensures
        match r {
            Ok(()) => tree_taken(old(w)@, bytes@, id@) == Ok::<Walk, Seq<char>>(final(w)@),
            Err(e) => tree_taken(old(w)@, bytes@, id@) == Err::<Walk, Seq<char>>(e@)
                && final(w)@ == old(w)@,
        },
        sound_walk(*final(w)),
{
    match parse_tree_entries(bytes, id) {
        Ok(v) => {
            w.entries = v;
            w.next = 0;
            Ok(())
        },
        Err(e) => Err(e),
    }
}

/// Storing a blob that a walk asked for; the complaint where that cannot be done, or where the blob
/// is not the one that was asked for.
pub open spec fn blob_taken(m: Machine, root: Seq<char>, data: Seq<u8>, id: Seq<char>) -> (
    Machine,
    Option<Seq<char>>,
) {
    match blob_stored(m, root, data) {
        (n, Err(e)) => (
            n,
            Some("cannot store imported blob "@ + id + ": "@ + refusal_text(e)),
        ),
        (n, Ok(())) => if blob_id(data) == id {
            (n, None)
        } else {
            (n, Some("blob "@ + id + " did not retain its SHA-1 during import"@))
        },
    }
}

/// What a complaint says.
pub open spec fn complaint(r: Result<(), String>) -> Option<Seq<char>> {
    match r {
        Ok(()) => None,
        Err(e) => Some(e@),
    }
}

/// Stores a blob that a walk asked for.
pub fn take_blob(system: &mut System, root: &str, data: &[u8], id: &str) -> (r: Result<(), String>)
    ensures
        (final(system)@, complaint(r)) == blob_taken(old(system)@, root@, data@, id@),
{
    match write_blob(system, root, data) {
        Err(e) => Err(join4("cannot store imported blob ", id, ": ", e.message().as_str())),
        Ok(hash) => if same(hash.as_str(), id) {
            Ok(())
        } else {
            Err(join3("blob ", id, " did not retain its SHA-1 during import"))
        },
    }
}

// ---------------------------------------------------------------------------
// Storing the history
// ---------------------------------------------------------------------------

/// The settings that a new repository starts with.
pub open spec fn first_settings() -> Keys {
    bind(
        bind(
            bind(
                bind(seq![], "core.bare"@, seq!["false"@]),
                "core.filemode"@,
                seq!["true"@],
            ),
            "core.logallrefupdates"@,
            seq!["true"@],
        ),
        "core.repositoryformatversion"@,
        seq!["0"@],
    )
}

fn one_value(v: &str) -> (r: Values)
    ensures
        r@ == seq![v@],
{
    let mut list: Vec<String> = Vec::new();
    list.push(copy_text(v));
    assert(texts(list@) =~= seq![v@]);
    Values { list }
}

/// The settings that a new repository starts with.
pub fn default_config() -> (r: Config)
    ensures
        r@ == first_settings(),
{
    let mut c: Config = OrdMap::new();
    assert(c@ =~= seq![]);
    c.insert(copy_text("core.bare"), one_value("false"));
    c.insert(copy_text("core.filemode"), one_value("true"));
    c.insert(copy_text("core.logallrefupdates"), one_value("true"));
    c.insert(copy_text("core.repositoryformatversion"), one_value("0"));
    c
}

/// Making directories from `i` on; the refusal of the first that cannot be made.
pub open spec fn directories_made(m: Machine, v: Seq<Seq<char>>, i: int) -> (Machine, Result<(), Refusal>)
    decreases v.len() - i,
{
    if i < 0 || i >= v.len() {
        (m, Ok(()))
    } else {
        match settled(m, with_parents(m.files, v[i] + "/."@)) {
            (n, Ok(())) => directories_made(n, v, i + 1),
            (n, Err(e)) => (n, Err(e)),
        }
    }
}

/// Makes directories.
pub fn make_directories(system: &mut System, v: &[String]) -> (r: Result<(), crate::system::FileError>)
    ensures
        (final(system)@, outcome(r)) == directories_made(old(system)@, texts(v@), 0),
{
    let ghost all = texts(v@);
    let mut i: usize = 0;
    let ghost goal = directories_made(system@, all, 0);
    while i < v.len()
        invariant
            i <= v@.len(),
            all == texts(v@),
            goal == directories_made(old(system)@, all, 0),
            goal == directories_made(system@, all, i as int),
        decreases v@.len() - i,
    {
        assert(all.len() == v@.len());
        assert(all[i as int] == v@[i as int]@);
        match system.mkdir_all(v[i].as_str()) {
            Ok(()) => {},
            Err(e) => return Err(e),
        }
        i += 1;
    }
    assert(all.len() == v@.len());
    Ok(())
}

/// The directories of a repository.
pub open spec fn repository_directories(root: Seq<char>) -> Seq<Seq<char>> {
    let git = below(root, ".git"@);
    seq![
        git,
        below(git, "refs/heads"@),
        below(git, "refs/tags"@),
        below(git, "commits"@),
        below(git, "objects"@),
    ]
}

/// The directories of a repository.
pub fn list_directories(root: &str) -> (r: Vec<String>)
    ensures
        texts(r@) == repository_directories(root@),
{
    let git = path_join(root, ".git");
    let mut v: Vec<String> = Vec::new();
    v.push(copy_text(git.as_str()));
    v.push(path_join(git.as_str(), "refs/heads"));
    v.push(path_join(git.as_str(), "refs/tags"));
    v.push(path_join(git.as_str(), "commits"));
    v.push(path_join(git.as_str(), "objects"));
    assert(texts(v@) =~= repository_directories(root@));
    v
}

/// Making an empty repository to take a history over into; the complaint where that fails.
pub open spec fn repository_made(m: Machine, root: Seq<char>) -> (Machine, Option<Seq<char>>) {
    match directories_made(m, repository_directories(root), 0) {
        (n, Err(e)) => (n, Some("cannot initialize imported repository: "@ + refusal_text(e))),
        (n, Ok(())) => match written(
            n,
            git_file(root, "config"@),
            settings_bytes(first_settings()),
        ) {
            (k, Err(e)) => (k, Some("cannot store imported Git config: "@ + refusal_text(e))),
            (k, Ok(())) => (k, None),
        },
    }
}

/// Makes an empty repository to take a history over into.
pub fn initialize_private_repository(system: &mut System, root: &str) -> (r: Result<(), String>)
    ensures
        (final(system)@, complaint(r)) == repository_made(old(system)@, root@),
{
    match make_directories(system, list_directories(root).as_slice()) {
        Ok(()) => {},
        Err(e) => return Err(
            join2("cannot initialize imported repository: ", e.message().as_str()),
        ),
    }
    let bytes = serialize_config(&default_config());
    match write_vfs(system, git_path(root, "config").as_str(), bytes.as_slice()) {
        Ok(()) => Ok(()),
        Err(e) => Err(join2("cannot store imported Git config: ", e.message().as_str())),
    }
}

/// The parents of a commit that are taken over, from `i` on, by their new names; or the complaint
/// about one that was not stored yet.
pub open spec fn new_parents(
    parents: Seq<Seq<char>>,
    selected: Seq<Seq<char>>,
    names: Seq<(Seq<char>, Seq<char>)>,
    id: Seq<char>,
    out: Seq<Seq<char>>,
    i: int,
) -> Result<Seq<Seq<char>>, Seq<char>>
    decreases parents.len() - i,
{
    if i < 0 || i >= parents.len() {
        Ok(out)
    } else if !selected.contains(parents[i]) {
        new_parents(parents, selected, names, id, out, i + 1)
    } else {
        match lookup(names, parents[i]) {
            Some(name) => new_parents(parents, selected, names, id, out.push(name), i + 1),
            None => Err(
                "selected parent "@ + parents[i] + " was not imported before "@ + id,
            ),
        }
    }
}

fn list_holds(v: &[String], s: &str) -> (r: bool)
    ensures
        r == texts(v@).contains(s@),
{
    let ghost all = texts(v@);
    let mut i: usize = 0;
    while i < v.len()
        invariant
            i <= v@.len(),
            all == texts(v@),
            forall|k: int| 0 <= k < i ==> all[k] != s@,
        decreases v@.len() - i,
    {
        assert(all.len() == v@.len());
        assert(all[i as int] == v@[i as int]@);
        if same(v[i].as_str(), s) {
            assert(all.contains(s@));
            return true;
        }
        i += 1;
    }
    assert(all.len() == v@.len());
    assert(!all.contains(s@));
    false
}

fn find_parents(parents: &[String], selected: &[String], names: &OrdMap<String>, id: &str) -> (r: Result<
    Vec<String>,
    String,
>)
    ensures
        match r {
            Ok(v) => new_parents(texts(parents@), texts(selected@), names@, id@, seq![], 0) == Ok::<
                Seq<Seq<char>>,
                Seq<char>,
            >(texts(v@)),
            Err(e) => new_parents(texts(parents@), texts(selected@), names@, id@, seq![], 0)
                == Err::<Seq<Seq<char>>, Seq<char>>(e@),
        },
{
    let ghost all = texts(parents@);
    let mut out: Vec<String> = Vec::new();
    let mut i: usize = 0;
    assert(texts(out@) =~= seq![]);
    let ghost goal = new_parents(all, texts(selected@), names@, id@, seq![], 0);
    while i < parents.len()
        invariant
            i <= parents@.len(),
            all == texts(parents@),
            goal == new_parents(all, texts(selected@), names@, id@, seq![], 0),
            goal == new_parents(all, texts(selected@), names@, id@, texts(out@), i as int),
        decreases parents@.len() - i,
    {
        broadcast use lemma_texts_push;

        assert(all.len() == parents@.len());
        assert(all[i as int] == parents@[i as int]@);
        if list_holds(selected, parents[i].as_str()) {
            match names.get(parents[i].as_str()) {
                Some(name) => out.push(copy_text(name.as_str())),
                None => return Err(
                    join4(
                        "selected parent ",
                        parents[i].as_str(),
                        " was not imported before ",
                        id,
                    ),
                ),
            }
        }
        i += 1;
    }
    assert(all.len() == parents@.len());
    Ok(out)
}

/// Storing a commit that is taken over: its new name, or the complaint. Of its parents those that are
/// not taken over are dropped.
pub open spec fn source_stored(
    m: Machine,
    root: Seq<char>,
    c: SourceNote,
    t: Files,
    selected: Seq<Seq<char>>,
    names: Seq<(Seq<char>, Seq<char>)>,
    id: Seq<char>,
) -> (Machine, Result<Seq<char>, Seq<char>>) {
    match new_parents(c.parents, selected, names, id, seq![], 0) {
        Err(e) => (m, Err(e)),
        Ok(parents) => {
            let n = Note {
                parents,
                author_name: c.author_name,
                author_email: c.author_email,
                timestamp: c.timestamp,
                message: c.message,
            };
            match commit_stored(m, root, n, t) {
                (k, Ok(())) => (k, Ok(commit_id(n, t))),
                (k, Err(e)) => (
                    k,
                    Err("cannot store imported commit "@ + id + ": "@ + refusal_text(e)),
                ),
            }
        },
    }
}

/// Stores a commit that is taken over.
pub fn store_source(
    system: &mut System,
    root: &str,
    c: SourceCommit,
    t: &Tree,
    selected: &[String],
    names: &OrdMap<String>,
    id: &str,
) -> (r: Result<String, String>)
    ensures
        (final(system)@, said(r)) == source_stored(
            old(system)@,
            root@,
            c@,
            t@,
            texts(selected@),
            names@,
            id@,
        ),
{
    let parents = match find_parents(c.parents.as_slice(), selected, names, id) {
        Ok(v) => v,
        Err(e) => return Err(e),
    };
    let commit = Commit {
        parents,
        author_name: c.author_name,
        author_email: c.author_email,
        timestamp: c.timestamp,
        message: c.message,
    };
    match store_commit(system, root, &commit, t) {
        Ok(name) => Ok(name),
        Err(e) => Err(
            join4("cannot store imported commit ", id, ": ", e.message().as_str()),
        ),
    }
}

/// Putting HEAD and the index of a history that was taken over in place; the complaint where that
/// fails.
pub open spec fn head_placed(
    m: Machine,
    root: Seq<char>,
    reference: Option<Seq<char>>,
    head: Seq<char>,
    t: Files,
) -> (Machine, Option<Seq<char>>) {
    match index_stored(m, root, t) {
        (n, Err(e)) => (n, Some("cannot store imported index: "@ + refusal_text(e))),
        (n, Ok(())) => match reference {
            Some(name) => match reference_written(n, root, name, head) {
                (k, Err(e)) => (k, Some("cannot store imported branch: "@ + refusal_text(e))),
                (k, Ok(())) => match written(
                    k,
                    git_file(root, "HEAD"@),
                    encode_utf8("ref: "@ + name + "\n"@),
                ) {
                    (j, Err(e)) => (j, Some("cannot store imported HEAD: "@ + refusal_text(e))),
                    (j, Ok(())) => (j, None),
                },
            },
            None => match written(n, git_file(root, "HEAD"@), encode_utf8(head + "\n"@)) {
                (k, Err(e)) => (k, Some("cannot store detached HEAD: "@ + refusal_text(e))),
                (k, Ok(())) => (k, None),
            },
        },
    }
}

/// Puts HEAD and the index of a history that was taken over in place.
pub fn place_head(system: &mut System, root: &str, reference: &Option<String>, head: &str, t: &Tree) -> (r: Result<
    (),
    String,
>)
    ensures
        (final(system)@, complaint(r)) == head_placed(
            old(system)@,
            root@,
            opt_text(*reference),
            head@,
            t@,
        ),
{
    match store_index(system, root, t) {
        Ok(()) => {},
        Err(e) => return Err(join2("cannot store imported index: ", e.message().as_str())),
    }
    match reference {
        Some(name) => {
            match write_reference(system, root, name.as_str(), head) {
                Ok(()) => {},
                Err(e) => return Err(
                    join2("cannot store imported branch: ", e.message().as_str()),
                ),
            }
            match write_vfs(
                system,
                git_path(root, "HEAD").as_str(),
                join3("ref: ", name.as_str(), "\n").as_str().as_bytes(),
            ) {
                Ok(()) => Ok(()),
                Err(e) => Err(join2("cannot store imported HEAD: ", e.message().as_str())),
            }
        },
        None => match write_vfs(
            system,
            git_path(root, "HEAD").as_str(),
            join2(head, "\n").as_str().as_bytes(),
        ) {
            Ok(()) => Ok(()),
            Err(e) => Err(join2("cannot store detached HEAD: ", e.message().as_str())),
        },
    }
}

/// No path that a walk gives an entry leads out of the directory: its last part is a name.
pub proof fn lemma_entry_path_is_safe(prefix: Seq<char>, name: Seq<u8>)
    requires
        entry_path(prefix, name) is Ok,
    ensures
        valid_utf8(name),
        !unsafe_part(decode_utf8(name)),
        !holds(decode_utf8(name), "/"@),
        encode_utf8(entry_path(prefix, name)->Ok_0).len() <= MAX_PATH_BYTES,
{
}

} // verus!
