//! How the header of one commit is written.

use vstd::prelude::*;

use crate::bytes::{ascii_letter, is_alphanumeric, letter_or_digit};
use crate::dates::{age_text, date_text, format_date, relative_date, stamp, stamped, Style};
use crate::hashes::{hex_digit_value, hex_value};
use crate::numbers::{format_i64, signed_decimal};
use crate::objects::{short, short_id};
use crate::records::{subject_of, Commit, Note};
use crate::repo::{
    branch_names, branch_of, branches, current_branch, head_commit, head_id, read_reference, ref_names,
    reference_names, reference_of,
};
use crate::system::{Machine, System};
use crate::text::{
    after_prefix, char_at_or_after, chars_of, contains, copy_text, cut_once_text, holds, index_from, join, join2,
    join3, join4, joined, lemma_index_from, lemma_texts_push, line_list, lines, opt_text, same, split_once_text,
    strip_prefix, texts, trim_end, trim_end_matches, trim_start, trim_start_matches, trimmed_end, trimmed_start,
    without_leading, without_trailing,
};

verus! {

/// How the header of one commit is written.
pub enum Pretty {
    Medium,
    OneLine,
    /// One line, with the id cut short.
    AbbreviatedOneLine,
    Short,
    Full,
    Fuller,
    /// A template. One that is `terminated` ends every entry; another one stands between them.
    Custom { format: String, terminated: bool },
}

/// How the header of one commit is written.
pub enum Layout {
    Medium,
    OneLine,
    AbbreviatedOneLine,
    Short,
    Full,
    Fuller,
    Custom { format: Seq<char>, terminated: bool },
}

impl View for Pretty {
    type V = Layout;

    open spec fn view(&self) -> Layout {
        match *self {
            Pretty::Medium => Layout::Medium,
            Pretty::OneLine => Layout::OneLine,
            Pretty::AbbreviatedOneLine => Layout::AbbreviatedOneLine,
            Pretty::Short => Layout::Short,
            Pretty::Full => Layout::Full,
            Pretty::Fuller => Layout::Fuller,
            Pretty::Custom { format, terminated } => Layout::Custom { format: format@, terminated },
        }
    }
}

/// The layout that a word names. A word that is no preset is a template only where it holds a
/// placeholder.
pub open spec fn layout_named(value: Seq<char>, terminated: bool) -> Option<Layout> {
    if value == "oneline"@ {
        Some(Layout::OneLine)
    } else if value == "short"@ {
        Some(Layout::Short)
    } else if value == "medium"@ || value == ""@ {
        Some(Layout::Medium)
    } else if value == "full"@ {
        Some(Layout::Full)
    } else if value == "fuller"@ {
        Some(Layout::Fuller)
    } else {
        match after_prefix(value, "format:"@) {
            Some(format) => Some(Layout::Custom { format, terminated }),
            None => match after_prefix(value, "tformat:"@) {
                Some(format) => Some(Layout::Custom { format, terminated: true }),
                None => if holds(value, "%"@) {
                    Some(Layout::Custom { format: value, terminated })
                } else {
                    None
                },
            },
        }
    }
}

/// The layout behind an optional value.
pub open spec fn opt_layout(o: Option<Pretty>) -> Option<Layout> {
    match o {
        Some(p) => Some(p@),
        None => None,
    }
}

fn parse_pretty_word(value: &str, terminated: bool) -> (r: Option<Pretty>)
    ensures
        opt_layout(r) == layout_named(value@, terminated),
{
    if same(value, "oneline") {
        Some(Pretty::OneLine)
    } else if same(value, "short") {
        Some(Pretty::Short)
    } else if same(value, "medium") || same(value, "") {
        Some(Pretty::Medium)
    } else if same(value, "full") {
        Some(Pretty::Full)
    } else if same(value, "fuller") {
        Some(Pretty::Fuller)
    } else if let Some(format) = strip_prefix(value, "format:") {
        Some(Pretty::Custom { format, terminated })
    } else if let Some(format) = strip_prefix(value, "tformat:") {
        Some(Pretty::Custom { format, terminated: true })
    } else if contains(value, "%") {
        Some(Pretty::Custom { format: copy_text(value), terminated })
    } else {
        None
    }
}

// ---------------------------------------------------------------------------
// Templates
// ---------------------------------------------------------------------------

/// What a template speaks of.
pub struct Entry {
    pub id: Seq<char>,
    pub note: Note,
    pub decoration: Seq<char>,
    pub now: int,
}

/// Text with everything that is no letter or digit replaced.
pub open spec fn slug(s: Seq<char>) -> Seq<char> {
    s.map_values(
        |c: char|
            if letter_or_digit(c) {
                c
            } else {
                '-'
            },
    )
}

fn make_slug(s: &str) -> (r: String)
    ensures
        r@ == slug(s@),
{
    let cs = chars_of(s);
    let mut out = copy_text("");
    let mut i: usize = 0;
    proof {
        reveal_strlit("");
    }
    while i < cs.len()
        invariant
            i <= cs.len(),
            cs@ == s@,
            out@ =~= slug(s@).take(i as int),
        decreases cs.len() - i,
    {
        if is_alphanumeric(cs[i]) {
            out.push(cs[i]);
        } else {
            out.push('-');
        }
        assert(slug(s@).take(i + 1) =~= slug(s@).take(i as int).push(slug(s@)[i as int]));
        i += 1;
    }
    assert(slug(s@).take(i as int) =~= slug(s@));
    out
}

/// The ids, cut short.
pub open spec fn shortened(v: Seq<Seq<char>>) -> Seq<Seq<char>> {
    v.map_values(|id: Seq<char>| short_id(id))
}

fn shorten(v: &[String]) -> (r: Vec<String>)
    ensures
        texts(r@) == shortened(texts(v@)),
{
    let mut out: Vec<String> = Vec::new();
    let mut i: usize = 0;
    while i < v.len()
        invariant
            i <= v.len(),
            out@.len() == i,
            forall|k: int| 0 <= k < i ==> (#[trigger] out@[k])@ == short_id(v@[k]@),
        decreases v.len() - i,
    {
        out.push(short(v[i].as_str()));
        i += 1;
    }
    assert(texts(out@) =~= shortened(texts(v@)));
    out
}

/// The part of a message behind its subject.
pub open spec fn body_text(message: Seq<char>) -> Seq<char> {
    match cut_once_text(message, "\n\n"@) {
        Some((_, rest)) => trimmed_end(rest),
        None => trimmed_end(""@),
    }
}

fn message_body(message: &str) -> (r: String)
    ensures
        r@ == body_text(message@),
{
    match split_once_text(message, "\n\n") {
        Some((_, rest)) => trim_end(rest.as_str()),
        None => trim_end(""),
    }
}

/// The text of a placeholder of one letter.
pub open spec fn simple_field(e: Entry, c: char) -> Option<Seq<char>> {
    match c {
        'H' => Some(e.id),
        'h' => Some(short_id(e.id)),
        's' => Some(subject_of(e.note.message)),
        'f' => Some(slug(subject_of(e.note.message))),
        'b' => Some(body_text(e.note.message) + "\n"@),
        'B' => Some(trimmed_end(e.note.message) + "\n"@),
        'P' => Some(joined(e.note.parents, " "@)),
        'p' => Some(joined(shortened(e.note.parents), " "@)),
        'd' => Some(e.decoration),
        'D' => Some(
            without_trailing(without_leading(trimmed_start(e.decoration), '('), ')'),
        ),
        'N' => Some(""@),
        'm' => Some(""@),
        'e' => Some(""@),
        'n' => Some("\n"@),
        '%' => Some("%"@),
        _ => None,
    }
}

/// The text of a placeholder about whoever wrote or committed a change. Both are the same here.
pub open spec fn person_field(e: Entry, c: char) -> Option<Seq<char>> {
    match c {
        'n' => Some(e.note.author_name),
        'N' => Some(e.note.author_name),
        'e' => Some(e.note.author_email),
        'E' => Some(e.note.author_email),
        'd' => Some(date_text(e.note.timestamp)),
        't' => Some(signed_decimal(e.note.timestamp)),
        'i' => Some(stamped(e.note.timestamp, Style::Iso)),
        'I' => Some(stamped(e.note.timestamp, Style::IsoStrict)),
        's' => Some(stamped(e.note.timestamp, Style::Short)),
        'D' => Some(stamped(e.note.timestamp, Style::Mail)),
        'r' => Some(age_text(e.note.timestamp, e.now)),
        _ => None,
    }
}

fn expand_simple(id: &str, commit: &Commit, decoration: &str, c: char) -> (r: Option<String>)
    ensures
        forall|now: int|
            #![trigger simple_field(
                (Entry { id: id@, note: commit@, decoration: decoration@, now }),
                c,
            )]
            opt_text(r) == simple_field(
                (Entry { id: id@, note: commit@, decoration: decoration@, now }),
                c,
            ),
{
    match c {
        'H' => Some(copy_text(id)),
        'h' => Some(short(id)),
        's' => Some(commit.subject()),
        'f' => Some(make_slug(commit.subject().as_str())),
        'b' => Some(join2(message_body(commit.message.as_str()).as_str(), "\n")),
        'B' => Some(join2(trim_end(commit.message.as_str()).as_str(), "\n")),
        'P' => Some(join(commit.parents.as_slice(), " ")),
        'p' => Some(join(shorten(commit.parents.as_slice()).as_slice(), " ")),
        'd' => Some(copy_text(decoration)),
        'D' => {
            let open = trim_start(decoration);
            let bare = trim_start_matches(open.as_str(), '(');
            Some(trim_end_matches(bare.as_str(), ')'))
        },
        'N' => Some(copy_text("")),
        'm' => Some(copy_text("")),
        'e' => Some(copy_text("")),
        'n' => Some(copy_text("\n")),
        '%' => Some(copy_text("%")),
        _ => None,
    }
}

fn expand_person(commit: &Commit, now: i64, c: char) -> (r: Option<String>)
    ensures
        forall|id: Seq<char>, decoration: Seq<char>|
            #![trigger person_field(
                (Entry { id, note: commit@, decoration, now: now as int }),
                c,
            )]
            opt_text(r) == person_field(
                (Entry { id, note: commit@, decoration, now: now as int }),
                c,
            ),
{
    match c {
        'n' => Some(copy_text(commit.author_name.as_str())),
        'N' => Some(copy_text(commit.author_name.as_str())),
        'e' => Some(copy_text(commit.author_email.as_str())),
        'E' => Some(copy_text(commit.author_email.as_str())),
        'd' => Some(format_date(commit.timestamp)),
        't' => Some(format_i64(commit.timestamp)),
        'i' => Some(stamp(commit.timestamp, Style::Iso)),
        'I' => Some(stamp(commit.timestamp, Style::IsoStrict)),
        's' => Some(stamp(commit.timestamp, Style::Short)),
        'D' => Some(stamp(commit.timestamp, Style::Mail)),
        'r' => Some(relative_date(commit.timestamp, now)),
        _ => None,
    }
}

/// The number that the two characters from `i` on spell in base sixteen. One character is enough at
/// the end, and a plus sign may come first.
pub open spec fn hex_byte(f: Seq<char>, i: int) -> Option<int> {
    if i >= f.len() {
        None
    } else if i + 1 >= f.len() {
        hex_value(f[i])
    } else if f[i] == '+' {
        hex_value(f[i + 1])
    } else {
        match (hex_value(f[i]), hex_value(f[i + 1])) {
            (Some(a), Some(b)) => Some(16 * a + b),
            _ => None,
        }
    }
}

fn read_hex_byte(f: &[char], i: usize) -> (r: Option<u8>)
    requires
        i <= f@.len(),
    ensures
        match r {
            Some(n) => hex_byte(f@, i as int) == Some(n as int),
            None => hex_byte(f@, i as int) is None,
        },
{
    if i >= f.len() {
        None
    } else if f.len() - i == 1 {
        hex_digit_value(f[i])
    } else if f[i] == '+' {
        hex_digit_value(f[i + 1])
    } else {
        match (hex_digit_value(f[i]), hex_digit_value(f[i + 1])) {
            (Some(a), Some(b)) => Some(16 * a + b),
            _ => None,
        }
    }
}

/// Where a run of ASCII letters ends.
pub open spec fn letters_end(f: Seq<char>, i: int) -> int
    decreases f.len() - i,
{
    if 0 <= i < f.len() && ascii_letter(f[i]) {
        letters_end(f, i + 1)
    } else {
        i
    }
}

/// Where the name of a colour ends. Colours are left out of what is written.
pub open spec fn colour_end(f: Seq<char>, i: int) -> int {
    if 0 <= i < f.len() && f[i] == '(' {
        match index_from(f, ')', i) {
            Some(k) => k + 1,
            None => f.len() as int,
        }
    } else {
        letters_end(f, i)
    }
}

proof fn lemma_letters_end(f: Seq<char>, i: int)
    requires
        0 <= i <= f.len(),
    ensures
        i <= letters_end(f, i) <= f.len(),
    decreases f.len() - i,
{
    if i < f.len() && ascii_letter(f[i]) {
        lemma_letters_end(f, i + 1);
    }
}

proof fn lemma_colour_end(f: Seq<char>, i: int)
    requires
        0 <= i <= f.len(),
    ensures
        i <= colour_end(f, i) <= f.len(),
{
    lemma_letters_end(f, i);
    lemma_index_from(f, ')', i);
}

fn skip_colour(f: &[char], i: usize) -> (r: usize)
    requires
        i <= f@.len(),
    ensures
        r == colour_end(f@, i as int),
        i <= r <= f@.len(),
{
    proof {
        lemma_colour_end(f@, i as int);
    }
    if i < f.len() && f[i] == '(' {
        return match char_at_or_after(f, ')', i) {
            Some(k) => {
                proof {
                    lemma_index_from(f@, ')', i as int);
                }
                k + 1
            },
            None => f.len(),
        };
    }
    let mut k: usize = i;
    while k < f.len() && (('a' <= f[k] && f[k] <= 'z') || ('A' <= f[k] && f[k] <= 'Z'))
        invariant
            i <= k <= f@.len(),
            letters_end(f@, i as int) == letters_end(f@, k as int),
        decreases f@.len() - k,
    {
        k += 1;
    }
    k
}

/// The text that stands for the character or the placeholder at `i` of a template, and where the
/// next one stands.
pub open spec fn step_at(e: Entry, f: Seq<char>, i: int) -> Option<(Seq<char>, int)> {
    if f[i] != '%' {
        Some((seq![f[i]], i + 1))
    } else if i + 1 >= f.len() {
        None
    } else if f[i + 1] == 'a' || f[i + 1] == 'c' {
        if i + 2 >= f.len() {
            None
        } else {
            match person_field(e, f[i + 2]) {
                Some(text) => Some((text, i + 3)),
                None => None,
            }
        }
    } else if f[i + 1] == 'C' {
        Some((""@, colour_end(f, i + 2)))
    } else if f[i + 1] == 'x' {
        match hex_byte(f, i + 2) {
            Some(n) => Some(
                (
                    seq![n as char],
                    if i + 4 <= f.len() {
                        i + 4
                    } else {
                        f.len() as int
                    },
                ),
            ),
            None => None,
        }
    } else {
        match simple_field(e, f[i + 1]) {
            Some(text) => Some((text, i + 2)),
            None => None,
        }
    }
}

/// The text of a template from `i` on, with what came before.
pub open spec fn expanded_from(e: Entry, f: Seq<char>, i: int, out: Seq<char>) -> Option<Seq<char>>
    decreases f.len() - i,
{
    if i < 0 || i >= f.len() {
        Some(out)
    } else {
        match step_at(e, f, i) {
            None => None,
            Some((text, next)) => if next <= i || next > f.len() {
                None
            } else {
                expanded_from(e, f, next, out + text)
            },
        }
    }
}

/// The text of a template; nothing where it holds a placeholder that is not known.
pub open spec fn expansion(e: Entry, f: Seq<char>) -> Option<Seq<char>> {
    expanded_from(e, f, 0, ""@)
}

/// A template is understood for every commit, or for none.
pub proof fn lemma_support_is_uniform(a: Entry, b: Entry, f: Seq<char>)
    ensures
        expansion(a, f) is Some == expansion(b, f) is Some,
{
    lemma_support_from(a, b, f, 0, ""@, ""@);
}

proof fn lemma_support_from(a: Entry, b: Entry, f: Seq<char>, i: int, x: Seq<char>, y: Seq<char>)
    requires
        0 <= i,
    ensures
        expanded_from(a, f, i, x) is Some == expanded_from(b, f, i, y) is Some,
    decreases f.len() - i,
{
    if i < f.len() {
        match (step_at(a, f, i), step_at(b, f, i)) {
            (Some((s, next)), Some((t, other))) => {
                assert(next == other);
                if i < next <= f.len() {
                    lemma_support_from(a, b, f, next, x + s, y + t);
                }
            },
            _ => {},
        }
    }
}

fn expand_step(f: &[char], i: usize, id: &str, commit: &Commit, decoration: &str, now: i64) -> (r:
    Option<(String, usize)>)
    requires
        i < f@.len(),
    ensures
        match r {
            Some((text, next)) => step_at(
                (Entry { id: id@, note: commit@, decoration: decoration@, now: now as int }),
                f@,
                i as int,
            ) == Some((text@, next as int)) && i < next <= f@.len(),
            None => step_at(
                (Entry { id: id@, note: commit@, decoration: decoration@, now: now as int }),
                f@,
                i as int,
            ) is None,
        },
{
    let ghost e = Entry { id: id@, note: commit@, decoration: decoration@, now: now as int };
    proof {
        reveal_strlit("");
    }
    if f[i] != '%' {
        let mut text = copy_text("");
        text.push(f[i]);
        assert(text@ =~= seq![f@[i as int]]);
        return Some((text, i + 1));
    }
    if f.len() - i == 1 {
        return None;
    }
    let first = f[i + 1];
    if first == 'a' || first == 'c' {
        if f.len() - i == 2 {
            return None;
        }
        assert(person_field(e, f@[i + 2]) == person_field(e, f@[i + 2]));
        return match expand_person(commit, now, f[i + 2]) {
            Some(text) => Some((text, i + 3)),
            None => None,
        };
    }
    if first == 'C' {
        let next = skip_colour(f, i + 2);
        return Some((copy_text(""), next));
    }
    if first == 'x' {
        return match read_hex_byte(f, i + 2) {
            Some(n) => {
                let mut text = copy_text("");
                text.push(n as char);
                assert(text@ =~= seq![n as char]);
                let next: usize = if f.len() - i >= 4 {
                    i + 4
                } else {
                    f.len()
                };
                Some((text, next))
            },
            None => None,
        };
    }
    assert(simple_field(e, f@[i + 1]) == simple_field(e, f@[i + 1]));
    match expand_simple(id, commit, decoration, first) {
        Some(text) => Some((text, i + 2)),
        None => None,
    }
}

/// The text of a template for a commit; nothing where it holds a placeholder that is not known.
pub fn expand_format_checked(
    format: &str,
    id: &str,
    commit: &Commit,
    decoration: &str,
    now: i64,
) -> (r: Option<String>)
    ensures
        opt_text(r) == expansion(
            (Entry { id: id@, note: commit@, decoration: decoration@, now: now as int }),
            format@,
        ),
{
    let ghost e = Entry { id: id@, note: commit@, decoration: decoration@, now: now as int };
    let f = chars_of(format);
    let mut out = copy_text("");
    let mut i: usize = 0;
    let ghost goal = expansion(e, format@);
    while i < f.len()
        invariant
            i <= f@.len(),
            f@ == format@,
            e == (Entry { id: id@, note: commit@, decoration: decoration@, now: now as int }),
            goal == expansion(e, format@),
            goal == expanded_from(e, f@, i as int, out@),
        decreases f@.len() - i,
    {
        match expand_step(f.as_slice(), i, id, commit, decoration, now) {
            None => return None,
            Some((text, next)) => {
                out.append(text.as_str());
                i = next;
            },
        }
    }
    Some(out)
}

/// The text of a template, or nothing.
pub open spec fn expansion_or_empty(e: Entry, f: Seq<char>) -> Seq<char> {
    match expansion(e, f) {
        Some(text) => text,
        None => ""@,
    }
}

fn expand_format(format: &str, id: &str, commit: &Commit, decoration: &str, now: i64) -> (r: String)
    ensures
        r@ == expansion_or_empty(
            (Entry { id: id@, note: commit@, decoration: decoration@, now: now as int }),
            format@,
        ),
{
    match expand_format_checked(format, id, commit, decoration, now) {
        Some(text) => text,
        None => copy_text(""),
    }
}

/// A commit that says nothing.
pub open spec fn blank_entry() -> Entry {
    Entry {
        id: ""@,
        note: Note {
            parents: seq![],
            author_name: ""@,
            author_email: ""@,
            timestamp: 0,
            message: ""@,
        },
        decoration: ""@,
        now: 0,
    }
}

/// Whether every placeholder of a template is known.
pub fn format_is_supported(format: &str) -> (r: bool)
    ensures
        r == expansion(blank_entry(), format@) is Some,
{
    let commit = Commit {
        parents: Vec::new(),
        author_name: copy_text(""),
        author_email: copy_text(""),
        timestamp: 0,
        message: copy_text(""),
    };
    assert(texts(commit.parents@) =~= seq![]);
    assert(commit@ == blank_entry().note);
    expand_format_checked(format, "", &commit, "", 0).is_some()
}

/// The layout that a word names, where its template is understood.
pub open spec fn usable_layout(value: Seq<char>, terminated: bool) -> Option<Layout> {
    match layout_named(value, terminated) {
        Some(Layout::Custom { format, terminated }) => if expansion(blank_entry(), format) is Some {
            Some(Layout::Custom { format, terminated })
        } else {
            None
        },
        other => other,
    }
}

/// The layout that a word names; nothing where it cannot be written.
pub fn parse_pretty(value: &str, terminated: bool) -> (r: Option<Pretty>)
    ensures
        opt_layout(r) == usable_layout(value@, terminated),
{
    match parse_pretty_word(value, terminated) {
        Some(Pretty::Custom { format, terminated }) => if format_is_supported(format.as_str()) {
            Some(Pretty::Custom { format, terminated })
        } else {
            None
        },
        other => other,
    }
}

// ---------------------------------------------------------------------------
// Headers
// ---------------------------------------------------------------------------

/// The lines of a message, set in.
pub open spec fn set_in(v: Seq<Seq<char>>) -> Seq<char>
    decreases v.len(),
{
    if v.len() == 0 {
        ""@
    } else {
        set_in(v.drop_last()) + ("    "@ + v.last() + "\n"@)
    }
}

fn indent(message: &str) -> (r: String)
    ensures
        r@ == set_in(line_list(message@)),
{
    let v = lines(message);
    let ghost all = texts(v@);
    let mut out = copy_text("");
    let mut i: usize = 0;
    while i < v.len()
        invariant
            i <= v.len(),
            all == texts(v@),
            out@ == set_in(all.take(i as int)),
        decreases v.len() - i,
    {
        assert(all.take(i + 1).drop_last() =~= all.take(i as int));
        assert(all.take(i + 1).last() == v@[i as int]@);
        out.append(join3("    ", v[i].as_str(), "\n").as_str());
        i += 1;
    }
    assert(all.take(i as int) =~= all);
    out
}

/// Whoever made a commit.
pub open spec fn person(n: Note) -> Seq<char> {
    n.author_name + " <"@ + n.author_email + ">"@
}

/// The line that names the parents of a merge.
pub open spec fn merge_line(n: Note) -> Seq<char> {
    if n.parents.len() > 1 {
        "Merge: "@ + joined(shortened(n.parents), " "@) + "\n"@
    } else {
        ""@
    }
}

/// The first lines of a header that takes several.
pub open spec fn opening(id: Seq<char>, n: Note, decoration: Seq<char>) -> Seq<char> {
    "commit "@ + id + decoration + "\n"@ + merge_line(n)
}

/// The header of a commit.
pub open spec fn header_text(e: Entry, p: Layout) -> Seq<char> {
    let n = e.note;
    match p {
        Layout::OneLine => e.id + e.decoration + " "@ + subject_of(n.message) + "\n"@,
        Layout::AbbreviatedOneLine => short_id(e.id) + e.decoration + " "@ + subject_of(n.message)
            + "\n"@,
        Layout::Short => opening(e.id, n, e.decoration) + "Author: "@ + person(n) + "\n\n"@
            + set_in(line_list(subject_of(n.message))),
        Layout::Medium => opening(e.id, n, e.decoration) + "Author: "@ + person(n) + "\nDate:   "@
            + date_text(n.timestamp) + "\n\n"@ + set_in(line_list(n.message)),
        Layout::Full => opening(e.id, n, e.decoration) + "Author: "@ + person(n) + "\nCommit: "@
            + person(n) + "\n\n"@ + set_in(line_list(n.message)),
        Layout::Fuller => opening(e.id, n, e.decoration) + "Author:     "@ + person(n)
            + "\nAuthorDate: "@ + date_text(n.timestamp) + "\nCommit:     "@ + person(n)
            + "\nCommitDate: "@ + date_text(n.timestamp) + "\n\n"@ + set_in(line_list(n.message)),
        Layout::Custom { format, .. } => expansion_or_empty(e, format),
    }
}

/// The header of a commit.
pub fn render_commit_header(
    id: &str,
    commit: &Commit,
    pretty: &Pretty,
    decoration: &str,
    now: i64,
) -> (r: String)
    ensures
        r@ == header_text(
            (Entry { id: id@, note: commit@, decoration: decoration@, now: now as int }),
            pretty@,
        ),
{
    assert(commit@.parents.len() == commit.parents@.len());
    let who = join4(commit.author_name.as_str(), " <", commit.author_email.as_str(), ">");
    let merge = if commit.parents.len() > 1 {
        join3(
            "Merge: ",
            join(shorten(commit.parents.as_slice()).as_slice(), " ").as_str(),
            "\n",
        )
    } else {
        copy_text("")
    };
    let mut out = join4("commit ", id, decoration, "\n");
    out.append(merge.as_str());
    assert(out@ == opening(id@, commit@, decoration@));
    match pretty {
        Pretty::OneLine => {
            let mut line = join4(id, decoration, " ", commit.subject().as_str());
            line.append("\n");
            line
        },
        Pretty::AbbreviatedOneLine => {
            let mut line = join4(
                short(id).as_str(),
                decoration,
                " ",
                commit.subject().as_str(),
            );
            line.append("\n");
            line
        },
        Pretty::Short => {
            out.append("Author: ");
            out.append(who.as_str());
            out.append("\n\n");
            out.append(indent(commit.subject().as_str()).as_str());
            out
        },
        Pretty::Medium => {
            out.append("Author: ");
            out.append(who.as_str());
            out.append("\nDate:   ");
            out.append(format_date(commit.timestamp).as_str());
            out.append("\n\n");
            out.append(indent(commit.message.as_str()).as_str());
            out
        },
        Pretty::Full => {
            out.append("Author: ");
            out.append(who.as_str());
            out.append("\nCommit: ");
            out.append(who.as_str());
            out.append("\n\n");
            out.append(indent(commit.message.as_str()).as_str());
            out
        },
        Pretty::Fuller => {
            out.append("Author:     ");
            out.append(who.as_str());
            out.append("\nAuthorDate: ");
            out.append(format_date(commit.timestamp).as_str());
            out.append("\nCommit:     ");
            out.append(who.as_str());
            out.append("\nCommitDate: ");
            out.append(format_date(commit.timestamp).as_str());
            out.append("\n\n");
            out.append(indent(commit.message.as_str()).as_str());
            out
        },
        Pretty::Custom { format, .. } => expand_format(
            format.as_str(),
            id,
            commit,
            decoration,
            now,
        ),
    }
}

/// Whether entries are set apart by a line between them.
pub open spec fn set_apart(p: Layout) -> bool {
    match p {
        Layout::Medium => true,
        Layout::Short => true,
        Layout::Full => true,
        Layout::Fuller => true,
        Layout::Custom { terminated, .. } => !terminated,
        _ => false,
    }
}

/// Whether the layout is a template.
pub open spec fn is_template(p: Layout) -> bool {
    p is Custom
}

/// Whether the layout is a template that ends every entry.
pub open spec fn is_terminated(p: Layout) -> bool {
    match p {
        Layout::Custom { terminated, .. } => terminated,
        _ => false,
    }
}

/// Whether a difference behind the header is set apart from it. A header of one line has no message
/// to be set apart from.
pub open spec fn spaced(p: Layout) -> bool {
    !(p is OneLine) && !(p is AbbreviatedOneLine)
}

impl Pretty {
    /// Whether entries are set apart by a line between them.
    pub fn sets_apart(&self) -> (r: bool)
        ensures
            r == set_apart(self@),
    {
        match self {
            Pretty::Medium => true,
            Pretty::Short => true,
            Pretty::Full => true,
            Pretty::Fuller => true,
            Pretty::Custom { terminated, .. } => !*terminated,
            _ => false,
        }
    }

    /// Whether the layout is a template.
    pub fn is_template(&self) -> (r: bool)
        ensures
            r == is_template(self@),
    {
        matches!(self, Pretty::Custom { .. })
    }

    /// Whether the layout is a template that ends every entry.
    pub fn is_terminated(&self) -> (r: bool)
        ensures
            r == is_terminated(self@),
    {
        match self {
            Pretty::Custom { terminated, .. } => *terminated,
            _ => false,
        }
    }

    /// Whether a difference behind the header is set apart from it.
    pub fn diff_needs_spacing(&self) -> (r: bool)
        ensures
            r == spaced(self@),
    {
        !matches!(self, Pretty::OneLine | Pretty::AbbreviatedOneLine)
    }
}

// ---------------------------------------------------------------------------
// Decorations
// ---------------------------------------------------------------------------

/// The branches that point at a commit, the current one first.
pub open spec fn branches_at(
    m: Machine,
    root: Seq<char>,
    id: Seq<char>,
    names: Seq<Seq<char>>,
) -> Seq<Seq<char>>
    decreases names.len(),
{
    if names.len() == 0 {
        seq![]
    } else {
        let v = branches_at(m, root, id, names.drop_last());
        let name = names.last();
        if reference_of(m, root, "refs/heads/"@ + name) != Some(id) {
            v
        } else if branch_of(m, root) == Some(name) {
            seq!["HEAD -> "@ + name] + v
        } else {
            v.push(name)
        }
    }
}

/// The list with the tags that point at a commit.
pub open spec fn with_tags_at(
    m: Machine,
    root: Seq<char>,
    id: Seq<char>,
    v: Seq<Seq<char>>,
    names: Seq<Seq<char>>,
) -> Seq<Seq<char>>
    decreases names.len(),
{
    if names.len() == 0 {
        v
    } else {
        let w = with_tags_at(m, root, id, v, names.drop_last());
        if reference_of(m, root, "refs/tags/"@ + names.last()) == Some(id) {
            w.push("tag: "@ + names.last())
        } else {
            w
        }
    }
}

/// The names of the references that point at a commit.
pub open spec fn names_at(m: Machine, root: Seq<char>, id: Seq<char>) -> Seq<Seq<char>> {
    let v = with_tags_at(
        m,
        root,
        id,
        branches_at(m, root, id, branches(m, root)),
        ref_names(m, root, "tags"@),
    );
    if branch_of(m, root) is None && head_id(m, root) == Some(id) {
        seq!["HEAD"@] + v
    } else {
        v
    }
}

/// The names of the references that point at a commit, as they stand behind its id.
pub open spec fn decoration_of(m: Machine, root: Seq<char>, id: Seq<char>) -> Seq<char> {
    let v = names_at(m, root, id);
    if v.len() == 0 {
        ""@
    } else {
        " ("@ + joined(v, ", "@) + ")"@
    }
}

fn points_at(o: &Option<String>, id: &str) -> (r: bool)
    ensures
        r == (opt_text(*o) == Some(id@)),
{
    match o {
        Some(s) => same(s.as_str(), id),
        None => false,
    }
}

fn branches_pointing(system: &System, root: &str, id: &str) -> (r: Vec<String>)
    ensures
        texts(r@) == branches_at(system@, root@, id@, branches(system@, root@)),
{
    let names = branch_names(system, root);
    let head = current_branch(system, root);
    let ghost all = texts(names@);
    let mut v: Vec<String> = Vec::new();
    let mut i: usize = 0;
    assert(texts(v@) =~= seq![]);
    while i < names.len()
        invariant
            i <= names.len(),
            all == texts(names@),
            opt_text(head) == branch_of(system@, root@),
            texts(v@) == branches_at(system@, root@, id@, all.take(i as int)),
        decreases names.len() - i,
    {
        broadcast use lemma_texts_push;

        assert(all.take(i + 1).drop_last() =~= all.take(i as int));
        assert(all.take(i + 1).last() == names@[i as int]@);
        let name = names[i].as_str();
        if points_at(&read_reference(system, root, join2("refs/heads/", name).as_str()), id) {
            if points_at(&head, name) {
                let ghost before = v@;
                let first = join2("HEAD -> ", name);
                v.insert(0, first);
                assert(texts(v@) =~= seq![first@] + texts(before));
            } else {
                v.push(copy_text(name));
            }
        }
        i += 1;
    }
    assert(all.take(i as int) =~= all);
    v
}

fn add_tags_pointing(system: &System, root: &str, id: &str, v: Vec<String>) -> (r: Vec<String>)
    ensures
        texts(r@) == with_tags_at(
            system@,
            root@,
            id@,
            texts(v@),
            ref_names(system@, root@, "tags"@),
        ),
{
    let names = reference_names(system, root, "tags");
    let ghost all = texts(names@);
    let ghost start = texts(v@);
    let mut v = v;
    let mut i: usize = 0;
    while i < names.len()
        invariant
            i <= names.len(),
            all == texts(names@),
            texts(v@) == with_tags_at(system@, root@, id@, start, all.take(i as int)),
        decreases names.len() - i,
    {
        broadcast use lemma_texts_push;

        assert(all.take(i + 1).drop_last() =~= all.take(i as int));
        assert(all.take(i + 1).last() == names@[i as int]@);
        let name = names[i].as_str();
        if points_at(&read_reference(system, root, join2("refs/tags/", name).as_str()), id) {
            v.push(join2("tag: ", name));
        }
        i += 1;
    }
    assert(all.take(i as int) =~= all);
    v
}

/// The names of the references that point at a commit, as they stand behind its id.
pub fn decorations(system: &System, root: &str, id: &str) -> (r: String)
    ensures
        r@ == decoration_of(system@, root@, id@),
{
    let v = branches_pointing(system, root, id);
    let mut v = add_tags_pointing(system, root, id, v);
    if current_branch(system, root).is_none() && points_at(&head_commit(system, root), id) {
        let ghost before = v@;
        v.insert(0, copy_text("HEAD"));
        assert(texts(v@) =~= seq!["HEAD"@] + texts(before));
    }
    assert(texts(v@).len() == v@.len());
    if v.len() == 0 {
        copy_text("")
    } else {
        join3(" (", join(v.as_slice(), ", ").as_str(), ")")
    }
}

} // verus!
