//! Commit records: who changed what, and on top of what.

use vstd::prelude::*;
use vstd::utf8::encode_utf8;

use crate::bytes::{bytes_of, decode_lossy, lemma_text_round_trip, loose_text};
use crate::numbers::{
    decimal, format_i64, is_digit, lemma_decimal_digits, lemma_signed_round_trip, parse_i64, read_signed,
    signed_decimal,
};
use crate::order::Duplicate;
use crate::text::{
    after_prefix, copy_text, copy_texts, cut_once_text, find_from, holds, is_space, join3, lemma_find_from,
    lemma_first_line, lemma_only_line, lemma_rfind_from, lemma_texts_push, line_list, lines, occurs_at,
    rcut_once_text, rfind_from, rsplit_once_text, split_once_text, split_whitespace, strip_prefix, texts, trim,
    trimmed, trimmed_end, trimmed_start, word_list, words_at,
};

verus! {

/// One commit's record. The tree is kept apart, under the name of the commit.
pub struct Commit {
    pub parents: Vec<String>,
    pub author_name: String,
    pub author_email: String,
    /// When it was made, in seconds since the epoch.
    pub timestamp: i64,
    pub message: String,
}

/// What a commit record holds.
#[verifier::ext_equal]
pub struct Note {
    pub parents: Seq<Seq<char>>,
    pub author_name: Seq<char>,
    pub author_email: Seq<char>,
    pub timestamp: int,
    pub message: Seq<char>,
}

impl View for Commit {
    type V = Note;

    open spec fn view(&self) -> Note {
        Note {
            parents: texts(self.parents@),
            author_name: self.author_name@,
            author_email: self.author_email@,
            timestamp: self.timestamp as int,
            message: self.message@,
        }
    }
}

/// The first line of a message.
pub open spec fn subject_of(message: Seq<char>) -> Seq<char> {
    let l = line_list(message);
    if l.len() > 0 {
        l[0]
    } else {
        seq![]
    }
}

/// The line of one parent.
pub open spec fn parent_line(parent: Seq<char>) -> Seq<char> {
    "parent "@ + parent
}

/// The lines of the parents.
pub open spec fn parent_lines(parents: Seq<Seq<char>>) -> Seq<char>
    decreases parents.len(),
{
    if parents.len() == 0 {
        seq![]
    } else {
        parent_line(parents[0]) + "\n"@ + parent_lines(parents.subrange(1, parents.len() as int))
    }
}

/// The line of the author.
pub open spec fn author_line(n: Note) -> Seq<char> {
    "author "@ + n.author_name + " <"@ + n.author_email + "> "@ + signed_decimal(n.timestamp)
        + " +0000"@
}

/// The text of a commit record.
pub open spec fn note_text(n: Note) -> Seq<char> {
    parent_lines(n.parents) + author_line(n) + "\n\n"@ + n.message
}

/// The stored form of a commit record.
pub open spec fn note_bytes(n: Note) -> Seq<u8> {
    encode_utf8(note_text(n))
}

/// The number that the first word of `s` writes, zero where it writes none.
pub open spec fn first_number(s: Seq<char>) -> int {
    let words = word_list(s);
    if words.len() > 0 {
        match read_signed(words[0], 0x8000_0000_0000_0000) {
            Some(v) => v,
            None => 0,
        }
    } else {
        0
    }
}

/// The record once one header line is read; nothing where the line is malformed.
pub open spec fn with_header(n: Note, line: Seq<char>) -> Option<Note> {
    match after_prefix(line, "parent "@) {
        Some(parent) => Some(Note { parents: n.parents.push(trimmed(parent)), ..n }),
        None => match after_prefix(line, "author "@) {
            Some(author) => match rcut_once_text(author, " <"@) {
                Some((name, rest)) => match cut_once_text(rest, "> "@) {
                    Some((email, time)) => Some(
                        Note {
                            author_name: name,
                            author_email: email,
                            timestamp: first_number(time),
                            ..n
                        },
                    ),
                    None => None,
                },
                None => None,
            },
            None => Some(n),
        },
    }
}

/// The record once all the header lines are read.
pub open spec fn with_headers(n: Note, lines: Seq<Seq<char>>) -> Option<Note>
    decreases lines.len(),
{
    if lines.len() == 0 {
        Some(n)
    } else {
        match with_header(n, lines[0]) {
            Some(m) => with_headers(m, lines.subrange(1, lines.len() as int)),
            None => None,
        }
    }
}

/// A record with nothing but a message.
pub open spec fn bare_note(message: Seq<char>) -> Note {
    Note { parents: seq![], author_name: ""@, author_email: ""@, timestamp: 0, message }
}

/// The record that stored bytes hold.
pub open spec fn note_of(bytes: Seq<u8>) -> Option<Note> {
    match cut_once_text(loose_text(bytes), "\n\n"@) {
        Some((header, message)) => with_headers(bare_note(message), line_list(header)),
        None => None,
    }
}

fn first_number_of(s: &str) -> (r: i64)
    ensures
        r == first_number(s@),
{
    let words = split_whitespace(s);
    if words.len() > 0 {
        assert(word_list(s@)[0] == words@[0]@);
        match parse_i64(words[0].as_str()) {
            Some(v) => v,
            None => 0,
        }
    } else {
        assert(word_list(s@).len() == 0);
        0
    }
}

impl Duplicate for Commit {
    fn duplicate(&self) -> (r: Self) {
        Commit {
            parents: copy_texts(self.parents.as_slice()),
            author_name: copy_text(self.author_name.as_str()),
            author_email: copy_text(self.author_email.as_str()),
            timestamp: self.timestamp,
            message: copy_text(self.message.as_str()),
        }
    }
}

impl Commit {
    /// The first line of the message.
    pub fn subject(&self) -> (r: String)
        ensures
            r@ == subject_of(self@.message),
    {
        let mut l = lines(self.message.as_str());
        if l.len() > 0 {
            assert(line_list(self.message@)[0] == l@[0]@);
            copy_text(l[0].as_str())
        } else {
            assert(line_list(self.message@).len() == 0);
            let r = String::new();
            assert(r@ =~= seq![]);
            r
        }
    }

    /// The text of this record.
    pub fn serialized_text(&self) -> (r: String)
        ensures
            r@ == note_text(self@),
    {
        let ghost all = texts(self.parents@);
        let mut text = String::new();
        let mut i: usize = 0;
        assert(all.subrange(0, all.len() as int) =~= all);
        assert(text@ + parent_lines(all) =~= parent_lines(all));
        while i < self.parents.len()
            invariant
                i <= self.parents.len(),
                all == texts(self.parents@),
                text@ + parent_lines(all.subrange(i as int, all.len() as int)) == parent_lines(all),
            decreases self.parents.len() - i,
        {
            let ghost rest = all.subrange(i as int, all.len() as int);
            let ghost tail = all.subrange(i + 1, all.len() as int);
            assert(rest.subrange(1, rest.len() as int) =~= tail);
            assert(rest[0] == self.parents@[i as int]@);
            let ghost was = text@;
            let line = join3("parent ", self.parents[i].as_str(), "\n");
            text.append(line.as_str());
            assert(was + line@ + parent_lines(tail) =~= was + (line@ + parent_lines(tail)));
            i += 1;
        }
        assert(parent_lines(all.subrange(i as int, all.len() as int)) =~= seq![]);
        assert(text@ =~= parent_lines(all));
        let mut author = join3("author ", self.author_name.as_str(), " <");
        author.append(self.author_email.as_str());
        author.append("> ");
        author.append(format_i64(self.timestamp).as_str());
        author.append(" +0000");
        text.append(author.as_str());
        text.append("\n\n");
        text.append(self.message.as_str());
        text
    }

    /// The stored form of this record.
    pub fn serialize(&self) -> (r: Vec<u8>)
        ensures
            r@ == note_bytes(self@),
    {
        bytes_of(self.serialized_text().as_str())
    }

    /// The record that stored bytes hold.
    pub fn parse(bytes: &[u8]) -> (r: Option<Self>)
        ensures
            match r {
                Some(c) => note_of(bytes@) == Some(c@),
                None => note_of(bytes@) is None,
            },
    {
        let text = decode_lossy(bytes);
        let (header, message) = match split_once_text(text.as_str(), "\n\n") {
            Some(pair) => pair,
            None => return None,
        };
        let all = lines(header.as_str());
        let ghost list = line_list(header@);
        let mut commit = Commit {
            parents: Vec::new(),
            author_name: copy_text(""),
            author_email: copy_text(""),
            timestamp: 0,
            message,
        };
        assert(commit@ =~= bare_note(message@));
        let mut i: usize = 0;
        assert(list.subrange(0, list.len() as int) =~= list);
        while i < all.len()
            invariant
                i <= all.len(),
                texts(all@) == list,
                note_of(bytes@) == with_headers(
                    commit@,
                    list.subrange(i as int, list.len() as int),
                ),
            decreases all.len() - i,
        {
            broadcast use lemma_texts_push;

            let ghost rest = list.subrange(i as int, list.len() as int);
            assert(rest[0] == all@[i as int]@);
            assert(rest.subrange(1, rest.len() as int) =~= list.subrange(i + 1, list.len() as int));
            let ghost was = commit@;
            let line = all[i].as_str();
            if let Some(parent) = strip_prefix(line, "parent ") {
                commit.parents.push(trim(parent.as_str()));
                assert(commit@ =~= (Note { parents: was.parents.push(trimmed(parent@)), ..was }));
            } else if let Some(author) = strip_prefix(line, "author ") {
                let (name, after) = match rsplit_once_text(author.as_str(), " <") {
                    Some(pair) => pair,
                    None => return None,
                };
                let (email, time) = match split_once_text(after.as_str(), "> ") {
                    Some(pair) => pair,
                    None => return None,
                };
                commit.author_name = name;
                commit.author_email = email;
                commit.timestamp = first_number_of(time.as_str());
            }
            i += 1;
        }
        Some(commit)
    }
}

// ---------------------------------------------------------------------------
// Reading back
// ---------------------------------------------------------------------------

/// Whether a record can be stored: its header fields hold no line ends, parents no outer white
/// space, and the email nothing that ends it or starts another.
pub open spec fn storable_note(n: Note) -> bool {
    &&& forall|i: int|
        0 <= i < n.parents.len() ==> !(#[trigger] n.parents[i]).contains('\n') && trimmed(
            n.parents[i],
        ) == n.parents[i]
    &&& !n.author_name.contains('\n')
    &&& !n.author_email.contains('\n')
    &&& !holds(n.author_email, " <"@)
    &&& !holds(n.author_email, "> "@)
    &&& -0x8000_0000_0000_0000 <= n.timestamp < 0x8000_0000_0000_0000
}

proof fn lemma_signed_chars(n: int)
    ensures
        signed_decimal(n).len() > 0,
        forall|i: int|
            0 <= i < signed_decimal(n).len() ==> is_digit(#[trigger] signed_decimal(n)[i])
                || signed_decimal(n)[i] == '-',
{
    let s = signed_decimal(n);
    if n < 0 {
        lemma_decimal_digits((-n) as nat);
        let d = decimal((-n) as nat);
        assert forall|i: int| 0 <= i < s.len() implies is_digit(#[trigger] s[i]) || s[i] == '-' by {
            if i > 0 {
                assert(s[i] == d[i - 1]);
            }
        }
    } else {
        lemma_decimal_digits(n as nat);
    }
}

/// The words of a run without white space, a space, and another such run.
proof fn lemma_first_word(word: Seq<char>, tail: Seq<char>)
    requires
        word.len() > 0,
        forall|i: int| 0 <= i < word.len() ==> !is_space(#[trigger] word[i]),
        tail.len() > 0,
        is_space(tail[0]),
    ensures
        word_list(word + tail).len() > 0,
        word_list(word + tail)[0] == word,
{
    let s = word + tail;
    lemma_words_scan(s, 0, 0, word.len() as int);
    assert(s[word.len() as int] == tail[0]);
    assert(s.subrange(0, word.len() as int) =~= word);
}

proof fn lemma_words_scan(s: Seq<char>, start: int, i: int, n: int)
    requires
        0 <= start <= i <= n <= s.len(),
        forall|k: int| i <= k < n ==> !is_space(#[trigger] s[k]),
    ensures
        words_at(s, start, i) == words_at(s, start, n),
    decreases n - i,
{
    if i < n {
        assert(!is_space(s[i]));
        lemma_words_scan(s, start, i + 1, n);
    }
}

/// The name of an author ends at the last mark that starts an email.
proof fn lemma_author_name(name: Seq<char>, mail: Seq<char>, number: Seq<char>)
    requires
        !holds(mail, " <"@),
        forall|i: int|
            0 <= i < number.len() ==> is_digit(#[trigger] number[i]) || number[i] == '-',
    ensures
        rcut_once_text(name + (" <"@ + (mail + ("> "@ + (number + " +0000"@)))), " <"@) == Some(
            (name, mail + ("> "@ + (number + " +0000"@))),
        ),
{
    reveal_strlit(" <");
    reveal_strlit("> ");
    reveal_strlit(" +0000");
    let back = "> "@ + (number + " +0000"@);
    let after = mail + back;
    let author = name + (" <"@ + after);
    let at = name.len() as int;
    assert(author.subrange(at, at + 2) =~= " <"@);
    lemma_rfind_from(author, " <"@, author.len() - 2);
    lemma_find_from(mail, " <"@, 0);
    assert forall|x: int| 0 <= x < back.len() implies back[x] != '<' by {
        if x >= 2 && x < 2 + number.len() {
            assert(back[x] == number[x - 2]);
        }
    }
    assert forall|j: int| at < j <= author.len() - 2 implies !occurs_at(author, " <"@, j) by {
        if occurs_at(author, " <"@, j) {
            assert(author.subrange(j, j + 2)[0] == ' ');
            assert(author.subrange(j, j + 2)[1] == '<');
            let k = j - at - 2;
            if k == -1 {
                assert(author[j] == '<');
            } else if k + 2 <= mail.len() {
                assert(mail.subrange(k, k + 2) =~= " <"@);
                assert(occurs_at(mail, " <"@, k));
            } else {
                assert(author[j + 1] == back[k + 1 - mail.len()]);
            }
        }
    }
    assert(occurs_at(author, " <"@, at));
    assert(rfind_from(author, " <"@, author.len() - " <"@.len()) == Some(at));
    assert(author.subrange(0, at) =~= name);
    assert(author.subrange(at + 2, author.len() as int) =~= after);
}

/// The email of an author ends at the first mark that ends one.
proof fn lemma_author_email(mail: Seq<char>, time: Seq<char>)
    requires
        !holds(mail, "> "@),
    ensures
        cut_once_text(mail + ("> "@ + time), "> "@) == Some((mail, time)),
{
    reveal_strlit("> ");
    let after = mail + ("> "@ + time);
    let e = mail.len() as int;
    assert(after.subrange(e, e + 2) =~= "> "@);
    lemma_find_from(after, "> "@, 0);
    lemma_find_from(mail, "> "@, 0);
    assert forall|j: int| 0 <= j < e implies !occurs_at(after, "> "@, j) by {
        if occurs_at(after, "> "@, j) {
            assert(after.subrange(j, j + 2)[0] == '>');
            assert(after.subrange(j, j + 2)[1] == ' ');
            if j + 2 <= e {
                assert(mail.subrange(j, j + 2) =~= "> "@);
                assert(occurs_at(mail, "> "@, j));
            } else {
                assert(after[j + 1] == '>');
            }
        }
    }
    assert(occurs_at(after, "> "@, e));
    assert(find_from(after, "> "@, 0) == Some(e));
    assert(after.subrange(0, e) =~= mail);
    assert(after.subrange(e + 2, after.len() as int) =~= time);
}

/// The number of an author line is the first word behind the email.
proof fn lemma_author_time(timestamp: int)
    requires
        -0x8000_0000_0000_0000 <= timestamp < 0x8000_0000_0000_0000,
    ensures
        first_number(signed_decimal(timestamp) + " +0000"@) == timestamp,
{
    reveal_strlit(" +0000");
    let number = signed_decimal(timestamp);
    lemma_signed_chars(timestamp);
    assert forall|i: int| 0 <= i < number.len() implies !is_space(#[trigger] number[i]) by {
        assert(is_digit(number[i]) || number[i] == '-');
    }
    lemma_first_word(number, " +0000"@);
    lemma_signed_round_trip(timestamp, 0x8000_0000_0000_0000);
}

proof fn lemma_no_line_end(a: Seq<char>, b: Seq<char>)
    requires
        !a.contains('\n'),
        !b.contains('\n'),
    ensures
        !(a + b).contains('\n'),
{
    let s = a + b;
    assert forall|i: int| 0 <= i < s.len() implies s[i] != '\n' by {
        if i < a.len() {
            assert(a.contains(a[i]));
        } else {
            assert(b.contains(b[i - a.len()]));
        }
    }
}

/// The author line holds no line end.
proof fn lemma_author_plain(n: Note)
    requires
        storable_note(n),
    ensures
        !author_line(n).contains('\n'),
        author_line(n).len() > 0,
        author_line(n)[0] == 'a',
        author_line(n).last() == '0',
{
    reveal_strlit("author ");
    reveal_strlit(" <");
    reveal_strlit("> ");
    reveal_strlit(" +0000");
    let number = signed_decimal(n.timestamp);
    lemma_signed_chars(n.timestamp);
    assert(!number.contains('\n'));
    assert(!"author "@.contains('\n'));
    assert(!" <"@.contains('\n'));
    assert(!"> "@.contains('\n'));
    assert(!" +0000"@.contains('\n'));
    let s1 = "author "@ + n.author_name;
    lemma_no_line_end("author "@, n.author_name);
    let s2 = s1 + " <"@;
    lemma_no_line_end(s1, " <"@);
    let s3 = s2 + n.author_email;
    lemma_no_line_end(s2, n.author_email);
    let s4 = s3 + "> "@;
    lemma_no_line_end(s3, "> "@);
    let s5 = s4 + number;
    lemma_no_line_end(s4, number);
    lemma_no_line_end(s5, " +0000"@);
    assert(s1[0] == 'a' && s2[0] == 'a' && s3[0] == 'a' && s4[0] == 'a' && s5[0] == 'a');
}

/// Reading the author line gives the author.
proof fn lemma_author_line(n: Note, m: Note)
    requires
        storable_note(n),
    ensures
        with_header(m, author_line(n)) == Some(
            Note {
                author_name: n.author_name,
                author_email: n.author_email,
                timestamp: n.timestamp,
                ..m
            },
        ),
{
    let line = author_line(n);
    let number = signed_decimal(n.timestamp);
    let time = number + " +0000"@;
    let after = n.author_email + ("> "@ + time);
    let author = n.author_name + (" <"@ + after);
    lemma_author_name_shape(n);
    lemma_signed_chars(n.timestamp);
    lemma_author_name(n.author_name, n.author_email, number);
    lemma_author_email(n.author_email, time);
    lemma_author_time(n.timestamp);
    reveal_strlit("author ");
    reveal_strlit("parent ");
    assert(line.subrange(0, 7) =~= "author "@);
    assert(line.subrange(0, 7)[0] == 'a');
    assert(after_prefix(line, "parent "@) is None);
    assert(line.subrange(7, line.len() as int) =~= author);
}

proof fn lemma_author_name_shape(n: Note)
    ensures
        author_line(n) == "author "@ + (n.author_name + (" <"@ + (n.author_email + ("> "@ + (
        signed_decimal(n.timestamp) + " +0000"@))))),
{
    assert(author_line(n) =~= "author "@ + (n.author_name + (" <"@ + (n.author_email + ("> "@ + (
    signed_decimal(n.timestamp) + " +0000"@))))));
}

proof fn lemma_trimmed_end_last(s: Seq<char>)
    requires
        trimmed(s) == s,
        s.len() > 0,
    ensures
        s.last() != '\r',
{
    if is_space(s.last()) {
        lemma_trimmed_shorter(s);
    }
}

proof fn lemma_trimmed_shorter(s: Seq<char>)
    ensures
        trimmed_start(s).len() <= s.len(),
        trimmed_end(s).len() <= s.len(),
        s.len() > 0 && is_space(s.last()) ==> trimmed(s).len() < s.len(),
    decreases s.len(),
{
    if s.len() > 0 {
        if is_space(s[0]) {
            lemma_trimmed_shorter(s.subrange(1, s.len() as int));
            lemma_trimmed_end_shorter(trimmed_start(s.subrange(1, s.len() as int)));
        } else if is_space(s.last()) {
            lemma_trimmed_end_shorter(s.drop_last());
        }
        lemma_trimmed_end_shorter(s);
    }
}

proof fn lemma_trimmed_end_shorter(s: Seq<char>)
    ensures
        trimmed_end(s).len() <= s.len(),
    decreases s.len(),
{
    if s.len() > 0 && is_space(s.last()) {
        lemma_trimmed_end_shorter(s.drop_last());
    }
}

/// The header of a record has no empty line, and its lines read back as the record.
proof fn lemma_headers(n: Note, i: int, m: Note)
    requires
        storable_note(n),
        0 <= i <= n.parents.len(),
        m.parents == n.parents.take(i),
    ensures
        ({
            let left = n.parents.subrange(i, n.parents.len() as int);
            let header = parent_lines(left) + author_line(n);
            &&& with_headers(m, line_list(header)) == Some(
                Note {
                    parents: n.parents,
                    author_name: n.author_name,
                    author_email: n.author_email,
                    timestamp: n.timestamp,
                    message: m.message,
                },
            )
            &&& header.len() > 0
            &&& header[0] != '\n'
            &&& header.last() != '\n'
            &&& forall|k: int|
                0 <= k < header.len() - 1 ==> !(#[trigger] header[k] == '\n' && header[k + 1]
                    == '\n')
        }),
    decreases n.parents.len() - i,
{
    let left = n.parents.subrange(i, n.parents.len() as int);
    let header = parent_lines(left) + author_line(n);
    lemma_author_line(n, m);
    lemma_author_plain(n);
    reveal_strlit("parent ");
    reveal_strlit("\n");
    let a = author_line(n);
    if i == n.parents.len() {
        assert(left =~= seq![]);
        assert(header =~= a);
        lemma_only_line(a);
        let list = line_list(a);
        assert(list.subrange(1, list.len() as int) =~= seq![]);
        assert(m.parents =~= n.parents);
        let m2 = with_header(m, a)->0;
        assert(with_headers(m2, seq![]) == Some(m2));
        assert forall|k: int| 0 <= k < header.len() - 1 implies !(#[trigger] header[k] == '\n'
            && header[k + 1] == '\n') by {
            assert(a.contains(a[k]));
        }
    } else {
        let parent = n.parents[i];
        let line = parent_line(parent);
        let tail = n.parents.subrange(i + 1, n.parents.len() as int);
        let rest = parent_lines(tail) + a;
        let m2 = Note { parents: m.parents.push(parent), ..m };
        assert(left[0] == parent);
        assert(left.subrange(1, left.len() as int) =~= tail);
        assert(m2.parents =~= n.parents.take(i + 1));
        lemma_headers(n, i + 1, m2);
        assert("\n"@ =~= seq!['\n']);
        assert(header =~= line + seq!['\n'] + rest);
        assert(!line.contains('\n')) by {
            assert forall|k: int| 0 <= k < line.len() implies line[k] != '\n' by {
                if k < 7 {
                    assert(line[k] == "parent "@[k]);
                } else {
                    assert(line[k] == parent[k - 7]);
                    assert(parent.contains(parent[k - 7]));
                }
            }
        }
        assert(line.last() != '\r') by {
            if parent.len() > 0 {
                lemma_trimmed_end_last(parent);
                assert(line.last() == parent.last());
            } else {
                assert(line =~= "parent "@);
            }
        }
        lemma_first_line(line, rest);
        let list = line_list(header);
        assert(list.subrange(1, list.len() as int) =~= line_list(rest));
        assert(list[0] == line);
        assert(line.subrange(0, 7) =~= "parent "@);
        assert(line.subrange(7, line.len() as int) =~= parent);
        assert(with_header(m, line) == Some(m2));
        assert(header[0] == 'p') by {
            assert(header[0] == line[0]);
            assert(line[0] == "parent "@[0]);
        }
        assert(header.last() == rest.last());
        assert forall|k: int| 0 <= k < header.len() - 1 implies !(#[trigger] header[k] == '\n'
            && header[k + 1] == '\n') by {
            let z = line.len();
            if k < z {
                assert(header[k] == line[k]);
                assert(line.contains(line[k]));
            } else if k == z {
                assert(header[k + 1] == rest[0]);
            } else {
                assert(header[k] == rest[k - z - 1]);
                assert(header[k + 1] == rest[k - z]);
            }
        }
    }
}

/// A record that can be stored is read back as it was, whatever its message.
pub proof fn lemma_note_round_trip(n: Note)
    requires
        storable_note(n),
    ensures
        note_of(note_bytes(n)) == Some(n),
{
    let text = note_text(n);
    lemma_text_round_trip(text);
    let header = parent_lines(n.parents) + author_line(n);
    let bare = bare_note(n.message);
    assert(n.parents.subrange(0, n.parents.len() as int) =~= n.parents);
    assert(bare.parents =~= n.parents.take(0));
    lemma_headers(n, 0, bare);
    reveal_strlit("\n\n");
    let h = header.len() as int;
    assert(text.subrange(h, h + 2) =~= "\n\n"@);
    assert(occurs_at(text, "\n\n"@, h));
    lemma_find_from(text, "\n\n"@, 0);
    assert forall|j: int| 0 <= j < h implies !occurs_at(text, "\n\n"@, j) by {
        if occurs_at(text, "\n\n"@, j) {
            assert(text.subrange(j, j + 2)[0] == '\n');
            assert(text.subrange(j, j + 2)[1] == '\n');
            assert(text[j] == header[j]);
            if j + 1 < h {
                assert(text[j + 1] == header[j + 1]);
            }
        }
    }
    assert(find_from(text, "\n\n"@, 0) == Some(h));
    assert(text.subrange(0, h) =~= header);
    assert(text.subrange(h + 2, text.len() as int) =~= n.message);
}

} // verus!
