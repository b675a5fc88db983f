//! Trees: which file stands at which path.

use vstd::prelude::*;
use vstd::utf8::encode_utf8;

use crate::bytes::{bytes_of, decode, decode_lossy, lemma_text_round_trip, loose_text};
use crate::hashes::{encode_hex, hex, hex_digit_value, hex_digit, hex_value, lemma_hex_digit};
use crate::objects::{object_hash, object_id};
use crate::order::{ascending, before, bind, Duplicate, OrdMap};
use crate::text::{
    chars_of, copy_text, cut_once, join3, lemma_first_line, line_list, lines, same, split_once, texts,
};
use vstd::utf8::{decode_utf8, encode_utf8_decode_utf8, valid_utf8};

verus! {

/// One tracked file: the blob that it holds and its kind.
pub struct Entry {
    pub hash: String,
    pub executable: bool,
    /// A symbolic link, whose blob holds the target rather than file content.
    pub symlink: bool,
}

/// What an entry holds.
#[verifier::ext_equal]
pub struct Record {
    pub hash: Seq<char>,
    pub executable: bool,
    pub symlink: bool,
}

impl View for Entry {
    type V = Record;

    open spec fn view(&self) -> Record {
        Record { hash: self.hash@, executable: self.executable, symlink: self.symlink }
    }
}

/// The mode of an entry.
pub open spec fn mode_of(r: Record) -> Seq<char> {
    if r.symlink {
        "120000"@
    } else if r.executable {
        "100755"@
    } else {
        "100644"@
    }
}

impl Entry {
    /// The mode that is printed for this entry.
    pub fn mode(&self) -> (r: &'static str)
        ensures
            r@ == mode_of(self@),
    {
        if self.symlink {
            "120000"
        } else if self.executable {
            "100755"
        } else {
            "100644"
        }
    }

    /// Whether two entries record the same file.
    pub fn same_as(&self, other: &Entry) -> (r: bool)
        ensures
            r == (self@ == other@),
    {
        same(self.hash.as_str(), other.hash.as_str()) && self.executable == other.executable
            && self.symlink == other.symlink
    }
}

impl Duplicate for Entry {
    fn duplicate(&self) -> (r: Self) {
        Entry {
            hash: copy_text(self.hash.as_str()),
            executable: self.executable,
            symlink: self.symlink,
        }
    }
}

/// A staged or committed tree: path to the file that is recorded there.
pub type Tree = OrdMap<Entry>;

/// What a tree holds, in the order of its paths.
pub type Files = Seq<(Seq<char>, Record)>;

/// Whether permission bits make a file executable.
pub open spec fn executable_mode(mode: u32) -> bool {
    mode & 0o111 != 0
}

/// Whether permission bits make a file executable.
pub fn is_executable(mode: u32) -> (r: bool)
    ensures
        r == executable_mode(mode),
{
    mode & 0o111 != 0
}

/// The permission bits that a file of this kind is written with.
pub open spec fn work_bits(executable: bool) -> u32 {
    if executable {
        0o755
    } else {
        0o644
    }
}

/// The permission bits that a file of this kind is written with.
pub fn work_mode(executable: bool) -> (r: u32)
    ensures
        r == work_bits(executable),
{
    if executable {
        0o755
    } else {
        0o644
    }
}

// ---------------------------------------------------------------------------
// Hexadecimal paths
// ---------------------------------------------------------------------------

/// Whether `s` holds hexadecimal digits only.
pub open spec fn all_hex(s: Seq<char>) -> bool {
    forall|i: int| 0 <= i < s.len() ==> hex_value(#[trigger] s[i]) is Some
}

/// The bytes that a hexadecimal text stands for.
pub open spec fn unhex(s: Seq<char>) -> Option<Seq<u8>> {
    if s.len() % 2 == 0 && all_hex(s) {
        Some(
            Seq::new(
                s.len() / 2,
                |i: int| (16 * hex_value(s[2 * i])->0 + hex_value(s[2 * i + 1])->0) as u8,
            ),
        )
    } else {
        None
    }
}

/// The bytes that a hexadecimal text stands for.
pub fn decode_hex(text: &str) -> (r: Option<Vec<u8>>)
    ensures
        match r {
            Some(v) => unhex(text@) == Some(v@),
            None => unhex(text@) is None,
        },
{
    let cs = chars_of(text);
    if cs.len() % 2 != 0 {
        return None;
    }
    let n: usize = cs.len() / 2;
    let mut out: Vec<u8> = Vec::new();
    let mut i: usize = 0;
    while i < n
        invariant
            i <= n,
            cs@ == text@,
            n == cs@.len() / 2,
            cs@.len() % 2 == 0,
            cs@.len() <= usize::MAX,
            out@.len() == i,
            forall|k: int| 0 <= k < 2 * i ==> hex_value(#[trigger] text@[k]) is Some,
            forall|k: int|
                0 <= k < i ==> #[trigger] out@[k] == (16 * hex_value(text@[2 * k])->0 + hex_value(
                    text@[2 * k + 1],
                )->0) as u8,
        decreases n - i,
    {
        let high = match hex_digit_value(cs[2 * i]) {
            Some(d) => d,
            None => {
                assert(hex_value(text@[2 * i]) is None);
                return None;
            },
        };
        let low = match hex_digit_value(cs[2 * i + 1]) {
            Some(d) => d,
            None => {
                assert(hex_value(text@[2 * i + 1]) is None);
                return None;
            },
        };
        out.push(high * 16 + low);
        i += 1;
    }
    assert(out@ =~= unhex(text@)->0);
    Some(out)
}

/// Bytes survive being written in hexadecimal and read back.
pub proof fn lemma_hex_round_trip(bytes: Seq<u8>)
    ensures
        unhex(hex(bytes)) == Some(bytes),
{
    let s = hex(bytes);
    assert forall|i: int| 0 <= i < s.len() implies hex_value(#[trigger] s[i]) is Some by {
        lemma_hex_digit(bytes[i / 2] as int / 16);
        lemma_hex_digit(bytes[i / 2] as int % 16);
    }
    let back = unhex(s)->0;
    assert forall|i: int| 0 <= i < bytes.len() implies back[i] == bytes[i] by {
        lemma_hex_digit(bytes[i] as int / 16);
        lemma_hex_digit(bytes[i] as int % 16);
        assert(s[2 * i] == hex_digit(bytes[i] as int / 16));
        assert(s[2 * i + 1] == hex_digit(bytes[i] as int % 16));
    }
    assert(back =~= bytes);
}

// ---------------------------------------------------------------------------
// The stored form
// ---------------------------------------------------------------------------

/// The mode part of an entry's line.
pub open spec fn mode_part(r: Record) -> Seq<char> {
    if r.executable || r.symlink {
        "\t"@ + mode_of(r)
    } else {
        ""@
    }
}

/// The line of one entry: the path in hexadecimal, the blob, and the mode unless it is the
/// ordinary one.
pub open spec fn entry_line(path: Seq<char>, r: Record) -> Seq<char> {
    hex(encode_utf8(path)) + "\t"@ + r.hash + mode_part(r)
}

/// The lines of a tree.
pub open spec fn tree_text(t: Files) -> Seq<char>
    decreases t.len(),
{
    if t.len() == 0 {
        seq![]
    } else {
        entry_line(t[0].0, t[0].1) + "\n"@ + tree_text(t.subrange(1, t.len() as int))
    }
}

/// The stored form of a tree.
pub open spec fn tree_bytes(t: Files) -> Seq<u8> {
    encode_utf8(tree_text(t))
}

/// What one line of a stored tree says.
pub open spec fn entry_of(line: Seq<char>) -> Option<(Seq<char>, Record)> {
    match cut_once(line, '\t') {
        None => None,
        Some((path_hex, rest)) => match unhex(path_hex) {
            None => None,
            Some(path_bytes) => {
                let (hash, mode) = match cut_once(rest, '\t') {
                    Some((hash, mode)) => (hash, mode),
                    None => (rest, "100644"@),
                };
                if !valid_utf8(path_bytes) || path_bytes.len() == 0 || hash.len() != 40 || !all_hex(
                    hash,
                ) {
                    None
                } else {
                    Some(
                        (
                            decode_utf8(path_bytes),
                            Record {
                                hash,
                                executable: mode == "100755"@,
                                symlink: mode == "120000"@,
                            },
                        ),
                    )
                }
            },
        },
    }
}

/// The tree with the entries of `lines` added; nothing where a line is malformed.
pub open spec fn tree_with(t: Files, lines: Seq<Seq<char>>) -> Option<Files>
    decreases lines.len(),
{
    if lines.len() == 0 {
        Some(t)
    } else {
        match entry_of(lines[0]) {
            Some((path, r)) => tree_with(bind(t, path, r), lines.subrange(1, lines.len() as int)),
            None => None,
        }
    }
}

/// The tree that stored bytes hold.
pub open spec fn tree_of(bytes: Seq<u8>) -> Option<Files> {
    tree_with(seq![], line_list(loose_text(bytes)))
}

/// The stored form of a tree.
pub fn serialize_tree(tree: &Tree) -> (r: Vec<u8>)
    ensures
        r@ == tree_bytes(tree@),
{
    let ghost t = tree@;
    let mut out = String::new();
    let mut i: usize = 0;
    assert(t.subrange(0, t.len() as int) =~= t);
    assert(out@ + tree_text(t) =~= tree_text(t));
    while i < tree.len()
        invariant
            i <= t.len(),
            t == tree@,
            out@ + tree_text(t.subrange(i as int, t.len() as int)) == tree_text(t),
        decreases t.len() - i,
    {
        let ghost rest = t.subrange(i as int, t.len() as int);
        assert(rest.subrange(1, rest.len() as int) =~= t.subrange(i + 1, t.len() as int));
        let path = tree.key_at(i);
        let entry = tree.value_at(i);
        let mut line = join3(
            encode_hex(path.as_bytes()).as_str(),
            "\t",
            entry.hash.as_str(),
        );
        if entry.executable || entry.symlink {
            line.append(crate::text::join2("\t", entry.mode()).as_str());
        } else {
            line.append("");
        }
        assert(line@ == entry_line(rest[0].0, rest[0].1));
        line.append("\n");
        let ghost was = out@;
        out.append(line.as_str());
        assert(was + line@ + tree_text(t.subrange(i + 1, t.len() as int)) =~= was + (line@
            + tree_text(t.subrange(i + 1, t.len() as int))));
        i += 1;
    }
    assert(tree_text(t.subrange(i as int, t.len() as int)) =~= seq![]);
    assert(out@ + seq![] =~= out@);
    bytes_of(out.as_str())
}

/// Whether `s` holds hexadecimal digits only.
pub fn is_hex(s: &str) -> (r: bool)
    ensures
        r == all_hex(s@),
{
    let cs = chars_of(s);
    let mut i: usize = 0;
    while i < cs.len()
        invariant
            i <= cs.len(),
            cs@ == s@,
            forall|k: int| 0 <= k < i ==> hex_value(#[trigger] s@[k]) is Some,
        decreases cs.len() - i,
    {
        if hex_digit_value(cs[i]).is_none() {
            assert(hex_value(s@[i as int]) is None);
            return false;
        }
        i += 1;
    }
    true
}

/// What one line of a stored tree says.
fn parse_entry(line: &str) -> (r: Option<(String, Entry)>)
    ensures
        match r {
            Some((path, e)) => entry_of(line@) == Some((path@, e@)),
            None => entry_of(line@) is None,
        },
{
    let (path_hex, rest) = match split_once(line, '\t') {
        Some(pair) => pair,
        None => return None,
    };
    let path_bytes = match decode_hex(path_hex.as_str()) {
        Some(b) => b,
        None => return None,
    };
    let path = match decode(path_bytes.as_slice()) {
        Some(p) => p,
        None => return None,
    };
    let (hash, mode) = match split_once(rest.as_str(), '\t') {
        Some(pair) => pair,
        None => (rest, copy_text("100644")),
    };
    if path_bytes.len() == 0 || chars_of(hash.as_str()).len() != 40 || !is_hex(hash.as_str()) {
        return None;
    }
    let executable = same(mode.as_str(), "100755");
    let symlink = same(mode.as_str(), "120000");
    Some((path, Entry { hash, executable, symlink }))
}

/// The tree that stored bytes hold.
pub fn parse_tree(bytes: &[u8]) -> (r: Option<Tree>)
    ensures
        match r {
            Some(t) => tree_of(bytes@) == Some(t@),
            None => tree_of(bytes@) is None,
        },
{
    let text = decode_lossy(bytes);
    let all = lines(text.as_str());
    let ghost list = line_list(text@);
    let mut tree: Tree = OrdMap::new();
    let mut i: usize = 0;
    assert(list.subrange(0, list.len() as int) =~= list);
    while i < all.len()
        invariant
            i <= all.len(),
            texts(all@) == list,
            list == line_list(loose_text(bytes@)),
            tree_of(bytes@) == tree_with(tree@, list.subrange(i as int, list.len() as int)),
        decreases all.len() - i,
    {
        let ghost rest = list.subrange(i as int, list.len() as int);
        assert(rest[0] == all@[i as int]@);
        assert(rest.subrange(1, rest.len() as int) =~= list.subrange(i + 1, list.len() as int));
        match parse_entry(all[i].as_str()) {
            Some((path, entry)) => tree.insert(path, entry),
            None => return None,
        }
        i += 1;
    }
    Some(tree)
}

/// The name of a tree.
pub open spec fn tree_id(t: Files) -> Seq<char> {
    object_id("tree"@, tree_bytes(t))
}

/// The name of a tree.
pub fn tree_hash(tree: &Tree) -> (r: String)
    ensures
        r@ == tree_id(tree@),
{
    object_hash("tree", serialize_tree(tree).as_slice())
}

// ---------------------------------------------------------------------------
// Reading back
// ---------------------------------------------------------------------------

/// Whether an entry can be stored: it has a path, a full blob name, and at most one kind.
pub open spec fn storable_entry(e: (Seq<char>, Record)) -> bool {
    &&& e.0.len() > 0
    &&& e.1.hash.len() == 40
    &&& all_hex(e.1.hash)
    &&& !(e.1.executable && e.1.symlink)
}

/// Whether a tree can be stored: its paths ascend and every entry can be.
pub open spec fn storable(t: Files) -> bool {
    ascending(t) && forall|i: int| 0 <= i < t.len() ==> storable_entry(#[trigger] t[i])
}

proof fn lemma_hex_text(bytes: Seq<u8>)
    ensures
        all_hex(hex(bytes)),
{
    let s = hex(bytes);
    assert forall|i: int| 0 <= i < s.len() implies hex_value(#[trigger] s[i]) is Some by {
        lemma_hex_digit(bytes[i / 2] as int / 16);
        lemma_hex_digit(bytes[i / 2] as int % 16);
    }
}

proof fn lemma_encode_nonempty(s: Seq<char>)
    requires
        s.len() > 0,
    ensures
        encode_utf8(s).len() > 0,
{
    encode_utf8_decode_utf8(s);
    if encode_utf8(s).len() == 0 {
        assert(encode_utf8(s) =~= seq![]);
        assert(decode_utf8(seq![]) =~= seq![]);
    }
}

proof fn lemma_mode_chars(r: Record)
    ensures
        forall|i: int|
            0 <= i < mode_part(r).len() ==> #[trigger] mode_part(r)[i] != '\n' && mode_part(r)[i]
                != '\r',
        mode_of(r) == "100755"@ <==> r.executable && !r.symlink,
        mode_of(r) == "120000"@ <==> r.symlink,
        "100644"@ != "100755"@,
        "100644"@ != "120000"@,
{
    reveal_strlit("\t");
    reveal_strlit("");
    reveal_strlit("100644");
    reveal_strlit("100755");
    reveal_strlit("120000");
    assert("100755"@[3] != "120000"@[3]);
    assert("100644"@[3] != "120000"@[3]);
    assert("100644"@[4] != "100755"@[4]);
}

/// The line of an entry holds no line end.
proof fn lemma_entry_plain(path: Seq<char>, r: Record)
    requires
        storable_entry((path, r)),
    ensures
        !entry_line(path, r).contains('\n'),
        entry_line(path, r).last() != '\r',
        entry_line(path, r).len() > 0,
{
    reveal_strlit("\t");
    let h = hex(encode_utf8(path));
    let line = entry_line(path, r);
    lemma_hex_text(encode_utf8(path));
    lemma_mode_chars(r);
    assert(line =~= h + "\t"@ + r.hash + mode_part(r));
    assert forall|i: int| 0 <= i < line.len() implies line[i] != '\n' && line[i] != '\r' by {
        if i < h.len() {
            assert(line[i] == h[i]);
            assert(hex_value(h[i]) is Some);
        } else if i == h.len() {
        } else if i < h.len() + 41 {
            assert(line[i] == r.hash[i - h.len() - 1]);
            assert(hex_value(r.hash[i - h.len() - 1]) is Some);
        } else {
            assert(line[i] == mode_part(r)[i - h.len() - 41]);
        }
    }
}

/// A run of hexadecimal digits ends at the tab behind it.
proof fn lemma_cut_hex(h: Seq<char>, rest: Seq<char>)
    requires
        all_hex(h),
    ensures
        cut_once(h + "\t"@ + rest, '\t') == Some((h, rest)),
{
    reveal_strlit("\t");
    let line = h + "\t"@ + rest;
    crate::text::lemma_index_from(line, '\t', 0);
    assert forall|i: int| 0 <= i < h.len() implies line[i] != '\t' by {
        assert(line[i] == h[i]);
        assert(hex_value(h[i]) is Some);
    }
    assert(line[h.len() as int] == '\t');
    assert(crate::text::index_from(line, '\t', 0) == Some(h.len() as int));
    assert(line.subrange(0, h.len() as int) =~= h);
    assert(line.subrange(h.len() as int + 1, line.len() as int) =~= rest);
}

/// Reading the line of an entry gives the entry.
proof fn lemma_entry_line(path: Seq<char>, r: Record)
    requires
        storable_entry((path, r)),
    ensures
        entry_of(entry_line(path, r)) == Some((path, r)),
{
    let h = hex(encode_utf8(path));
    let line = entry_line(path, r);
    let rest = r.hash + mode_part(r);
    lemma_hex_text(encode_utf8(path));
    lemma_hex_round_trip(encode_utf8(path));
    lemma_text_round_trip(path);
    lemma_encode_nonempty(path);
    lemma_mode_chars(r);
    assert(line =~= h + "\t"@ + rest);
    lemma_cut_hex(h, rest);
    if r.executable || r.symlink {
        assert(rest =~= r.hash + "\t"@ + mode_of(r));
        lemma_cut_hex(r.hash, mode_of(r));
    } else {
        reveal_strlit("");
        assert(rest =~= r.hash);
        crate::text::lemma_index_from(rest, '\t', 0);
        assert forall|i: int| 0 <= i < rest.len() implies rest[i] != '\t' by {
            assert(hex_value(r.hash[i]) is Some);
        }
        assert(cut_once(rest, '\t') is None);
    }
}

proof fn lemma_read_back(done: Files, left: Files)
    requires
        storable(done + left),
    ensures
        tree_with(done, line_list(tree_text(left))) == Some(done + left),
    decreases left.len(),
{
    if left.len() == 0 {
        assert(tree_text(left) =~= seq![]);
        assert(line_list(seq![]) =~= seq![]);
        assert(done + left =~= done);
    } else {
        let whole = done + left;
        let (path, r) = left[0];
        let rest = left.subrange(1, left.len() as int);
        assert(whole[done.len() as int] == left[0]);
        lemma_entry_line(path, r);
        lemma_entry_plain(path, r);
        reveal_strlit("\n");
        assert("\n"@ =~= seq!['\n']);
        lemma_first_line(entry_line(path, r), tree_text(rest));
        let list = line_list(tree_text(left));
        assert(list.subrange(1, list.len() as int) =~= line_list(tree_text(rest)));
        assert forall|i: int| 0 <= i < done.len() implies before(#[trigger] done[i].0, path) by {
            assert(whole[i] == done[i]);
            assert(before(whole[i].0, whole[done.len() as int].0));
        }
        crate::order::lemma_bind_last(done, path, r);
        assert(done.push(left[0]) + rest =~= whole);
        lemma_read_back(done.push(left[0]), rest);
    }
}

/// A tree that can be stored is read back as it was.
pub proof fn lemma_tree_round_trip(t: Files)
    requires
        storable(t),
    ensures
        tree_of(tree_bytes(t)) == Some(t),
{
    lemma_text_round_trip(tree_text(t));
    assert(seq![] + t =~= t);
    lemma_read_back(seq![], t);
}

/// What is read from a store has ascending paths, each once.
pub proof fn lemma_tree_ascending(bytes: Seq<u8>)
    ensures
        tree_of(bytes) is Some ==> ascending(tree_of(bytes)->0),
{
    lemma_tree_with_ascending(seq![], line_list(loose_text(bytes)));
}

proof fn lemma_tree_with_ascending(t: Files, lines: Seq<Seq<char>>)
    requires
        ascending(t),
    ensures
        tree_with(t, lines) is Some ==> ascending(tree_with(t, lines)->0),
    decreases lines.len(),
{
    if lines.len() > 0 {
        if let Some((path, r)) = entry_of(lines[0]) {
            crate::order::lemma_bind_ascending(t, path, r);
            lemma_tree_with_ascending(bind(t, path, r), lines.subrange(1, lines.len() as int));
        }
    }
}

} // verus!
