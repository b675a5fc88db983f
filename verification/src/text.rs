//! Text as sequences of characters: searching, cutting, joining and numbers.
//!
//! Every operation is stated over `Seq<char>`, the view of `str` and `String`.

use vstd::prelude::*;
use vstd::slice::slice_subrange;
use vstd::utf8::encode_utf8_decode_utf8;

verus! {

/// `String::push` appends one character.
pub assume_specification[ String::push ](s: &mut String, c: char)
    ensures
        final(s)@ == old(s)@.push(c),
;

// ---------------------------------------------------------------------------
// Conversions
// ---------------------------------------------------------------------------

/// The characters of `s`, in order.
pub fn chars_of(s: &str) -> (r: Vec<char>)
    ensures
        r@ == s@,
{
    let mut out: Vec<char> = Vec::new();
    for c in it: s.chars()
        invariant
            it.seq() == s@,
            out@ == s@.take(it.index() as int),
    {
        out.push(c);
    }
    out
}

/// The text whose characters are `chars`.
pub fn text_of(chars: &[char]) -> (r: String)
    ensures
        r@ == chars@,
{
    let mut out = String::new();
    let mut i: usize = 0;
    while i < chars.len()
        invariant
            i <= chars.len(),
            out@ == chars@.take(i as int),
        decreases chars.len() - i,
    {
        out.push(chars[i]);
        i += 1;
    }
    assert(chars@.take(i as int) == chars@);
    out
}

/// The text of `chars[from..to]`.
pub fn cut(chars: &[char], from: usize, to: usize) -> (r: String)
    requires
        from <= to <= chars@.len(),
    ensures
        r@ == chars@.subrange(from as int, to as int),
{
    text_of(slice_subrange(chars, from, to))
}

/// The texts of a list.
pub open spec fn texts(v: Seq<String>) -> Seq<Seq<char>> {
    v.map_values(|s: String| s@)
}

/// Appending a string appends its text.
pub broadcast proof fn lemma_texts_push(v: Seq<String>, s: String)
    ensures
        #[trigger] texts(v.push(s)) == texts(v).push(s@),
{
    assert(texts(v.push(s)) =~= texts(v).push(s@));
}

/// The text of an optional string.
pub open spec fn opt_text(o: Option<String>) -> Option<Seq<char>> {
    match o {
        Some(s) => Some(s@),
        None => None,
    }
}

/// Whether two strings hold the same text.
pub fn same(a: &str, b: &str) -> (r: bool)
    ensures
        r == (a@ == b@),
{
    let x = a.as_bytes();
    let y = b.as_bytes();
    proof {
        encode_utf8_decode_utf8(a@);
        encode_utf8_decode_utf8(b@);
    }
    same_bytes(x, y)
}

/// Whether two byte strings are equal.
pub fn same_bytes(x: &[u8], y: &[u8]) -> (r: bool)
    ensures
        r == (x@ == y@),
{
    if x.len() != y.len() {
        return false;
    }
    let mut i: usize = 0;
    while i < x.len()
        invariant
            i <= x.len(),
            x@.len() == y@.len(),
            x@.take(i as int) == y@.take(i as int),
        decreases x.len() - i,
    {
        if x[i] != y[i] {
            assert(x@[i as int] != y@[i as int]);
            return false;
        }
        assert(x@.take(i + 1) == x@.take(i as int).push(x@[i as int]));
        assert(y@.take(i + 1) == y@.take(i as int).push(y@[i as int]));
        i += 1;
    }
    assert(x@.take(i as int) == x@);
    assert(y@.take(i as int) == y@);
    true
}

/// A copy of the text of `s`.
pub fn copy_text(s: &str) -> (r: String)
    ensures
        r@ == s@,
{
    s.to_string()
}

/// Copies of a list of texts.
pub fn copy_texts(v: &[String]) -> (r: Vec<String>)
    ensures
        texts(r@) == texts(v@),
{
    let mut out: Vec<String> = Vec::new();
    let mut i: usize = 0;
    while i < v.len()
        invariant
            i <= v.len(),
            texts(out@) == texts(v@).take(i as int),
        decreases v.len() - i,
    {
        broadcast use lemma_texts_push;

        out.push(copy_text(v[i].as_str()));
        assert(texts(v@).take(i + 1) == texts(v@).take(i as int).push(v@[i as int]@));
        i += 1;
    }
    assert(texts(v@).take(i as int) == texts(v@));
    out
}

/// Copies of bytes.
pub fn copy_bytes(v: &[u8]) -> (r: Vec<u8>)
    ensures
        r@ == v@,
{
    vstd::slice::slice_to_vec(v)
}

/// A copy of an optional text.
pub fn copy_opt(o: &Option<String>) -> (r: Option<String>)
    ensures
        opt_text(r) == opt_text(*o),
{
    match o {
        Some(s) => Some(copy_text(s.as_str())),
        None => None,
    }
}

/// Two texts one after the other.
pub fn join2(a: &str, b: &str) -> (r: String)
    ensures
        r@ == a@ + b@,
{
    let mut out = copy_text(a);
    out.append(b);
    out
}

/// Three texts one after the other.
pub fn join3(a: &str, b: &str, c: &str) -> (r: String)
    ensures
        r@ == a@ + b@ + c@,
{
    let mut out = copy_text(a);
    out.append(b);
    out.append(c);
    out
}

/// Four texts one after the other.
pub fn join4(a: &str, b: &str, c: &str, d: &str) -> (r: String)
    ensures
        r@ == a@ + b@ + c@ + d@,
{
    let mut out = join3(a, b, c);
    out.append(d);
    out
}

/// Five texts one after the other.
pub fn join5(a: &str, b: &str, c: &str, d: &str, e: &str) -> (r: String)
    ensures
        r@ == a@ + b@ + c@ + d@ + e@,
{
    let mut out = join4(a, b, c, d);
    out.append(e);
    out
}

// ---------------------------------------------------------------------------
// Searching
// ---------------------------------------------------------------------------

/// Whether `pat` stands in `s` at position `i`.
pub open spec fn occurs_at(s: Seq<char>, pat: Seq<char>, i: int) -> bool {
    0 <= i && i + pat.len() <= s.len() && s.subrange(i, i + pat.len()) == pat
}

/// The first position at or after `from` where `pat` stands in `s`.
pub open spec fn find_from(s: Seq<char>, pat: Seq<char>, from: int) -> Option<int>
    decreases s.len() - from,
{
    if from < 0 || from + pat.len() > s.len() {
        None
    } else if occurs_at(s, pat, from) {
        Some(from)
    } else if from == s.len() {
        None
    } else {
        find_from(s, pat, from + 1)
    }
}

/// Whether `pat` stands anywhere in `s`.
pub open spec fn holds(s: Seq<char>, pat: Seq<char>) -> bool {
    find_from(s, pat, 0) is Some
}

/// The first position at or after `from` of the character `c`.
pub open spec fn index_from(s: Seq<char>, c: char, from: int) -> Option<int>
    decreases s.len() - from,
{
    if from < 0 || from >= s.len() {
        None
    } else if s[from] == c {
        Some(from)
    } else {
        index_from(s, c, from + 1)
    }
}

/// The last position before `to` of the character `c`.
pub open spec fn rindex_to(s: Seq<char>, c: char, to: int) -> Option<int>
    decreases to,
{
    if to <= 0 || to > s.len() {
        None
    } else if s[to - 1] == c {
        Some(to - 1)
    } else {
        rindex_to(s, c, to - 1)
    }
}

/// Where `index_from` answers, the position is in range, holds `c`, and nothing before it does.
pub proof fn lemma_index_from(s: Seq<char>, c: char, from: int)
    requires
        0 <= from,
    ensures
        match index_from(s, c, from) {
            Some(i) => from <= i < s.len() && s[i] == c && forall|j: int|
                from <= j < i ==> s[j] != c,
            None => forall|j: int| from <= j < s.len() ==> s[j] != c,
        },
    decreases s.len() - from,
{
    if from < s.len() && s[from] != c {
        lemma_index_from(s, c, from + 1);
    }
}

/// Where `rindex_to` answers, the position is in range, holds `c`, and nothing after it does.
pub proof fn lemma_rindex_to(s: Seq<char>, c: char, to: int)
    requires
        0 <= to <= s.len(),
    ensures
        match rindex_to(s, c, to) {
            Some(i) => 0 <= i < to && s[i] == c && forall|j: int| i < j < to ==> s[j] != c,
            None => forall|j: int| 0 <= j < to ==> s[j] != c,
        },
    decreases to,
{
    if to > 0 && s[to - 1] != c {
        lemma_rindex_to(s, c, to - 1);
    }
}

/// The last position at or before `at` where `pat` stands in `s`.
pub open spec fn rfind_from(s: Seq<char>, pat: Seq<char>, at: int) -> Option<int>
    decreases at + 1,
{
    if at < 0 {
        None
    } else if occurs_at(s, pat, at) {
        Some(at)
    } else {
        rfind_from(s, pat, at - 1)
    }
}

/// Where `rfind_from` answers, `pat` stands there and nowhere after, up to `at`.
pub proof fn lemma_rfind_from(s: Seq<char>, pat: Seq<char>, at: int)
    ensures
        match rfind_from(s, pat, at) {
            Some(i) => 0 <= i <= at && occurs_at(s, pat, i) && forall|j: int|
                i < j <= at ==> !occurs_at(s, pat, j),
            None => forall|j: int| 0 <= j <= at ==> !occurs_at(s, pat, j),
        },
    decreases at + 1,
{
    if at >= 0 && !occurs_at(s, pat, at) {
        lemma_rfind_from(s, pat, at - 1);
    }
}

/// Where `find_from` answers, `pat` stands there and nowhere before.
pub proof fn lemma_find_from(s: Seq<char>, pat: Seq<char>, from: int)
    requires
        0 <= from,
    ensures
        match find_from(s, pat, from) {
            Some(i) => from <= i && occurs_at(s, pat, i) && forall|j: int|
                from <= j < i ==> !occurs_at(s, pat, j),
            None => forall|j: int| from <= j ==> !occurs_at(s, pat, j),
        },
    decreases s.len() - from,
{
    if from + pat.len() <= s.len() && !occurs_at(s, pat, from) && from < s.len() {
        lemma_find_from(s, pat, from + 1);
    }
}

/// Whether `pat` stands in `s` at `i`.
pub fn matches_at(s: &[char], pat: &[char], i: usize) -> (r: bool)
    ensures
        r == occurs_at(s@, pat@, i as int),
{
    if pat.len() > s.len() || i > s.len() - pat.len() {
        return false;
    }
    let mut k: usize = 0;
    while k < pat.len()
        invariant
            k <= pat.len(),
            i + pat.len() <= s.len(),
            forall|j: int| 0 <= j < k ==> s@[i + j] == pat@[j],
        decreases pat.len() - k,
    {
        if s[i + k] != pat[k] {
            assert(s@.subrange(i as int, i + pat.len())[k as int] != pat@[k as int]);
            return false;
        }
        k += 1;
    }
    assert(s@.subrange(i as int, i + pat.len()) == pat@);
    true
}

/// The first position at or after `from` where `pat` stands in `s`.
pub fn find_at(s: &[char], pat: &[char], from: usize) -> (r: Option<usize>)
    ensures
        match r {
            Some(i) => find_from(s@, pat@, from as int) == Some(i as int) && i + pat.len()
                <= s.len(),
            None => find_from(s@, pat@, from as int) is None,
        },
{
    let mut i: usize = from;
    while i < s.len()
        invariant
            find_from(s@, pat@, from as int) == find_from(s@, pat@, i as int),
        decreases s.len() - i,
    {
        if matches_at(s, pat, i) {
            return Some(i);
        }
        i += 1;
    }
    if matches_at(s, pat, i) {
        Some(i)
    } else {
        None
    }
}

/// The first position at or after `from` of `c`.
pub fn char_at_or_after(s: &[char], c: char, from: usize) -> (r: Option<usize>)
    ensures
        match r {
            Some(i) => index_from(s@, c, from as int) == Some(i as int) && from <= i < s.len(),
            None => index_from(s@, c, from as int) is None,
        },
{
    let mut i: usize = from;
    while i < s.len()
        invariant
            from <= i,
            index_from(s@, c, from as int) == index_from(s@, c, i as int),
        decreases s.len() - i,
    {
        if s[i] == c {
            return Some(i);
        }
        i += 1;
    }
    None
}

/// The last position of `c`.
pub fn last_char(s: &[char], c: char) -> (r: Option<usize>)
    ensures
        match r {
            Some(i) => rindex_to(s@, c, s@.len() as int) == Some(i as int) && i < s.len(),
            None => rindex_to(s@, c, s@.len() as int) is None,
        },
{
    let mut i: usize = s.len();
    while i > 0
        invariant
            i <= s.len(),
            rindex_to(s@, c, s@.len() as int) == rindex_to(s@, c, i as int),
        decreases i,
    {
        if s[i - 1] == c {
            return Some(i - 1);
        }
        i -= 1;
    }
    None
}

/// Whether `s` starts with `pat`.
pub open spec fn starts(s: Seq<char>, pat: Seq<char>) -> bool {
    occurs_at(s, pat, 0)
}

/// Whether `s` ends with `pat`.
pub open spec fn ends(s: Seq<char>, pat: Seq<char>) -> bool {
    occurs_at(s, pat, s.len() - pat.len())
}

/// What follows the prefix `pat` of `s`.
pub open spec fn after_prefix(s: Seq<char>, pat: Seq<char>) -> Option<Seq<char>> {
    if starts(s, pat) {
        Some(s.subrange(pat.len() as int, s.len() as int))
    } else {
        None
    }
}

/// What precedes the suffix `pat` of `s`.
pub open spec fn before_suffix(s: Seq<char>, pat: Seq<char>) -> Option<Seq<char>> {
    if ends(s, pat) {
        Some(s.subrange(0, s.len() - pat.len()))
    } else {
        None
    }
}

/// Whether `s` starts with `pat`.
pub fn starts_with(s: &str, pat: &str) -> (r: bool)
    ensures
        r == starts(s@, pat@),
{
    matches_at(chars_of(s).as_slice(), chars_of(pat).as_slice(), 0)
}

/// Whether `s` ends with `pat`.
pub fn ends_with(s: &str, pat: &str) -> (r: bool)
    ensures
        r == ends(s@, pat@),
{
    let cs = chars_of(s);
    let ps = chars_of(pat);
    if ps.len() > cs.len() {
        return false;
    }
    matches_at(cs.as_slice(), ps.as_slice(), cs.len() - ps.len())
}

/// Whether `pat` stands anywhere in `s`.
pub fn contains(s: &str, pat: &str) -> (r: bool)
    ensures
        r == holds(s@, pat@),
{
    match find_at(chars_of(s).as_slice(), chars_of(pat).as_slice(), 0) {
        Some(_) => true,
        None => false,
    }
}

/// What follows the prefix `pat` of `s`.
pub fn strip_prefix(s: &str, pat: &str) -> (r: Option<String>)
    ensures
        opt_text(r) == after_prefix(s@, pat@),
{
    let cs = chars_of(s);
    let ps = chars_of(pat);
    if matches_at(cs.as_slice(), ps.as_slice(), 0) {
        Some(cut(cs.as_slice(), ps.len(), cs.len()))
    } else {
        None
    }
}

/// What precedes the suffix `pat` of `s`.
pub fn strip_suffix(s: &str, pat: &str) -> (r: Option<String>)
    ensures
        opt_text(r) == before_suffix(s@, pat@),
{
    let cs = chars_of(s);
    let ps = chars_of(pat);
    if ps.len() <= cs.len() && matches_at(cs.as_slice(), ps.as_slice(), cs.len() - ps.len()) {
        Some(cut(cs.as_slice(), 0, cs.len() - ps.len()))
    } else {
        None
    }
}

/// A pair of texts.
pub open spec fn opt_pair(o: Option<(String, String)>) -> Option<(Seq<char>, Seq<char>)> {
    match o {
        Some(p) => Some((p.0@, p.1@)),
        None => None,
    }
}

/// The two sides of the first `c` in `s`.
pub open spec fn cut_once(s: Seq<char>, c: char) -> Option<(Seq<char>, Seq<char>)> {
    match index_from(s, c, 0) {
        Some(i) => Some((s.subrange(0, i), s.subrange(i + 1, s.len() as int))),
        None => None,
    }
}

/// The two sides of the last `c` in `s`.
pub open spec fn rcut_once(s: Seq<char>, c: char) -> Option<(Seq<char>, Seq<char>)> {
    match rindex_to(s, c, s.len() as int) {
        Some(i) => Some((s.subrange(0, i), s.subrange(i + 1, s.len() as int))),
        None => None,
    }
}

/// The two sides of the first `pat` in `s`.
pub open spec fn cut_once_text(s: Seq<char>, pat: Seq<char>) -> Option<(Seq<char>, Seq<char>)> {
    match find_from(s, pat, 0) {
        Some(i) => Some((s.subrange(0, i), s.subrange(i + pat.len(), s.len() as int))),
        None => None,
    }
}

/// The two sides of the last `pat` in `s`.
pub open spec fn rcut_once_text(s: Seq<char>, pat: Seq<char>) -> Option<(Seq<char>, Seq<char>)> {
    match rfind_from(s, pat, s.len() - pat.len()) {
        Some(i) => Some((s.subrange(0, i), s.subrange(i + pat.len(), s.len() as int))),
        None => None,
    }
}

/// The two sides of the last `pat` in `s`.
pub fn rsplit_once_text(s: &str, pat: &str) -> (r: Option<(String, String)>)
    ensures
        opt_pair(r) == rcut_once_text(s@, pat@),
{
    let cs = chars_of(s);
    let ps = chars_of(pat);
    if ps.len() > cs.len() {
        return None;
    }
    let mut i: usize = cs.len() - ps.len();
    loop
        invariant
            cs@ == s@,
            ps@ == pat@,
            i + ps.len() <= cs.len(),
            rfind_from(s@, pat@, s@.len() - pat@.len()) == rfind_from(s@, pat@, i as int),
        decreases i,
    {
        if matches_at(cs.as_slice(), ps.as_slice(), i) {
            return Some(
                (cut(cs.as_slice(), 0, i), cut(cs.as_slice(), i + ps.len(), cs.len())),
            );
        }
        if i == 0 {
            assert(rfind_from(s@, pat@, -1) is None);
            return None;
        }
        i -= 1;
    }
}

/// The two sides of the first `c` in `s`.
pub fn split_once(s: &str, c: char) -> (r: Option<(String, String)>)
    ensures
        opt_pair(r) == cut_once(s@, c),
{
    let cs = chars_of(s);
    match char_at_or_after(cs.as_slice(), c, 0) {
        Some(i) => Some((cut(cs.as_slice(), 0, i), cut(cs.as_slice(), i + 1, cs.len()))),
        None => None,
    }
}

/// The two sides of the last `c` in `s`.
pub fn rsplit_once(s: &str, c: char) -> (r: Option<(String, String)>)
    ensures
        opt_pair(r) == rcut_once(s@, c),
{
    let cs = chars_of(s);
    match last_char(cs.as_slice(), c) {
        Some(i) => Some((cut(cs.as_slice(), 0, i), cut(cs.as_slice(), i + 1, cs.len()))),
        None => None,
    }
}

/// The two sides of the first `pat` in `s`.
pub fn split_once_text(s: &str, pat: &str) -> (r: Option<(String, String)>)
    ensures
        opt_pair(r) == cut_once_text(s@, pat@),
{
    let cs = chars_of(s);
    let ps = chars_of(pat);
    match find_at(cs.as_slice(), ps.as_slice(), 0) {
        Some(i) => Some((cut(cs.as_slice(), 0, i), cut(cs.as_slice(), i + ps.len(), cs.len()))),
        None => None,
    }
}

// ---------------------------------------------------------------------------
// Pieces
// ---------------------------------------------------------------------------

/// The pieces of `s` between separators, where the current piece began at `start` and the
/// characters up to `i` are known to hold no separator since then.
pub open spec fn split_at(s: Seq<char>, sep: char, start: int, i: int) -> Seq<Seq<char>>
    decreases s.len() - i,
{
    if i < 0 || i >= s.len() {
        seq![s.subrange(start, s.len() as int)]
    } else if s[i] == sep {
        seq![s.subrange(start, i)] + split_at(s, sep, i + 1, i + 1)
    } else {
        split_at(s, sep, start, i + 1)
    }
}

/// The pieces of `s` between the separators.
pub open spec fn pieces(s: Seq<char>, sep: char) -> Seq<Seq<char>> {
    split_at(s, sep, 0, 0)
}

/// Where there is more than one piece, the first ends at a separator, and the others are the pieces of
/// what follows it.
pub proof fn lemma_first_piece(s: Seq<char>, sep: char, start: int, i: int) -> (end: int)
    requires
        0 <= start <= i <= s.len(),
    ensures
        split_at(s, sep, start, i).len() >= 1,
        split_at(s, sep, start, i).len() >= 2 ==> i <= end < s.len() && s[end] == sep && split_at(
            s,
            sep,
            start,
            i,
        ) == seq![s.subrange(start, end)] + split_at(s, sep, end + 1, end + 1),
    decreases s.len() - i,
{
    if i >= s.len() {
        i
    } else if s[i] == sep {
        i
    } else {
        lemma_first_piece(s, sep, start, i + 1)
    }
}

/// The pieces of `s` between the separators.
pub fn split(s: &str, sep: char) -> (r: Vec<String>)
    ensures
        texts(r@) == pieces(s@, sep),
{
    broadcast use lemma_texts_push;

    let cs = chars_of(s);
    let mut out: Vec<String> = Vec::new();
    let mut start: usize = 0;
    let mut i: usize = 0;
    while i < cs.len()
        invariant
            start <= i <= cs.len(),
            cs@ == s@,
            texts(out@) + split_at(s@, sep, start as int, i as int) == pieces(s@, sep),
        decreases cs.len() - i,
    {
        broadcast use lemma_texts_push;

        if cs[i] == sep {
            let piece = cut(cs.as_slice(), start, i);
            let ghost was = texts(out@);
            out.push(piece);
            assert(was + (seq![piece@] + split_at(s@, sep, i + 1, i + 1)) == was.push(piece@)
                + split_at(s@, sep, i + 1, i + 1));
            start = i + 1;
        }
        i += 1;
    }
    let piece = cut(cs.as_slice(), start, cs.len());
    let ghost was = texts(out@);
    out.push(piece);
    assert(was + seq![piece@] == was.push(piece@));
    out
}

/// `s` without one final carriage return.
pub open spec fn chomp(s: Seq<char>) -> Seq<char> {
    if s.len() > 0 && s.last() == '\r' {
        s.drop_last()
    } else {
        s
    }
}

/// The lines of `s` from `start` on, where no line ends between `start` and `i`.
pub open spec fn lines_at(s: Seq<char>, start: int, i: int) -> Seq<Seq<char>>
    decreases s.len() - i,
{
    if i < 0 || i >= s.len() {
        if start < s.len() {
            seq![s.subrange(start, s.len() as int)]
        } else {
            seq![]
        }
    } else if s[i] == '\n' {
        seq![chomp(s.subrange(start, i))] + lines_at(s, i + 1, i + 1)
    } else {
        lines_at(s, start, i + 1)
    }
}

/// The lines of `s` without their line ends.
pub open spec fn line_list(s: Seq<char>) -> Seq<Seq<char>> {
    lines_at(s, 0, 0)
}

/// The lines of `s` without their line ends.
pub fn lines(s: &str) -> (r: Vec<String>)
    ensures
        texts(r@) == line_list(s@),
{
    broadcast use lemma_texts_push;

    let cs = chars_of(s);
    let mut out: Vec<String> = Vec::new();
    let mut start: usize = 0;
    let mut i: usize = 0;
    while i < cs.len()
        invariant
            start <= i <= cs.len(),
            cs@ == s@,
            texts(out@) + lines_at(s@, start as int, i as int) == line_list(s@),
        decreases cs.len() - i,
    {
        broadcast use lemma_texts_push;

        if cs[i] == '\n' {
            let ghost whole = s@.subrange(start as int, i as int);
            let piece = if start < i && cs[i - 1] == '\r' {
                assert(whole.drop_last() == s@.subrange(start as int, i - 1));
                cut(cs.as_slice(), start, i - 1)
            } else {
                cut(cs.as_slice(), start, i)
            };
            assert(piece@ == chomp(whole));
            let ghost was = texts(out@);
            out.push(piece);
            assert(was + (seq![piece@] + lines_at(s@, i + 1, i + 1)) == was.push(piece@)
                + lines_at(s@, i + 1, i + 1));
            start = i + 1;
        }
        i += 1;
    }
    if start < cs.len() {
        let piece = cut(cs.as_slice(), start, cs.len());
        let ghost was = texts(out@);
        out.push(piece);
        assert(was + seq![piece@] == was.push(piece@));
    } else {
        assert(texts(out@) + seq![] == texts(out@));
    }
    out
}

/// The lines of `s` from `start` on with their line ends, where no line ends between `start`
/// and `i`.
pub open spec fn whole_lines_at(s: Seq<char>, start: int, i: int) -> Seq<Seq<char>>
    decreases s.len() - i,
{
    if i < 0 || i >= s.len() {
        if start < s.len() {
            seq![s.subrange(start, s.len() as int)]
        } else {
            seq![]
        }
    } else if s[i] == '\n' {
        seq![s.subrange(start, i + 1)] + whole_lines_at(s, i + 1, i + 1)
    } else {
        whole_lines_at(s, start, i + 1)
    }
}

/// The lines of `s`, each with its line end where it has one.
pub open spec fn whole_lines(s: Seq<char>) -> Seq<Seq<char>> {
    whole_lines_at(s, 0, 0)
}

/// The lines of `s`, each with its line end where it has one.
pub fn split_inclusive(s: &str) -> (r: Vec<String>)
    ensures
        texts(r@) == whole_lines(s@),
{
    broadcast use lemma_texts_push;

    let cs = chars_of(s);
    let mut out: Vec<String> = Vec::new();
    let mut start: usize = 0;
    let mut i: usize = 0;
    while i < cs.len()
        invariant
            start <= i <= cs.len(),
            cs@ == s@,
            texts(out@) + whole_lines_at(s@, start as int, i as int) == whole_lines(s@),
        decreases cs.len() - i,
    {
        broadcast use lemma_texts_push;

        if cs[i] == '\n' {
            let piece = cut(cs.as_slice(), start, i + 1);
            let ghost was = texts(out@);
            out.push(piece);
            assert(was + (seq![piece@] + whole_lines_at(s@, i + 1, i + 1)) == was.push(piece@)
                + whole_lines_at(s@, i + 1, i + 1));
            start = i + 1;
        }
        i += 1;
    }
    if start < cs.len() {
        let piece = cut(cs.as_slice(), start, cs.len());
        let ghost was = texts(out@);
        out.push(piece);
        assert(was + seq![piece@] == was.push(piece@));
    } else {
        assert(texts(out@) + seq![] == texts(out@));
    }
    out
}

/// Where `lines_at` stands inside a longer text does not matter.
proof fn lemma_lines_shift(a: Seq<char>, b: Seq<char>, start: int, i: int)
    requires
        0 <= start <= i <= b.len(),
    ensures
        lines_at(a + b, a.len() + start, a.len() + i) == lines_at(b, start, i),
    decreases b.len() - i,
{
    let s = a + b;
    if i >= b.len() {
        if start < b.len() {
            assert(s.subrange(a.len() + start, s.len() as int) =~= b.subrange(
                start,
                b.len() as int,
            ));
        }
    } else if b[i] == '\n' {
        assert(s[a.len() + i] == b[i]);
        assert(s.subrange(a.len() + start, a.len() + i) =~= b.subrange(start, i));
        lemma_lines_shift(a, b, i + 1, i + 1);
    } else {
        assert(s[a.len() + i] == b[i]);
        lemma_lines_shift(a, b, start, i + 1);
    }
}

proof fn lemma_lines_scan(s: Seq<char>, start: int, i: int, n: int)
    requires
        0 <= start <= i <= n <= s.len(),
        forall|k: int| i <= k < n ==> s[k] != '\n',
    ensures
        lines_at(s, start, i) == lines_at(s, start, n),
    decreases n - i,
{
    if i < n {
        lemma_lines_scan(s, start, i + 1, n);
    }
}

/// A line without line ends of its own, ended and followed by more text, comes first in the list
/// of lines, and the lines of the rest follow.
pub proof fn lemma_first_line(line: Seq<char>, rest: Seq<char>)
    requires
        !line.contains('\n'),
        line.len() == 0 || line.last() != '\r',
    ensures
        line_list(line + seq!['\n'] + rest) == seq![line] + line_list(rest),
{
    let s = line + seq!['\n'] + rest;
    let n = line.len() as int;
    assert forall|k: int| 0 <= k < n implies s[k] != '\n' by {
        assert(s[k] == line[k]);
    }
    lemma_lines_scan(s, 0, 0, n);
    assert(s[n] == '\n');
    assert(s.subrange(0, n) =~= line);
    let head = line + seq!['\n'];
    assert(s =~= head + rest);
    lemma_lines_shift(head, rest, 0, 0);
}

/// A text is cut at a character that the part before it does not hold.
pub proof fn lemma_cut_once(a: Seq<char>, c: char, b: Seq<char>)
    requires
        !a.contains(c),
    ensures
        cut_once(a + seq![c] + b, c) == Some((a, b)),
{
    let s = a + seq![c] + b;
    lemma_index_skips(s, c, a.len() as int, 0, a);
    assert(s[a.len() as int] == c);
    assert(s.subrange(0, a.len() as int) =~= a);
    assert(s.subrange((a.len() + 1) as int, s.len() as int) =~= b);
}

proof fn lemma_index_skips(s: Seq<char>, c: char, n: int, i: int, a: Seq<char>)
    requires
        0 <= i <= n,
        n == a.len(),
        n < s.len(),
        s[n] == c,
        !a.contains(c),
        s.subrange(0, n) == a,
    ensures
        index_from(s, c, i) == Some(n),
    decreases n - i,
{
    if i < n {
        assert(s.subrange(0, n)[i] == s[i]);
        assert(a.contains(a[i]));
        lemma_index_skips(s, c, n, i + 1, a);
    }
}

/// Whether a text is a line: it holds no line end, and nothing that would be taken for a part of
/// one.
pub open spec fn is_line(s: Seq<char>) -> bool {
    !s.contains('\n') && (s.len() == 0 || s.last() != '\r')
}

/// A line that ends a text of whole lines comes last in the list of lines.
pub proof fn lemma_last_line(a: Seq<char>, line: Seq<char>)
    requires
        a.len() == 0 || a.last() == '\n',
        is_line(line),
    ensures
        line_list(a + line + "\n"@) == line_list(a).push(line),
    decreases a.len(),
{
    reveal_strlit("\n");
    assert("\n"@ =~= seq!['\n']);
    if a.len() == 0 {
        lemma_first_line(line, seq![]);
        assert(a + line + "\n"@ =~= line + seq!['\n'] + Seq::<char>::empty());
        assert(line_list(a) =~= seq![]);
        assert(line_list(Seq::<char>::empty()) =~= seq![]);
        assert(seq![line] + Seq::<Seq<char>>::empty() =~= line_list(a).push(line));
    } else {
        lemma_lines_tail(a, line, 0, 0);
    }
}

proof fn lemma_lines_tail(a: Seq<char>, line: Seq<char>, start: int, i: int)
    requires
        0 <= start <= i <= a.len(),
        a.len() > 0,
        a.last() == '\n',
        i == a.len() ==> start == i,
        is_line(line),
    ensures
        lines_at(a + line + seq!['\n'], start, i) == lines_at(a, start, i).push(line),
    decreases a.len() - i,
{
    let s = a + line + seq!['\n'];
    if i == a.len() {
        let n = (a.len() + line.len()) as int;
        assert forall|k: int| i <= k < n implies s[k] != '\n' by {
            assert(s[k] == line[k - a.len()]);
            assert(line.contains(line[k - a.len()]));
        }
        lemma_lines_scan(s, i, i, n);
        assert(s[n] == '\n');
        assert(s.subrange(i, n) =~= line);
        assert(lines_at(s, n + 1, n + 1) =~= seq![]);
        assert(lines_at(s, i, i) =~= seq![line]);
        assert(lines_at(a, i, i) =~= seq![]);
    } else if a[i] == '\n' {
        assert(s[i] == '\n');
        assert(s.subrange(start, i) =~= a.subrange(start, i));
        lemma_lines_tail(a, line, i + 1, i + 1);
        assert((seq![chomp(a.subrange(start, i))] + lines_at(a, i + 1, i + 1)).push(line)
            =~= seq![chomp(a.subrange(start, i))] + lines_at(a, i + 1, i + 1).push(line));
    } else {
        assert(s[i] == a[i]);
        assert(i + 1 < a.len()) by {
            if i + 1 == a.len() {
                assert(a[i] == a.last());
            }
        }
        lemma_lines_tail(a, line, start, i + 1);
    }
}

/// A text without line ends is its own only line.
pub proof fn lemma_only_line(line: Seq<char>)
    requires
        !line.contains('\n'),
        line.len() > 0,
    ensures
        line_list(line) == seq![line],
{
    assert forall|k: int| 0 <= k < line.len() implies line[k] != '\n' by {
        assert(line.contains(line[k]));
    }
    lemma_lines_scan(line, 0, 0, line.len() as int);
    assert(line.subrange(0, line.len() as int) =~= line);
}

/// The texts of `v` with `sep` between them.
pub open spec fn joined(v: Seq<Seq<char>>, sep: Seq<char>) -> Seq<char>
    decreases v.len(),
{
    if v.len() == 0 {
        seq![]
    } else if v.len() == 1 {
        v[0]
    } else {
        joined(v.drop_last(), sep) + sep + v.last()
    }
}

/// The texts of `v` with `sep` between them.
pub fn join(v: &[String], sep: &str) -> (r: String)
    ensures
        r@ == joined(texts(v@), sep@),
{
    let mut out = String::new();
    let mut i: usize = 0;
    while i < v.len()
        invariant
            i <= v.len(),
            out@ == joined(texts(v@).take(i as int), sep@),
        decreases v.len() - i,
    {
        if i > 0 {
            out.append(sep);
        }
        out.append(v[i].as_str());
        assert(texts(v@).take(i + 1).drop_last() == texts(v@).take(i as int));
        if i == 0 {
            assert(texts(v@).take(1)[0] == v@[0]@);
            assert(out@ == v@[0]@);
        }
        i += 1;
    }
    assert(texts(v@).take(i as int) == texts(v@));
    out
}

/// All the texts of `v` one after the other.
pub open spec fn flat(v: Seq<Seq<char>>) -> Seq<char>
    decreases v.len(),
{
    if v.len() == 0 {
        seq![]
    } else {
        flat(v.drop_last()) + v.last()
    }
}

// ---------------------------------------------------------------------------
// White space
// ---------------------------------------------------------------------------

/// The characters with the Unicode property White_Space.
pub open spec fn is_space(c: char) -> bool {
    ||| '\u{9}' <= c <= '\u{d}'
    ||| c == ' '
    ||| c == '\u{85}'
    ||| c == '\u{a0}'
    ||| c == '\u{1680}'
    ||| '\u{2000}' <= c <= '\u{200a}'
    ||| c == '\u{2028}'
    ||| c == '\u{2029}'
    ||| c == '\u{202f}'
    ||| c == '\u{205f}'
    ||| c == '\u{3000}'
}

/// Whether `c` has the Unicode property White_Space.
pub fn is_whitespace(c: char) -> (r: bool)
    ensures
        r == is_space(c),
{
    ('\u{9}' <= c && c <= '\u{d}') || c == ' ' || c == '\u{85}' || c == '\u{a0}' || c
        == '\u{1680}' || ('\u{2000}' <= c && c <= '\u{200a}') || c == '\u{2028}' || c
        == '\u{2029}' || c == '\u{202f}' || c == '\u{205f}' || c == '\u{3000}'
}

/// `s` without its leading white space.
pub open spec fn trimmed_start(s: Seq<char>) -> Seq<char>
    decreases s.len(),
{
    if s.len() > 0 && is_space(s[0]) {
        trimmed_start(s.subrange(1, s.len() as int))
    } else {
        s
    }
}

/// `s` without its trailing white space.
pub open spec fn trimmed_end(s: Seq<char>) -> Seq<char>
    decreases s.len(),
{
    if s.len() > 0 && is_space(s.last()) {
        trimmed_end(s.drop_last())
    } else {
        s
    }
}

/// `s` without white space at either end.
pub open spec fn trimmed(s: Seq<char>) -> Seq<char> {
    trimmed_end(trimmed_start(s))
}

/// `s` without its leading white space.
pub fn trim_start(s: &str) -> (r: String)
    ensures
        r@ == trimmed_start(s@),
{
    let cs = chars_of(s);
    let mut i: usize = 0;
    assert(s@.subrange(0, s@.len() as int) == s@);
    while i < cs.len() && is_whitespace(cs[i])
        invariant
            i <= cs.len(),
            cs@ == s@,
            trimmed_start(s@) == trimmed_start(s@.subrange(i as int, s@.len() as int)),
        decreases cs.len() - i,
    {
        let ghost rest = s@.subrange(i as int, s@.len() as int);
        assert(rest.subrange(1, rest.len() as int) == s@.subrange(i + 1, s@.len() as int));
        i += 1;
    }
    cut(cs.as_slice(), i, cs.len())
}

/// `s` without its trailing white space.
pub fn trim_end(s: &str) -> (r: String)
    ensures
        r@ == trimmed_end(s@),
{
    let cs = chars_of(s);
    let mut n: usize = cs.len();
    assert(s@.subrange(0, n as int) == s@);
    while n > 0 && is_whitespace(cs[n - 1])
        invariant
            n <= cs.len(),
            cs@ == s@,
            trimmed_end(s@) == trimmed_end(s@.subrange(0, n as int)),
        decreases n,
    {
        assert(s@.subrange(0, n as int).drop_last() == s@.subrange(0, n - 1));
        n -= 1;
    }
    cut(cs.as_slice(), 0, n)
}

/// `s` without white space at either end.
pub fn trim(s: &str) -> (r: String)
    ensures
        r@ == trimmed(s@),
{
    trim_end(trim_start(s).as_str())
}

/// `s` without its trailing `c` characters.
pub open spec fn without_trailing(s: Seq<char>, c: char) -> Seq<char>
    decreases s.len(),
{
    if s.len() > 0 && s.last() == c {
        without_trailing(s.drop_last(), c)
    } else {
        s
    }
}

/// `s` without its trailing `c` characters.
pub fn trim_end_matches(s: &str, c: char) -> (r: String)
    ensures
        r@ == without_trailing(s@, c),
{
    let cs = chars_of(s);
    let mut n: usize = cs.len();
    assert(s@.subrange(0, n as int) == s@);
    while n > 0 && cs[n - 1] == c
        invariant
            n <= cs.len(),
            cs@ == s@,
            without_trailing(s@, c) == without_trailing(s@.subrange(0, n as int), c),
        decreases n,
    {
        assert(s@.subrange(0, n as int).drop_last() == s@.subrange(0, n - 1));
        n -= 1;
    }
    cut(cs.as_slice(), 0, n)
}

/// The maximal runs of other characters than white space in `s[start..]`, where `s[start..i]`
/// holds none.
pub open spec fn words_at(s: Seq<char>, start: int, i: int) -> Seq<Seq<char>>
    decreases s.len() - i,
{
    if i < 0 || i >= s.len() {
        if start < s.len() {
            seq![s.subrange(start, s.len() as int)]
        } else {
            seq![]
        }
    } else if is_space(s[i]) {
        if start < i {
            seq![s.subrange(start, i)] + words_at(s, i + 1, i + 1)
        } else {
            words_at(s, i + 1, i + 1)
        }
    } else {
        words_at(s, start, i + 1)
    }
}

/// The words of `s`: its maximal runs of characters that are not white space.
pub open spec fn word_list(s: Seq<char>) -> Seq<Seq<char>> {
    words_at(s, 0, 0)
}

/// The words of `s`.
pub fn split_whitespace(s: &str) -> (r: Vec<String>)
    ensures
        texts(r@) == word_list(s@),
{
    broadcast use lemma_texts_push;

    let cs = chars_of(s);
    let mut out: Vec<String> = Vec::new();
    let mut start: usize = 0;
    let mut i: usize = 0;
    while i < cs.len()
        invariant
            start <= i <= cs.len(),
            cs@ == s@,
            texts(out@) + words_at(s@, start as int, i as int) == word_list(s@),
        decreases cs.len() - i,
    {
        broadcast use lemma_texts_push;

        if is_whitespace(cs[i]) {
            if start < i {
                let piece = cut(cs.as_slice(), start, i);
                let ghost was = texts(out@);
                out.push(piece);
                assert(was + (seq![piece@] + words_at(s@, i + 1, i + 1)) == was.push(piece@)
                    + words_at(s@, i + 1, i + 1));
            }
            start = i + 1;
        }
        i += 1;
    }
    if start < cs.len() {
        let piece = cut(cs.as_slice(), start, cs.len());
        let ghost was = texts(out@);
        out.push(piece);
        assert(was + seq![piece@] == was.push(piece@));
    } else {
        assert(texts(out@) + seq![] == texts(out@));
    }
    out
}

// ---------------------------------------------------------------------------
// ASCII case
// ---------------------------------------------------------------------------

/// `c` in lower case where it is an ASCII letter.
pub open spec fn lower_char(c: char) -> char {
    if 'A' <= c <= 'Z' {
        ((c as u32) + 32) as char
    } else {
        c
    }
}

/// `s` with its ASCII letters in lower case.
pub open spec fn lowered(s: Seq<char>) -> Seq<char> {
    s.map_values(|c: char| lower_char(c))
}

fn lower(c: char) -> (r: char)
    ensures
        r == lower_char(c),
{
    if 'A' <= c && c <= 'Z' {
        ((c as u8) + 32) as char
    } else {
        c
    }
}

/// `s` with its ASCII letters in lower case.
pub fn to_ascii_lowercase(s: &str) -> (r: String)
    ensures
        r@ == lowered(s@),
{
    let cs = chars_of(s);
    let mut out = String::new();
    let mut i: usize = 0;
    while i < cs.len()
        invariant
            i <= cs.len(),
            cs@ == s@,
            out@ == lowered(s@.take(i as int)),
        decreases cs.len() - i,
    {
        out.push(lower(cs[i]));
        assert(out@ =~= lowered(s@.take(i + 1)));
        i += 1;
    }
    assert(s@.take(i as int) =~= s@);
    out
}

/// `s` without its leading `c` characters.
pub open spec fn without_leading(s: Seq<char>, c: char) -> Seq<char>
    decreases s.len(),
{
    if s.len() > 0 && s[0] == c {
        without_leading(s.subrange(1, s.len() as int), c)
    } else {
        s
    }
}

/// `s` without its leading `c` characters.
pub fn trim_start_matches(s: &str, c: char) -> (r: String)
    ensures
        r@ == without_leading(s@, c),
{
    let cs = chars_of(s);
    let mut i: usize = 0;
    assert(s@.subrange(0, s@.len() as int) =~= s@);
    while i < cs.len() && cs[i] == c
        invariant
            i <= cs.len(),
            cs@ == s@,
            without_leading(s@, c) == without_leading(s@.subrange(i as int, s@.len() as int), c),
        decreases cs.len() - i,
    {
        let ghost rest = s@.subrange(i as int, s@.len() as int);
        assert(rest.subrange(1, rest.len() as int) =~= s@.subrange(i + 1, s@.len() as int));
        i += 1;
    }
    cut(cs.as_slice(), i, cs.len())
}

/// The first position at or after `from` of a white space character.
pub open spec fn space_from(s: Seq<char>, from: int) -> Option<int>
    decreases s.len() - from,
{
    if from < 0 || from >= s.len() {
        None
    } else if is_space(s[from]) {
        Some(from)
    } else {
        space_from(s, from + 1)
    }
}

/// The two sides of the first white space character of `s`.
pub open spec fn cut_at_space(s: Seq<char>) -> Option<(Seq<char>, Seq<char>)> {
    match space_from(s, 0) {
        Some(i) => Some((s.subrange(0, i), s.subrange(i + 1, s.len() as int))),
        None => None,
    }
}

/// The two sides of the first white space character of `s`.
pub fn split_at_space(s: &str) -> (r: Option<(String, String)>)
    ensures
        opt_pair(r) == cut_at_space(s@),
{
    let cs = chars_of(s);
    let mut i: usize = 0;
    while i < cs.len()
        invariant
            i <= cs.len(),
            cs@ == s@,
            space_from(s@, 0) == space_from(s@, i as int),
        decreases cs.len() - i,
    {
        if is_whitespace(cs[i]) {
            return Some((cut(cs.as_slice(), 0, i), cut(cs.as_slice(), i + 1, cs.len())));
        }
        i += 1;
    }
    None
}

/// The first `n - 1` pieces of `s` between separators, and the rest of `s` as the last one.
pub open spec fn first_pieces(s: Seq<char>, sep: char, n: int) -> Seq<Seq<char>>
    decreases n,
{
    if n <= 0 {
        seq![]
    } else if n == 1 {
        seq![s]
    } else {
        match cut_once(s, sep) {
            Some((piece, rest)) => seq![piece] + first_pieces(rest, sep, n - 1),
            None => seq![s],
        }
    }
}

/// The first pieces of `s`, at most `n` in all.
pub fn splitn(s: &str, sep: char, n: usize) -> (r: Vec<String>)
    ensures
        texts(r@) == first_pieces(s@, sep, n as int),
{
    broadcast use lemma_texts_push;

    let mut out: Vec<String> = Vec::new();
    let mut rest = copy_text(s);
    let mut k: usize = n;
    let ghost all = first_pieces(s@, sep, n as int);
    assert(texts(out@) + all =~= all);
    while k > 1
        invariant
            k <= n,
            n > 0 ==> k > 0,
            all == first_pieces(s@, sep, n as int),
            texts(out@) + first_pieces(rest@, sep, k as int) == all,
        decreases k,
    {
        broadcast use lemma_texts_push;

        let ghost was = texts(out@);
        match split_once(rest.as_str(), sep) {
            Some((piece, tail)) => {
                out.push(piece);
                assert(was + (seq![piece@] + first_pieces(tail@, sep, k - 1)) =~= was.push(piece@)
                    + first_pieces(tail@, sep, k - 1));
                rest = tail;
            },
            None => {
                out.push(rest);
                assert(was + seq![rest@] =~= was.push(rest@));
                return out;
            },
        }
        k -= 1;
    }
    if n > 0 {
        let ghost was = texts(out@);
        out.push(rest);
        assert(was + seq![rest@] =~= was.push(rest@));
    } else {
        assert(texts(out@) =~= all);
    }
    out
}

} // verus!
