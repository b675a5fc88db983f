//! Regular expressions.

use vstd::prelude::*;

use crate::text::{chars_of, copy_text, holds, opt_text, texts};

verus! {

// ---------------------------------------------------------------------------
// The regular expression engine
// ---------------------------------------------------------------------------

/// What `regex::RegexBuilder::build` says of a pattern that it refuses; nothing for one that it
/// takes.
pub uninterp spec fn regex_refusal(pattern: Seq<char>, ignore_case: bool) -> Option<Seq<char>>;

/// Whether `regex::Regex::is_match` finds a pattern in a text.
pub uninterp spec fn regex_found(pattern: Seq<char>, ignore_case: bool, text: Seq<char>) -> bool;

/// The pieces of a text that `regex::Regex::find_iter` gives for a pattern.
pub uninterp spec fn regex_pieces(pattern: Seq<char>, ignore_case: bool, text: Seq<char>) -> Seq<
    Seq<char>,
>;

/// Whether a character has a meaning of its own in a pattern.
pub open spec fn meta(c: char) -> bool {
    c == '\\' || c == '.' || c == '+' || c == '*' || c == '?' || c == '(' || c == ')' || c == '|' || c
        == '[' || c == ']' || c == '{' || c == '}' || c == '^' || c == '$' || c == '#' || c == '&'
        || c == '-' || c == '~'
}

/// A text with a backslash before each character that has a meaning of its own.
pub open spec fn escaped(s: Seq<char>) -> Seq<char>
    decreases s.len(),
{
    if s.len() == 0 {
        seq![]
    } else if meta(s.last()) {
        escaped(s.drop_last()).push('\\').push(s.last())
    } else {
        escaped(s.drop_last()).push(s.last())
    }
}

/// `regex::RegexBuilder::build`, with `case_insensitive` set as `ignore_case` says: nothing where
/// the pattern is taken, and the message of the error where it is refused. The result is only
/// named.
#[verifier::external_body]
pub(crate) fn pattern_error(pattern: &str, ignore_case: bool) -> (r: Option<String>)
    ensures
        opt_text(r) == regex_refusal(pattern@, ignore_case),
{
    let built = regex::RegexBuilder::new(pattern).case_insensitive(ignore_case).build();
    built.err().map(|error| error.to_string())
}

/// `regex::Regex::is_match` on a pattern that builds: whether the pattern is found anywhere in the
/// text. The result is only named, except that an escaped text is found exactly where the text
/// itself stands.
#[verifier::external_body]
fn pattern_found(pattern: &str, ignore_case: bool, text: &str) -> (r: bool)
    requires
        regex_refusal(pattern@, ignore_case) is None,
    ensures
        r == regex_found(pattern@, ignore_case, text@),
        forall|s: Seq<char>|
            #![trigger escaped(s)]
            pattern@ == escaped(s) && !ignore_case ==> r == holds(text@, s),
{
    let built = regex::RegexBuilder::new(pattern).case_insensitive(ignore_case).build();
    built.map_or(false, |found| found.is_match(text))
}

/// `regex::Regex::find_iter` on a pattern that builds: the pieces of the text that it matches, from
/// the left, none overlapping another. The result is only named.
#[verifier::external_body]
pub(crate) fn pattern_pieces(pattern: &str, ignore_case: bool, text: &str) -> (r: Vec<String>)
    requires
        regex_refusal(pattern@, ignore_case) is None,
    ensures
        texts(r@) == regex_pieces(pattern@, ignore_case, text@),
{
    let built = regex::RegexBuilder::new(pattern).case_insensitive(ignore_case).build();
    built.map_or(Vec::new(), |found| found.find_iter(text).map(|m| m.as_str().to_string()).collect())
}

/// `regex::escape`: a backslash before each character that has a meaning of its own in a pattern,
/// and every other character as it stands.
#[verifier::external_body]
pub(crate) fn escape(s: &str) -> (r: String)
    ensures
        r@ == escaped(s@),
{
    regex::escape(s)
}

// ---------------------------------------------------------------------------
// Finding a pattern
// ---------------------------------------------------------------------------

/// The text that an expression stands for where it is nothing but an escaped text.
pub open spec fn literal(p: Seq<char>) -> Option<Seq<char>>
    decreases p.len(),
{
    if p.len() == 0 {
        Some(seq![])
    } else if !meta(p.last()) {
        match literal(p.drop_last()) {
            Some(s) => Some(s.push(p.last())),
            None => None,
        }
    } else if p.len() >= 2 && p[p.len() - 2] == '\\' {
        match literal(p.take(p.len() - 2)) {
            Some(s) => Some(s.push(p.last())),
            None => None,
        }
    } else {
        None
    }
}

proof fn lemma_literal(p: Seq<char>)
    ensures
        literal(p) matches Some(s) ==> p == escaped(s),
    decreases p.len(),
{
    if p.len() > 0 {
        if !meta(p.last()) {
            lemma_literal(p.drop_last());
            if let Some(s) = literal(p.drop_last()) {
                assert(s.push(p.last()).drop_last() =~= s);
                assert(p =~= escaped(s).push(p.last()));
            }
        } else if p.len() >= 2 && p[p.len() - 2] == '\\' {
            lemma_literal(p.take(p.len() - 2));
            if let Some(s) = literal(p.take(p.len() - 2)) {
                assert(s.push(p.last()).drop_last() =~= s);
                assert(p =~= escaped(s).push('\\').push(p.last()));
            }
        }
    }
}

proof fn lemma_escaped_is_literal(s: Seq<char>)
    ensures
        literal(escaped(s)) == Some(s),
    decreases s.len(),
{
    if s.len() > 0 {
        let less = escaped(s.drop_last());
        lemma_escaped_is_literal(s.drop_last());
        assert(s =~= s.drop_last().push(s.last()));
        if meta(s.last()) {
            let p = less.push('\\').push(s.last());
            assert(p.take(p.len() - 2) =~= less);
        } else {
            let p = less.push(s.last());
            assert(p.drop_last() =~= less);
        }
    }
}

/// Whether a pattern is found in a text. One that is nothing but an escaped text is found where
/// that text stands; of any other the engine decides.
pub open spec fn found_in(pattern: Seq<char>, ignore_case: bool, text: Seq<char>) -> bool {
    match literal(pattern) {
        Some(s) => if ignore_case {
            regex_found(pattern, ignore_case, text)
        } else {
            holds(text, s)
        },
        None => regex_found(pattern, ignore_case, text),
    }
}

/// Whether a pattern is found in a text.
pub(crate) fn is_found(pattern: &str, ignore_case: bool, text: &str) -> (r: bool)
    requires
        regex_refusal(pattern@, ignore_case) is None,
    ensures
        r == found_in(pattern@, ignore_case, text@),
{
    proof {
        lemma_literal(pattern@);
    }
    pattern_found(pattern, ignore_case, text)
}

/// A plain text, escaped, is found exactly where it stands.
pub proof fn lemma_plain_text_is_found(s: Seq<char>, text: Seq<char>)
    ensures
        found_in(escaped(s), false, text) == holds(text, s),
{
    lemma_escaped_is_literal(s);
}

/// Of each line, whether a pattern is found in it.
pub open spec fn hits_of(pattern: Seq<char>, ignore_case: bool, lines: Seq<Seq<char>>) -> Seq<bool> {
    lines.map_values(|line: Seq<char>| found_in(pattern, ignore_case, line))
}

/// Of each line, whether a pattern is found in it.
pub(crate) fn find_hits(pattern: &str, ignore_case: bool, lines: &[String]) -> (r: Vec<bool>)
    requires
        regex_refusal(pattern@, ignore_case) is None,
    ensures
        r@ == hits_of(pattern@, ignore_case, texts(lines@)),
{
    let ghost all = texts(lines@);
    let mut hits: Vec<bool> = Vec::new();
    let mut i: usize = 0;
    while i < lines.len()
        invariant
            i <= lines@.len(),
            all == texts(lines@),
            regex_refusal(pattern@, ignore_case) is None,
            hits@ == hits_of(pattern@, ignore_case, all.take(i as int)),
        decreases lines@.len() - i,
    {
        assert(all.take(i + 1) =~= all.take(i as int).push(lines@[i as int]@));
        let hit = is_found(pattern, ignore_case, lines[i].as_str());
        hits.push(hit);
        assert(hits@ =~= hits_of(pattern@, ignore_case, all.take(i + 1)));
        i += 1;
    }
    assert(all.take(i as int) =~= all);
    hits
}

// ---------------------------------------------------------------------------
// Basic regular expressions
// ---------------------------------------------------------------------------

/// Whether a character is an operator in an extended expression and stands for itself in a basic
/// one.
pub open spec fn extended_operator(c: char) -> bool {
    c == '(' || c == ')' || c == '{' || c == '}' || c == '|' || c == '+' || c == '?'
}

fn is_extended_operator(c: char) -> (r: bool)
    ensures
        r == extended_operator(c),
{
    c == '(' || c == ')' || c == '{' || c == '}' || c == '|' || c == '+' || c == '?'
}

/// Where the bracket expression whose content starts at `i` ends: the index of its `]`.
pub open spec fn bracket_end(s: Seq<char>, i: int) -> Option<int>
    decreases s.len() - i,
{
    if i < 0 || i >= s.len() {
        None
    } else if s[i] == ']' {
        Some(i)
    } else {
        bracket_end(s, i + 1)
    }
}

/// Where the `]` of a bracket expression is looked for: a `^` and a `]` at its start are content.
pub open spec fn bracket_body(s: Seq<char>, open: int) -> int {
    let a = if open + 1 < s.len() && s[open + 1] == '^' {
        open + 2
    } else {
        open + 1
    };
    if a < s.len() && s[a] == ']' {
        a + 1
    } else {
        a
    }
}

/// The content of a bracket expression, a backslash standing for itself.
pub open spec fn bracket_text(s: Seq<char>, from: int, to: int) -> Seq<char>
    decreases to - from,
{
    if from >= to {
        seq![]
    } else if s[from] == '\\' {
        seq!['\\', '\\'] + bracket_text(s, from + 1, to)
    } else {
        seq![s[from]] + bracket_text(s, from + 1, to)
    }
}

/// The extended form of the basic expression `s[i..]`; `start` tells whether it stands at the start
/// of an expression, where `*` stands for itself.
pub open spec fn extended_from(s: Seq<char>, i: int, start: bool) -> Result<Seq<char>, Seq<char>>
    decreases s.len() - i,
{
    if i < 0 || i >= s.len() {
        Ok(seq![])
    } else {
        let (piece, next, opens) = extended_piece(s, i, start);
        match piece {
            Err(e) => Err(e),
            Ok(x) => if next <= i || next > s.len() {
                Err(seq![])
            } else {
                match extended_from(s, next, opens) {
                    Ok(rest) => Ok(x + rest),
                    Err(e) => Err(e),
                }
            },
        }
    }
}

/// The extended form of what stands at `i`, where it ends, and whether an expression starts behind
/// it.
pub open spec fn extended_piece(s: Seq<char>, i: int, start: bool) -> (
    Result<Seq<char>, Seq<char>>,
    int,
    bool,
) {
    let c = s[i];
    if c == '\\' {
        if i + 1 >= s.len() {
            (Err("trailing backslash"@), i + 1, false)
        } else {
            let d = s[i + 1];
            if '1' <= d <= '9' {
                (Err("back-references are not supported"@), i + 2, false)
            } else if d == '<' || d == '>' {
                (Ok("\\b"@), i + 2, false)
            } else if extended_operator(d) {
                (Ok(seq![d]), i + 2, d == '(' || d == '|')
            } else {
                (Ok(seq!['\\', d]), i + 2, false)
            }
        }
    } else if c == '[' {
        match bracket_end(s, bracket_body(s, i)) {
            None => (Err("unmatched ["@), i + 1, false),
            Some(e) => (Ok(seq!['['] + bracket_text(s, i + 1, e) + seq![']']), e + 1, false),
        }
    } else if extended_operator(c) || (c == '*' && start) {
        (Ok(seq!['\\', c]), i + 1, false)
    } else if c == '^' && !start {
        (Ok(seq!['\\', '^']), i + 1, false)
    } else {
        (Ok(seq![c]), i + 1, c == '^')
    }
}

/// The extended form of a basic expression.
pub open spec fn extended(s: Seq<char>) -> Result<Seq<char>, Seq<char>> {
    extended_from(s, 0, true)
}

/// What an expression that was rewritten says.
pub open spec fn extended_result(r: Result<String, String>) -> Result<Seq<char>, Seq<char>> {
    match r {
        Ok(x) => Ok(x@),
        Err(e) => Err(e@),
    }
}

fn find_bracket_end(cs: &[char], from: usize) -> (r: Option<usize>)
    requires
        from <= cs@.len(),
    ensures
        match r {
            Some(e) => bracket_end(cs@, from as int) == Some(e as int) && from <= e < cs@.len(),
            None => bracket_end(cs@, from as int) is None,
        },
{
    let mut i: usize = from;
    while i < cs.len()
        invariant
            from <= i <= cs@.len(),
            bracket_end(cs@, from as int) == bracket_end(cs@, i as int),
        decreases cs@.len() - i,
    {
        if cs[i] == ']' {
            return Some(i);
        }
        i += 1;
    }
    None
}

fn copy_bracket(cs: &[char], from: usize, to: usize) -> (r: String)
    requires
        from <= to <= cs@.len(),
    ensures
        r@ == bracket_text(cs@, from as int, to as int),
{
    let mut out = String::new();
    let ghost goal = bracket_text(cs@, from as int, to as int);
    let mut i: usize = from;
    assert(out@ + bracket_text(cs@, from as int, to as int) =~= goal);
    while i < to
        invariant
            from <= i <= to <= cs@.len(),
            out@ + bracket_text(cs@, i as int, to as int) == goal,
        decreases to - i,
    {
        let ghost was = out@;
        let ghost rest = bracket_text(cs@, i + 1, to as int);
        if cs[i] == '\\' {
            out.push('\\');
            out.push('\\');
            assert(out@ + rest =~= was + (seq!['\\', '\\'] + rest));
        } else {
            out.push(cs[i]);
            assert(out@ + rest =~= was + (seq![cs@[i as int]] + rest));
        }
        i += 1;
    }
    assert(out@ + Seq::<char>::empty() =~= out@);
    out
}

fn rewrite_piece(cs: &[char], i: usize, start: bool) -> (r: (Result<String, String>, usize, bool))
    requires
        i < cs@.len(),
    ensures
        (extended_result(r.0), r.1 as int, r.2) == extended_piece(cs@, i as int, start),
        r.0 is Ok ==> i < r.1 <= cs@.len(),
{
    let c = cs[i];
    let mut out = String::new();
    if c == '\\' {
        if i + 1 >= cs.len() {
            return (Err(copy_text("trailing backslash")), i + 1, false);
        }
        let d = cs[i + 1];
        if '1' <= d && d <= '9' {
            return (Err(copy_text("back-references are not supported")), i + 2, false);
        }
        if d == '<' || d == '>' {
            return (Ok(copy_text("\\b")), i + 2, false);
        }
        if is_extended_operator(d) {
            out.push(d);
            assert(out@ =~= seq![d]);
            return (Ok(out), i + 2, d == '(' || d == '|');
        }
        out.push('\\');
        out.push(d);
        assert(out@ =~= seq!['\\', d]);
        return (Ok(out), i + 2, false);
    }
    if c == '[' {
        let a: usize = if i + 1 < cs.len() && cs[i + 1] == '^' {
            i + 2
        } else {
            i + 1
        };
        let body: usize = if a < cs.len() && cs[a] == ']' {
            a + 1
        } else {
            a
        };
        return match find_bracket_end(cs, body) {
            None => (Err(copy_text("unmatched [")), i + 1, false),
            Some(e) => {
                out.push('[');
                let inner = copy_bracket(cs, i + 1, e);
                out.append(inner.as_str());
                out.push(']');
                assert(out@ =~= seq!['['] + inner@ + seq![']']);
                (Ok(out), e + 1, false)
            },
        };
    }
    if is_extended_operator(c) || (c == '*' && start) {
        out.push('\\');
        out.push(c);
        assert(out@ =~= seq!['\\', c]);
        return (Ok(out), i + 1, false);
    }
    if c == '^' && !start {
        out.push('\\');
        out.push('^');
        assert(out@ =~= seq!['\\', '^']);
        return (Ok(out), i + 1, false);
    }
    out.push(c);
    assert(out@ =~= seq![c]);
    (Ok(out), i + 1, c == '^')
}

/// Rewrites a basic regular expression in the extended form that the engine reads.
pub fn basic_to_extended(pattern: &str) -> (r: Result<String, String>)
    ensures
        extended_result(r) == extended(pattern@),
{
    let cs = chars_of(pattern);
    let ghost goal = extended(pattern@);
    let mut out = String::new();
    let mut i: usize = 0;
    let mut start = true;
    assert(goal == (match extended_from(cs@, 0, true) {
        Ok(rest) => Ok::<Seq<char>, Seq<char>>(out@ + rest),
        Err(e) => Err::<Seq<char>, Seq<char>>(e),
    })) by {
        if let Ok(rest) = extended_from(cs@, 0, true) {
            assert(out@ + rest =~= rest);
        }
    }
    while i < cs.len()
        invariant
            i <= cs@.len(),
            cs@ == pattern@,
            goal == extended(pattern@),
            goal == (match extended_from(cs@, i as int, start) {
                Ok(rest) => Ok::<Seq<char>, Seq<char>>(out@ + rest),
                Err(e) => Err::<Seq<char>, Seq<char>>(e),
            }),
        decreases cs@.len() - i,
    {
        let ghost was = out@;
        let (piece, next, opens) = rewrite_piece(cs.as_slice(), i, start);
        match piece {
            Err(e) => return Err(e),
            Ok(x) => {
                out.append(x.as_str());
                assert(goal == (match extended_from(cs@, next as int, opens) {
                    Ok(rest) => Ok::<Seq<char>, Seq<char>>(out@ + rest),
                    Err(e) => Err::<Seq<char>, Seq<char>>(e),
                })) by {
                    if let Ok(rest) = extended_from(cs@, next as int, opens) {
                        assert(was + (x@ + rest) =~= out@ + rest);
                    }
                }
            },
        }
        i = next;
        start = opens;
    }
    assert(out@ + Seq::<char>::empty() =~= out@);
    Ok(out)
}

} // verus!
