//! Reading a command line.
//!
//! The value of an option may be written in four ways, `-n5`, `-n 5`, `--max-count=5` and
//! `--max-count 5`. [`Flags`] reads all four, splits short clusters, and takes nothing for an
//! option after `--`, so that each command is left with a plain match on a name.

use vstd::prelude::*;

use crate::text::{
    after_prefix, chars_of, copy_text, copy_texts, cut, cut_once, join2, lemma_texts_push, opt_text, same, split_once,
    starts, starts_with, strip_prefix, texts,
};

verus! {

/// One argument, as the command that asked for it sees it.
#[derive(Debug, PartialEq)]
pub enum Arg {
    /// An option, together with a value written against it: `--name=x` or `-nx`.
    Option { name: String, attached: Option<String> },
    /// Anything else.
    Operand(String),
}

/// What an argument holds.
pub enum Word {
    Option { name: Seq<char>, attached: Option<Seq<char>> },
    Operand(Seq<char>),
}

impl View for Arg {
    type V = Word;

    open spec fn view(&self) -> Word {
        match *self {
            Arg::Option { name, attached } => Word::Option {
                name: name@,
                attached: opt_text(attached),
            },
            Arg::Operand(value) => Word::Operand(value@),
        }
    }
}

/// One pass over the arguments of a command.
pub struct Flags {
    args: Vec<String>,
    at: usize,
    /// Set once `--` is seen: everything after it is an operand, whatever it looks like.
    operands_only: bool,
    /// Short options that may carry their value written against them.
    valued: String,
}

/// Where a pass over the arguments stands.
#[verifier::ext_equal]
pub struct Pass {
    pub args: Seq<Seq<char>>,
    pub at: int,
    pub operands_only: bool,
    pub valued: Seq<char>,
}

impl View for Flags {
    type V = Pass;

    closed spec fn view(&self) -> Pass {
        Pass {
            args: texts(self.args@),
            at: self.at as int,
            operands_only: self.operands_only,
            valued: self.valued@,
        }
    }
}

/// A pass that starts at the first argument.
pub open spec fn pass_over(args: Seq<Seq<char>>) -> Pass {
    Pass { args, at: 0, operands_only: false, valued: ""@ }
}

/// Whether every character of `s[from..]` stands in `letters`.
pub open spec fn all_within(s: Seq<char>, from: int, letters: Seq<char>) -> bool {
    forall|i: int| from <= i < s.len() ==> letters.contains(#[trigger] s[i])
}

/// Whether an argument is a cluster of the given short options.
pub open spec fn is_cluster(argument: Seq<char>, letters: Seq<char>) -> bool {
    argument.len() > 2 && argument[0] == '-' && argument[1] != '-' && all_within(
        argument,
        1,
        letters,
    )
}

/// The short options of the cluster `argument[from..]`, each on its own.
pub open spec fn cluster_options(argument: Seq<char>, from: int) -> Seq<Seq<char>>
    decreases argument.len() - from,
{
    if from < 0 || from >= argument.len() {
        seq![]
    } else {
        seq![seq!['-', argument[from]]] + cluster_options(argument, from + 1)
    }
}

/// The arguments with their clusters split, up to a `--`.
pub open spec fn expanded(args: Seq<Seq<char>>, letters: Seq<char>) -> Seq<Seq<char>>
    decreases args.len(),
{
    if args.len() == 0 || args[0] == "--"@ {
        args
    } else {
        let rest = expanded(args.subrange(1, args.len() as int), letters);
        if is_cluster(args[0], letters) {
            cluster_options(args[0], 1) + rest
        } else {
            seq![args[0]] + rest
        }
    }
}

proof fn lemma_cluster_length(argument: Seq<char>, from: int)
    requires
        0 <= from <= argument.len(),
    ensures
        cluster_options(argument, from).len() == argument.len() - from,
    decreases argument.len() - from,
{
    if from < argument.len() {
        lemma_cluster_length(argument, from + 1);
    }
}

proof fn lemma_expanded_length(args: Seq<Seq<char>>, letters: Seq<char>)
    ensures
        expanded(args, letters).len() >= args.len(),
    decreases args.len(),
{
    if args.len() > 0 && args[0] != "--"@ {
        lemma_expanded_length(args.subrange(1, args.len() as int), letters);
        if is_cluster(args[0], letters) {
            lemma_cluster_length(args[0], 1);
        }
    }
}

/// How one argument reads that is neither `--` nor behind it.
pub open spec fn word_of(argument: Seq<char>, valued: Seq<char>) -> Word {
    if argument == "-"@ || !starts(argument, "-"@) {
        Word::Operand(argument)
    } else {
        match after_prefix(argument, "--"@) {
            Some(long) => match cut_once(long, '=') {
                Some((name, value)) => Word::Option { name: "--"@ + name, attached: Some(value) },
                None => Word::Option { name: argument, attached: None },
            },
            None => if argument.len() > 2 && valued.contains(argument[1]) {
                Word::Option {
                    name: seq!['-', argument[1]],
                    attached: Some(argument.subrange(2, argument.len() as int)),
                }
            } else {
                Word::Option { name: argument, attached: None }
            },
        }
    }
}

/// What the next argument reads as, and where the pass then stands.
pub open spec fn next_word(p: Pass) -> (Option<Word>, Pass) {
    if p.at >= p.args.len() {
        (None, p)
    } else if p.operands_only {
        (Some(Word::Operand(p.args[p.at])), Pass { at: p.at + 1, ..p })
    } else if p.args[p.at] == "--"@ {
        let q = Pass { at: p.at + 1, operands_only: true, ..p };
        if q.at >= q.args.len() {
            (None, q)
        } else {
            (Some(Word::Operand(q.args[q.at])), Pass { at: q.at + 1, ..q })
        }
    } else {
        (Some(word_of(p.args[p.at], p.valued)), Pass { at: p.at + 1, ..p })
    }
}

/// The value of an option that needs one: what is written against it, or the next argument.
pub open spec fn needed_value(p: Pass, attached: Option<Seq<char>>) -> (Option<Seq<char>>, Pass) {
    if attached is Some {
        (attached, p)
    } else if p.at >= p.args.len() {
        (None, p)
    } else {
        (Some(p.args[p.at]), Pass { at: p.at + 1, ..p })
    }
}

/// The value of an option that may go without: what is written against it, or the next argument
/// where that is no option.
pub open spec fn offered_value(p: Pass, attached: Option<Seq<char>>) -> (Option<Seq<char>>, Pass) {
    if attached is Some {
        (attached, p)
    } else if p.at >= p.args.len() || starts(p.args[p.at], "-"@) {
        (None, p)
    } else {
        (Some(p.args[p.at]), Pass { at: p.at + 1, ..p })
    }
}

fn letters_hold(letters: &[char], c: char) -> (r: bool)
    ensures
        r == letters@.contains(c),
{
    let mut i: usize = 0;
    while i < letters.len()
        invariant
            i <= letters.len(),
            forall|k: int| 0 <= k < i ==> #[trigger] letters@[k] != c,
        decreases letters.len() - i,
    {
        if letters[i] == c {
            assert(letters@[i as int] == c);
            return true;
        }
        i += 1;
    }
    false
}

fn is_cluster_of(argument: &[char], letters: &[char]) -> (r: bool)
    ensures
        r == is_cluster(argument@, letters@),
{
    if argument.len() <= 2 || argument[0] != '-' || argument[1] == '-' {
        return false;
    }
    let mut i: usize = 1;
    while i < argument.len()
        invariant
            1 <= i <= argument.len(),
            forall|k: int| 1 <= k < i ==> letters@.contains(#[trigger] argument@[k]),
        decreases argument.len() - i,
    {
        if !letters_hold(letters, argument[i]) {
            assert(!letters@.contains(argument@[i as int]));
            return false;
        }
        i += 1;
    }
    true
}

fn short_option(c: char) -> (r: String)
    ensures
        r@ == seq!['-', c],
{
    let mut out = String::new();
    out.push('-');
    out.push(c);
    assert(out@ =~= seq!['-', c]);
    out
}

/// Splits clusters of short options such as `-am` into `-a -m`.
///
/// Only clusters made of the given letters are split, so that spellings with a value against
/// them stay whole. Everything after `--` is left alone.
pub fn expand_clusters(args: &[String], clusterable: &str) -> (r: Vec<String>)
    ensures
        texts(r@) == expanded(texts(args@), clusterable@),
{
    let letters = chars_of(clusterable);
    let ghost all = texts(args@);
    let mut out: Vec<String> = Vec::new();
    let mut i: usize = 0;
    let mut split = true;
    assert(all.subrange(0, all.len() as int) =~= all);
    assert(texts(out@) + expanded(all, clusterable@) =~= expanded(all, clusterable@));
    while i < args.len()
        invariant
            i <= args.len(),
            all == texts(args@),
            letters@ == clusterable@,
            texts(out@) + (if split {
                expanded(all.subrange(i as int, all.len() as int), clusterable@)
            } else {
                all.subrange(i as int, all.len() as int)
            }) == expanded(all, clusterable@),
        decreases args.len() - i,
    {
        broadcast use lemma_texts_push;

        let ghost rest = all.subrange(i as int, all.len() as int);
        let ghost tail = all.subrange(i + 1, all.len() as int);
        assert(rest[0] == args@[i as int]@);
        assert(rest.subrange(1, rest.len() as int) =~= tail);
        assert(rest =~= seq![rest[0]] + tail);
        let ghost was = texts(out@);
        if split && same(args[i].as_str(), "--") {
            split = false;
        }
        let cs = chars_of(args[i].as_str());
        if split && is_cluster_of(cs.as_slice(), letters.as_slice()) {
            let ghost more = expanded(tail, clusterable@);
            let mut k: usize = 1;
            while k < cs.len()
                invariant
                    1 <= k <= cs.len(),
                    texts(out@) + (cluster_options(cs@, k as int) + more) == was + (cluster_options(
                        cs@,
                        1,
                    ) + more),
                decreases cs.len() - k,
            {
                broadcast use lemma_texts_push;

                let ghost so_far = texts(out@);
                let option = short_option(cs[k]);
                out.push(option);
                assert(so_far + (seq![option@] + cluster_options(cs@, k + 1) + more)
                    =~= so_far.push(option@) + (cluster_options(cs@, k + 1) + more));
                k += 1;
            }
            assert(cluster_options(cs@, k as int) + more =~= more);
        } else {
            out.push(copy_text(args[i].as_str()));
            let ghost more = if split {
                expanded(tail, clusterable@)
            } else {
                tail
            };
            assert(was + (seq![rest[0]] + more) =~= was.push(rest[0]) + more);
        }
        i += 1;
    }
    assert(all.subrange(i as int, all.len() as int) =~= seq![]);
    assert(texts(out@) + seq![] =~= texts(out@));
    out
}

/// How one argument reads.
fn read_word(argument: String, valued: &str) -> (r: Arg)
    ensures
        r@ == word_of(argument@, valued@),
{
    if same(argument.as_str(), "-") || !starts_with(argument.as_str(), "-") {
        return Arg::Operand(argument);
    }
    match strip_prefix(argument.as_str(), "--") {
        Some(long) => match split_once(long.as_str(), '=') {
            Some((name, value)) => Arg::Option {
                name: join2("--", name.as_str()),
                attached: Some(value),
            },
            None => Arg::Option { name: argument, attached: None },
        },
        None => {
            let cs = chars_of(argument.as_str());
            let letters = chars_of(valued);
            if cs.len() > 2 && letters_hold(letters.as_slice(), cs[1]) {
                Arg::Option {
                    name: short_option(cs[1]),
                    attached: Some(cut(cs.as_slice(), 2, cs.len())),
                }
            } else {
                Arg::Option { name: argument, attached: None }
            }
        },
    }
}

/// The pass behind `p` in the order of reading.
pub open spec fn in_range(p: Pass) -> bool {
    0 <= p.at <= p.args.len()
}

impl Flags {
    /// A pass over the arguments, from the first one on.
    pub fn new(args: &[String]) -> (r: Self)
        ensures
            r@ == pass_over(texts(args@)),
            in_range(r@),
    {
        Flags { args: copy_texts(args), at: 0, operands_only: false, valued: copy_text("") }
    }

    /// Declares the short options that may be written as one cluster, as `-am` is.
    pub fn clustered(self, letters: &str) -> (r: Self)
        ensures
            r@ == (Pass { args: expanded(self@.args, letters@), ..self@ }),
            in_range(self@) ==> in_range(r@),
    {
        proof {
            lemma_expanded_length(self@.args, letters@);
        }
        Flags {
            args: expand_clusters(self.args.as_slice(), letters),
            at: self.at,
            operands_only: self.operands_only,
            valued: self.valued,
        }
    }

    /// Declares the short options that may carry their value, so that `-n5` reads as `-n` with `5`.
    pub fn valued(self, letters: &str) -> (r: Self)
        ensures
            r@ == (Pass { valued: letters@, ..self@ }),
            in_range(self@) ==> in_range(r@),
    {
        Flags {
            args: self.args,
            at: self.at,
            operands_only: self.operands_only,
            valued: copy_text(letters),
        }
    }

    /// Whether what is read now came after `--`.
    pub fn separated(&self) -> (r: bool)
        ensures
            r == self@.operands_only,
    {
        self.operands_only
    }

    /// The next argument.
    pub fn next(&mut self) -> (r: Option<Arg>)
        requires
            in_range(old(self)@),
        ensures
            ({
                let (word, after) = next_word(old(self)@);
                &&& final(self)@ == after
                &&& in_range(after)
                &&& match r {
                    Some(a) => word == Some(a@),
                    None => word is None,
                }
            }),
    {
        if self.at >= self.args.len() {
            return None;
        }
        if !self.operands_only && same(self.args[self.at].as_str(), "--") {
            self.at += 1;
            self.operands_only = true;
            if self.at >= self.args.len() {
                return None;
            }
        }
        let argument = copy_text(self.args[self.at].as_str());
        self.at += 1;
        if self.operands_only {
            Some(Arg::Operand(argument))
        } else {
            Some(read_word(argument, self.valued.as_str()))
        }
    }

    /// The value written against an option, or else the argument that follows it.
    pub fn value(&mut self, attached: Option<String>) -> (r: Option<String>)
        requires
            in_range(old(self)@),
        ensures
            (opt_text(r), final(self)@) == needed_value(old(self)@, opt_text(attached)),
            in_range(final(self)@),
    {
        if attached.is_some() {
            return attached;
        }
        if self.at >= self.args.len() {
            return None;
        }
        let value = copy_text(self.args[self.at].as_str());
        self.at += 1;
        Some(value)
    }

    /// The value written against an option, or the argument that follows where that is no option.
    pub fn optional_value(&mut self, attached: Option<String>) -> (r: Option<String>)
        requires
            in_range(old(self)@),
        ensures
            (opt_text(r), final(self)@) == offered_value(old(self)@, opt_text(attached)),
            in_range(final(self)@),
    {
        if attached.is_some() {
            return attached;
        }
        if self.at >= self.args.len() || starts_with(self.args[self.at].as_str(), "-") {
            return None;
        }
        let value = copy_text(self.args[self.at].as_str());
        self.at += 1;
        Some(value)
    }

    /// Everything that is left, as operands.
    pub fn rest(&mut self) -> (r: Vec<String>)
        requires
            in_range(old(self)@),
        ensures
            texts(r@) == old(self)@.args.subrange(old(self)@.at, old(self)@.args.len() as int),
            final(self)@ == (Pass { at: old(self)@.args.len() as int, ..old(self)@ }),
            in_range(final(self)@),
    {
        let left = vstd::slice::slice_subrange(self.args.as_slice(), self.at, self.args.len());
        let out = copy_texts(left);
        assert(texts(left@) =~= self@.args.subrange(self@.at, self@.args.len() as int));
        self.at = self.args.len();
        out
    }
}

// ---------------------------------------------------------------------------
// What the reading keeps
// ---------------------------------------------------------------------------

/// Everything from a `--` on is left as it stands when clusters are split.
pub proof fn lemma_operands_stay(
    front: Seq<Seq<char>>,
    operands: Seq<Seq<char>>,
    letters: Seq<char>,
)
    ensures
        ({
            let tail = seq!["--"@] + operands;
            let whole = expanded(front + tail, letters);
            whole.len() >= tail.len() && whole.subrange(
                whole.len() - tail.len(),
                whole.len() as int,
            ) == tail
        }),
    decreases front.len(),
{
    let tail = seq!["--"@] + operands;
    let args = front + tail;
    let whole = expanded(args, letters);
    if front.len() == 0 {
        assert(args =~= tail);
        assert(whole.subrange(0, whole.len() as int) =~= tail);
    } else if front[0] == "--"@ {
        assert(args[0] == front[0]);
        assert(whole.subrange(front.len() as int, whole.len() as int) =~= tail);
    } else {
        let rest = front.subrange(1, front.len() as int);
        lemma_operands_stay(rest, operands, letters);
        assert(args[0] == front[0]);
        assert(args.subrange(1, args.len() as int) =~= rest + tail);
        let inner = expanded(rest + tail, letters);
        let head = if is_cluster(args[0], letters) {
            cluster_options(args[0], 1)
        } else {
            seq![args[0]]
        };
        assert(whole == head + inner);
        assert(whole.subrange(whole.len() - tail.len(), whole.len() as int) =~= inner.subrange(
            inner.len() - tail.len(),
            inner.len() as int,
        ));
    }
}

/// After a `--` everything reads as an operand, whatever it looks like.
pub proof fn lemma_separated_operands(p: Pass)
    requires
        in_range(p),
        p.operands_only,
        p.at < p.args.len(),
    ensures
        next_word(p).0 == Some(Word::Operand(p.args[p.at])),
        next_word(p).1.operands_only,
{
}

/// The four spellings of a value read the same: the value comes back from `-nV`, from `-n V`,
/// from `--name=V` and from `--name V`.
pub proof fn lemma_four_spellings(letter: char, name: Seq<char>, value: Seq<char>, valued: Seq<char>)
    requires
        valued.contains(letter),
        letter != '-',
        value.len() > 0,
        crate::text::index_from(name, '=', 0) is None,
        name.len() > 0,
    ensures
        ({
            let reads = |args: Seq<Seq<char>>|
                {
                    let (word, after) = next_word(Pass { args, at: 0, operands_only: false, valued });
                    match word {
                        Some(Word::Option { attached, .. }) => needed_value(after, attached).0,
                        _ => None,
                    }
                };
            &&& reads(seq![seq!['-', letter] + value]) == Some(value)
            &&& reads(seq![seq!['-', letter], value]) == Some(value)
            &&& reads(seq!["--"@ + name + seq!['='] + value]) == Some(value)
            &&& reads(seq!["--"@ + name, value]) == Some(value)
        }),
{
    reveal_strlit("-");
    reveal_strlit("--");
    // `-nV`
    let a = seq!['-', letter] + value;
    assert(a[1] == letter);
    assert(a.subrange(0, 1) =~= "-"@);
    assert(a.subrange(0, 2)[1] == letter);
    assert(a.subrange(2, a.len() as int) =~= value);
    assert(a != "--"@) by {
        assert(a[1] != "--"@[1]);
    }
    // `-n V`
    let b = seq!['-', letter];
    assert(b.subrange(0, 1) =~= "-"@);
    assert(b.subrange(0, 2)[1] == letter);
    assert(b[1] != "--"@[1]);
    // `--name=V`
    let c = "--"@ + name + seq!['='] + value;
    let long = name + seq!['='] + value;
    assert(c.subrange(0, 1) =~= "-"@);
    assert(c.subrange(0, 2) =~= "--"@);
    assert(c.subrange(2, c.len() as int) =~= long);
    crate::text::lemma_index_from(name, '=', 0);
    crate::text::lemma_index_from(long, '=', 0);
    assert(long[name.len() as int] == '=');
    assert forall|i: int| 0 <= i < name.len() implies long[i] != '=' by {
        assert(long[i] == name[i]);
    }
    assert(crate::text::index_from(long, '=', 0) == Some(name.len() as int));
    assert(long.subrange(name.len() as int + 1, long.len() as int) =~= value);
    // `--name V`
    let d = "--"@ + name;
    assert(d.subrange(0, 1) =~= "-"@);
    assert(d.subrange(0, 2) =~= "--"@);
    assert(d.subrange(2, d.len() as int) =~= name);
}

} // verus!
