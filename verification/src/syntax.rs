//! Reading the options of a command into a record of what they ask for.

use vstd::prelude::*;

use crate::console::{printed, Done, Io, Screen};
use crate::flags::{expanded, in_range, needed_value, next_word, offered_value, Arg, Flags, Pass, Word};
use crate::system::{Machine, System};
use crate::text::{copy_text, lemma_texts_push, opt_text, starts, starts_with, texts};

verus! {

/// Whether an option takes a value.
#[derive(Clone, Copy, PartialEq, Eq, Structural)]
pub enum Want {
    /// Only what is written against it.
    Attached,
    /// What is written against it, or the next argument.
    Needed,
    /// What is written against it, or the next argument where that is no option.
    Offered,
}

/// The options of one command.
pub trait Syntax: View + Sized {
    /// Whether an option takes a value.
    spec fn wants(name: Seq<char>) -> Want;

    /// What is asked for once an option is read, or why the option is refused.
    spec fn with(asked: Self::V, name: Seq<char>, value: Option<Seq<char>>) -> Result<
        Self::V,
        Seq<char>,
    >;

    /// Whether an option takes a value.
    fn wanted(name: &str) -> (r: Want)
        ensures
            r == Self::wants(name@),
    ;

    /// Reads one option.
    fn apply(&mut self, name: &str, value: Option<String>) -> (r: Result<(), String>)
        ensures
            match r {
                Ok(()) => Self::with(old(self)@, name@, opt_text(value)) == Ok::<
                    Self::V,
                    Seq<char>,
                >(final(self)@),
                Err(e) => Self::with(old(self)@, name@, opt_text(value)) == Err::<
                    Self::V,
                    Seq<char>,
                >(e@),
            },
    ;
}

/// The value that an option gets, and where the pass then stands.
pub open spec fn value_for(want: Want, p: Pass, attached: Option<Seq<char>>) -> (
    Option<Seq<char>>,
    Pass,
) {
    match want {
        Want::Attached => (attached, p),
        Want::Needed => needed_value(p, attached),
        Want::Offered => offered_value(p, attached),
    }
}

/// What the arguments from where the pass stands ask for, and the operands among them, with what
/// was read before.
pub open spec fn words_read<S: Syntax>(p: Pass, asked: S::V, operands: Seq<Seq<char>>) -> Result<
    (S::V, Seq<Seq<char>>),
    Seq<char>,
>
    decreases p.args.len() - p.at,
{
    let (word, q) = next_word(p);
    match word {
        None => Ok((asked, operands)),
        Some(Word::Operand(value)) => words_read::<S>(q, asked, operands.push(value)),
        Some(Word::Option { name, attached }) => {
            let (value, after) = value_for(S::wants(name), q, attached);
            match S::with(asked, name, value) {
                Ok(more) => words_read::<S>(after, more, operands),
                Err(message) => Err(message),
            }
        },
    }
}

/// What reading the arguments gave.
pub open spec fn words_of<S: Syntax>(r: Result<(S, Vec<String>), String>) -> Result<
    (S::V, Seq<Seq<char>>),
    Seq<char>,
> {
    match r {
        Ok((asked, operands)) => Ok((asked@, texts(operands@))),
        Err(e) => Err(e@),
    }
}

/// Reads the arguments of a command: what they ask for, and the operands.
pub fn read_words<S: Syntax>(flags: Flags, start: S) -> (r: Result<(S, Vec<String>), String>)
    requires
        in_range(flags@),
    ensures
        words_of::<S>(r) == words_read::<S>(flags@, start@, seq![]),
{
    let mut pass = flags;
    let mut asked = start;
    let mut operands: Vec<String> = Vec::new();
    let ghost goal = words_read::<S>(pass@, asked@, seq![]);
    assert(texts(operands@) =~= seq![]);
    loop
        invariant
            in_range(pass@),
            goal == words_read::<S>(flags@, start@, seq![]),
            goal == words_read::<S>(pass@, asked@, texts(operands@)),
        decreases pass@.args.len() - pass@.at,
    {
        broadcast use lemma_texts_push;

        match pass.next() {
            None => return Ok((asked, operands)),
            Some(Arg::Operand(value)) => {
                operands.push(value);
            },
            Some(Arg::Option { name, attached }) => {
                let value = match S::wanted(name.as_str()) {
                    Want::Attached => attached,
                    Want::Needed => pass.value(attached),
                    Want::Offered => pass.optional_value(attached),
                };
                match asked.apply(name.as_str(), value) {
                    Ok(()) => {},
                    Err(e) => return Err(e),
                }
            },
        }
    }
}

/// What ends the reading of arguments before their end.
pub enum Halt {
    /// An option that is answered at once.
    Said(String),
    /// An option that is carried out at once.
    Act(String),
    /// An option that is refused.
    Wrong(String),
}

/// What ends the reading of arguments before their end.
pub enum Stop {
    Said(Seq<char>),
    Act(Seq<char>),
    Wrong(Seq<char>),
}

impl View for Halt {
    type V = Stop;

    open spec fn view(&self) -> Stop {
        match *self {
            Halt::Said(x) => Stop::Said(x@),
            Halt::Act(x) => Stop::Act(x@),
            Halt::Wrong(x) => Stop::Wrong(x@),
        }
    }
}

/// A command whose reading of arguments ended early. What is carried out is up to the command.
pub open spec fn stopped(m: Machine, s: Screen, e: Stop) -> Done {
    match e {
        Stop::Said(x) => Done { m, s: printed(s, x), status: 0 },
        Stop::Act(_) => Done { m, s, status: 0 },
        Stop::Wrong(x) => crate::console::misused(m, s, x),
    }
}

impl Halt {
    /// Says what ended the reading of arguments.
    pub fn report(&self, io: &mut Io) -> (r: i32)
        ensures
            forall|m: Machine|
                #![trigger stopped(m, old(io)@, self@)]
                stopped(m, old(io)@, self@) == (Done { m, s: final(io)@, status: r as int }),
    {
        match self {
            Halt::Said(x) => {
                io.print(x.as_str());
                0
            },
            Halt::Act(_) => 0,
            Halt::Wrong(x) => crate::console::usage(io, x.as_str()),
        }
    }
}

/// The options of a command some of which are answered at once.
pub trait Talk: View + Sized {
    /// Whether an option takes a value.
    spec fn wants(name: Seq<char>) -> Want;

    /// What is asked for once an option is read, or what ends the reading.
    spec fn with(m: Machine, root: Seq<char>, asked: Self::V, name: Seq<char>, value: Option<Seq<char>>) -> Result<
        Self::V,
        Stop,
    >;

    /// Whether an option takes a value.
    fn wanted(name: &str) -> (r: Want)
        ensures
            r == Self::wants(name@),
    ;

    /// Reads one option.
    fn apply(&mut self, system: &System, root: &str, name: &str, value: Option<String>) -> (r: Result<
        (),
        Halt,
    >)
        ensures
            match r {
                Ok(()) => Self::with(system@, root@, old(self)@, name@, opt_text(value)) == Ok::<
                    Self::V,
                    Stop,
                >(final(self)@),
                Err(e) => Self::with(system@, root@, old(self)@, name@, opt_text(value)) == Err::<
                    Self::V,
                    Stop,
                >(e@),
            },
    ;
}

/// What the arguments from where the pass stands ask for, and the operands among them, with what
/// was read before.
pub open spec fn talk_read<S: Talk>(
    m: Machine,
    root: Seq<char>,
    p: Pass,
    asked: S::V,
    operands: Seq<Seq<char>>,
) -> Result<(S::V, Seq<Seq<char>>), Stop>
    decreases p.args.len() - p.at,
{
    let (word, q) = next_word(p);
    match word {
        None => Ok((asked, operands)),
        Some(Word::Operand(value)) => talk_read::<S>(m, root, q, asked, operands.push(value)),
        Some(Word::Option { name, attached }) => {
            let (value, after) = value_for(S::wants(name), q, attached);
            match S::with(m, root, asked, name, value) {
                Ok(more) => talk_read::<S>(m, root, after, more, operands),
                Err(e) => Err(e),
            }
        },
    }
}

/// What reading the arguments gave.
pub open spec fn talk_of<S: Talk>(r: Result<(S, Vec<String>), Halt>) -> Result<
    (S::V, Seq<Seq<char>>),
    Stop,
> {
    match r {
        Ok((asked, operands)) => Ok((asked@, texts(operands@))),
        Err(e) => Err(e@),
    }
}

/// Reads the arguments of a command some of whose options are answered at once.
pub fn read_talk<S: Talk>(system: &System, root: &str, flags: Flags, start: S) -> (r: Result<
    (S, Vec<String>),
    Halt,
>)
    requires
        in_range(flags@),
    ensures
        talk_of::<S>(r) == talk_read::<S>(system@, root@, flags@, start@, seq![]),
{
    let mut pass = flags;
    let mut asked = start;
    let mut operands: Vec<String> = Vec::new();
    let ghost goal = talk_read::<S>(system@, root@, pass@, asked@, seq![]);
    assert(texts(operands@) =~= seq![]);
    loop
        invariant
            in_range(pass@),
            goal == talk_read::<S>(system@, root@, flags@, start@, seq![]),
            goal == talk_read::<S>(system@, root@, pass@, asked@, texts(operands@)),
        decreases pass@.args.len() - pass@.at,
    {
        broadcast use lemma_texts_push;

        match pass.next() {
            None => return Ok((asked, operands)),
            Some(Arg::Operand(value)) => {
                operands.push(value);
            },
            Some(Arg::Option { name, attached }) => {
                let value = match S::wanted(name.as_str()) {
                    Want::Attached => attached,
                    Want::Needed => pass.value(attached),
                    Want::Offered => pass.optional_value(attached),
                };
                match asked.apply(system, root, name.as_str(), value) {
                    Ok(()) => {},
                    Err(e) => return Err(e),
                }
            },
        }
    }
}

/// The options of a command none of which takes a value.
pub trait Marks: View + Sized {
    /// What is asked for once an option is read. Nothing where there is no such option.
    spec fn marked(asked: Self::V, option: Seq<char>) -> Option<Self::V>;

    /// Reads one option, and says whether there is such an option.
    fn mark(&mut self, option: &str) -> (r: bool)
        ensures
            r ==> Self::marked(old(self)@, option@) == Some(final(self)@),
            !r ==> Self::marked(old(self)@, option@) is None && final(self)@ == old(self)@,
    ;
}

/// What the arguments from `i` on ask for, and the operands among them, with what was read before;
/// or the option that is unknown.
pub open spec fn marks_read<S: Marks>(
    args: Seq<Seq<char>>,
    asked: S::V,
    operands: Seq<Seq<char>>,
    i: int,
) -> Result<(S::V, Seq<Seq<char>>), Seq<char>>
    decreases args.len() - i,
{
    if i < 0 || i >= args.len() {
        Ok((asked, operands))
    } else {
        match S::marked(asked, args[i]) {
            Some(more) => marks_read::<S>(args, more, operands, i + 1),
            None => if starts(args[i], "-"@) {
                Err(args[i])
            } else {
                marks_read::<S>(args, asked, operands.push(args[i]), i + 1)
            },
        }
    }
}

/// What reading the arguments gave.
pub open spec fn marks_of<S: Marks>(r: Result<(S, Vec<String>), String>) -> Result<
    (S::V, Seq<Seq<char>>),
    Seq<char>,
> {
    match r {
        Ok((asked, operands)) => Ok((asked@, texts(operands@))),
        Err(e) => Err(e@),
    }
}

/// Reads the arguments of a command none of whose options takes a value.
pub fn read_marks<S: Marks>(args: &[String], start: S) -> (r: Result<(S, Vec<String>), String>)
    ensures
        marks_of::<S>(r) == marks_read::<S>(texts(args@), start@, seq![], 0),
{
    let ghost all = texts(args@);
    let mut asked = start;
    let mut operands: Vec<String> = Vec::new();
    let mut i: usize = 0;
    let ghost goal = marks_read::<S>(all, start@, seq![], 0);
    assert(texts(operands@) =~= seq![]);
    while i < args.len()
        invariant
            i <= args@.len(),
            all == texts(args@),
            goal == marks_read::<S>(all, start@, seq![], 0),
            goal == marks_read::<S>(all, asked@, texts(operands@), i as int),
        decreases args@.len() - i,
    {
        broadcast use lemma_texts_push;

        assert(all.len() == args@.len());
        assert(all[i as int] == args@[i as int]@);
        if !asked.mark(args[i].as_str()) {
            if starts_with(args[i].as_str(), "-") {
                return Err(copy_text(args[i].as_str()));
            }
            operands.push(copy_text(args[i].as_str()));
        }
        i += 1;
    }
    assert(all.len() == args@.len());
    Ok((asked, operands))
}

/// A pass over the arguments of a command: `letters` may be written as one cluster, and those of
/// `valued` may carry their value.
pub open spec fn pass_for(args: Seq<Seq<char>>, letters: Seq<char>, valued: Seq<char>) -> Pass {
    Pass { args: expanded(args, letters), at: 0, operands_only: false, valued }
}

/// A pass over the arguments of a command.
pub fn flags_for(args: &[String], letters: &str, valued: &str) -> (r: Flags)
    ensures
        r@ == pass_for(texts(args@), letters@, valued@),
        in_range(r@),
{
    Flags::new(args).clustered(letters).valued(valued)
}

} // verus!
