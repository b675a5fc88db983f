//! What a command reads and prints, and the messages that all commands share.

use vstd::prelude::*;
use vstd::utf8::encode_utf8;

use crate::system::{refusal_text, FileError, Machine, Refusal};
use crate::text::{join2, join3, join4, starts, starts_with};

verus! {

/// The input and output of one command.
pub struct Io {
    pub stdin: Vec<u8>,
    pub out: Vec<u8>,
    pub err: Vec<u8>,
}

/// What the input and output hold.
#[verifier::ext_equal]
pub struct Screen {
    pub stdin: Seq<u8>,
    pub out: Seq<u8>,
    pub err: Seq<u8>,
}

impl View for Io {
    type V = Screen;

    open spec fn view(&self) -> Screen {
        Screen { stdin: self.stdin@, out: self.out@, err: self.err@ }
    }
}

/// Text printed on standard output.
pub open spec fn printed(s: Screen, text: Seq<char>) -> Screen {
    Screen { out: s.out + encode_utf8(text), ..s }
}

/// Text printed on standard error.
pub open spec fn complained(s: Screen, text: Seq<char>) -> Screen {
    Screen { err: s.err + encode_utf8(text), ..s }
}

impl Io {
    /// Empty input and output.
    pub fn new() -> (r: Self)
        ensures
            r@ == (Screen { stdin: seq![], out: seq![], err: seq![] }),
    {
        let r = Io { stdin: Vec::new(), out: Vec::new(), err: Vec::new() };
        assert(r@ =~= (Screen { stdin: seq![], out: seq![], err: seq![] }));
        r
    }

    /// Prints text on standard output.
    pub fn print(&mut self, text: &str)
        ensures
            final(self)@ == printed(old(self)@, text@),
    {
        let mut more = crate::bytes::bytes_of(text);
        self.out.append(&mut more);
    }

    /// Prints bytes on standard output.
    pub fn print_bytes(&mut self, bytes: &[u8])
        ensures
            final(self)@ == (Screen { out: old(self)@.out + bytes@, ..old(self)@ }),
    {
        let mut more = crate::text::copy_bytes(bytes);
        self.out.append(&mut more);
    }

    /// Prints text on standard error.
    pub fn print_err(&mut self, text: &str)
        ensures
            final(self)@ == complained(old(self)@, text@),
    {
        let mut more = crate::bytes::bytes_of(text);
        self.err.append(&mut more);
    }
}

/// How a command ended: the machine and the screen after it, and its status.
#[verifier::ext_equal]
pub struct Done {
    pub m: Machine,
    pub s: Screen,
    pub status: int,
}

/// The line of a usage message.
pub open spec fn usage_line(message: Seq<char>) -> Seq<char> {
    if starts(message, "usage:"@) {
        message + "\n"@
    } else {
        "error: "@ + message + "\n"@
    }
}

/// A command that could not make sense of its arguments.
pub open spec fn misused(m: Machine, s: Screen, message: Seq<char>) -> Done {
    Done { m, s: complained(s, usage_line(message)), status: 129 }
}

/// Reports arguments that make no sense. Messages that read as a synopsis are printed as they
/// stand.
pub fn usage(io: &mut Io, message: &str) -> (r: i32)
    ensures
        r == 129,
        final(io)@ == complained(old(io)@, usage_line(message@)),
{
    let line = if starts_with(message, "usage:") {
        join2(message, "\n")
    } else {
        join3("error: ", message, "\n")
    };
    io.print_err(line.as_str());
    129
}

/// The line of a fatal message.
pub open spec fn fatal_line(message: Seq<char>) -> Seq<char> {
    "fatal: "@ + message + "\n"@
}

/// A command that could not be carried out.
pub open spec fn failed(m: Machine, s: Screen, message: Seq<char>) -> Done {
    Done { m, s: complained(s, fatal_line(message)), status: 128 }
}

/// Reports a command that could not be carried out.
pub fn fatal(io: &mut Io, message: &str) -> (r: i32)
    ensures
        r == 128,
        final(io)@ == complained(old(io)@, fatal_line(message@)),
{
    io.print_err(join3("fatal: ", message, "\n").as_str());
    128
}

/// The message about a write that could not be made.
pub open spec fn write_message(what: Seq<char>, error: Refusal) -> Seq<char> {
    "unable to write "@ + what + ": "@ + refusal_text(error)
}

/// Reports a write that could not be made, naming what it was for.
pub fn cannot_write(io: &mut Io, what: &str, error: &FileError) -> (r: i32)
    ensures
        r == 128,
        final(io)@ == complained(old(io)@, fatal_line(write_message(what@, error@))),
{
    let message = join4("unable to write ", what, ": ", error.message().as_str());
    fatal(io, message.as_str())
}

/// The message outside any repository.
pub open spec fn no_repo_line() -> Seq<char> {
    "fatal: not a git repository (or any parent up to mount point /)\nStopping at filesystem boundary (GIT_DISCOVERY_ACROSS_FILESYSTEM not set).\n"@
}

/// A command outside any repository.
pub open spec fn no_repo(m: Machine, s: Screen) -> Done {
    Done { m, s: complained(s, no_repo_line()), status: 128 }
}

/// Reports that there is no repository.
pub fn repo_error(io: &mut Io) -> (r: i32)
    ensures
        r == 128,
        final(io)@ == complained(old(io)@, no_repo_line()),
{
    io.print_err(
        "fatal: not a git repository (or any parent up to mount point /)\nStopping at filesystem boundary (GIT_DISCOVERY_ACROSS_FILESYSTEM not set).\n",
    );
    128
}

/// The message about an operand that is neither a revision nor a path.
pub open spec fn ambiguous_line(value: Seq<char>) -> Seq<char> {
    "fatal: ambiguous argument '"@ + value
        + "': unknown revision or path not in the working tree.\nUse '--' to separate paths from revisions, like this:\n'git <command> [<revision>...] -- [<file>...]'\n"@
}

/// A command with an operand that is neither a revision nor a path.
pub open spec fn ambiguous(m: Machine, s: Screen, value: Seq<char>) -> Done {
    Done { m, s: complained(s, ambiguous_line(value)), status: 128 }
}

/// Reports an operand that is neither a revision nor a path.
pub fn ambiguous_argument(io: &mut Io, value: &str) -> (r: i32)
    ensures
        r == 128,
        final(io)@ == complained(old(io)@, ambiguous_line(value@)),
{
    io.print_err(
        join3(
            "fatal: ambiguous argument '",
            value,
            "': unknown revision or path not in the working tree.\nUse '--' to separate paths from revisions, like this:\n'git <command> [<revision>...] -- [<file>...]'\n",
        ).as_str(),
    );
    128
}

/// Why a command stops before it does anything.
pub enum Complaint {
    Usage(String),
    Fatal(String),
    Ambiguous(String),
}

/// What a complaint says.
pub enum Objection {
    Usage(Seq<char>),
    Fatal(Seq<char>),
    Ambiguous(Seq<char>),
}

impl View for Complaint {
    type V = Objection;

    open spec fn view(&self) -> Objection {
        match *self {
            Complaint::Usage(x) => Objection::Usage(x@),
            Complaint::Fatal(x) => Objection::Fatal(x@),
            Complaint::Ambiguous(x) => Objection::Ambiguous(x@),
        }
    }
}

/// A command that stops with a complaint.
pub open spec fn objected(m: Machine, s: Screen, o: Objection) -> Done {
    match o {
        Objection::Usage(x) => misused(m, s, x),
        Objection::Fatal(x) => failed(m, s, x),
        Objection::Ambiguous(x) => ambiguous(m, s, x),
    }
}

impl Complaint {
    /// Reports the complaint.
    pub fn report(&self, io: &mut Io) -> (r: i32)
        ensures
            forall|m: Machine|
                #![trigger objected(m, old(io)@, self@)]
                objected(m, old(io)@, self@) == (Done { m, s: final(io)@, status: r as int }),
    {
        match self {
            Complaint::Usage(x) => usage(io, x.as_str()),
            Complaint::Fatal(x) => fatal(io, x.as_str()),
            Complaint::Ambiguous(x) => ambiguous_argument(io, x.as_str()),
        }
    }
}

} // verus!
