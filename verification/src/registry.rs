//! The table of commands.

use vstd::prelude::*;

use crate::order::{bind, OrdMap};
use crate::text::copy_text;

verus! {

/// How far a command does what the real one does.
#[derive(Clone, Copy, PartialEq, Eq, Structural)]
pub enum Trust {
    /// All of it.
    Real,
    /// A part of it; the rest is refused.
    Partial,
}

/// The commands that can be run.
#[derive(Clone, Copy, PartialEq, Eq, Structural)]
pub enum Program {
    Git,
    Grep,
    Egrep,
    Fgrep,
    Sha256Sum,
    Sha1Sum,
    Sha512Sum,
    Md5Sum,
    Cksum,
    Base64,
    Hexdump,
    Strings,
}

/// What is known of a command: how far it can be trusted, what runs, and what starting it costs.
#[derive(Clone, Copy, PartialEq, Eq, Structural)]
pub struct CommandSpec {
    pub trust: Trust,
    pub program: Program,
    pub start_cost: u64,
    pub start_memory: u64,
}

impl View for CommandSpec {
    type V = CommandSpec;

    open spec fn view(&self) -> CommandSpec {
        *self
    }
}

/// Commands by name or path.
pub type Commands = Seq<(Seq<char>, CommandSpec)>;

/// A command whose start costs nothing of its own.
pub open spec fn light(trust: Trust, program: Program) -> CommandSpec {
    CommandSpec { trust, program, start_cost: 0, start_memory: 0 }
}

/// Enters a command whose start costs nothing of its own.
pub fn reg(m: &mut OrdMap<CommandSpec>, name: &str, trust: Trust, program: Program)
    ensures
        final(m)@ == bind(old(m)@, name@, light(trust, program)),
{
    m.insert(copy_text(name), CommandSpec { trust, program, start_cost: 0, start_memory: 0 });
}

} // verus!
