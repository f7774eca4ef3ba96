//! What one line of the REPL holds: a command or a term to evaluate.
use vstd::prelude::*;

use crate::syntax::{Command, CommandV, Syntax, SyntaxV};

verus! {

/// One line of the REPL.
#[derive(Debug)]
pub enum ReplCmd {
    Command { command: Command },
    Syntax { syntax: Syntax },
}

/// The model of a REPL line.
pub enum ReplCmdV {
    Command { command: CommandV },
    Syntax { syntax: SyntaxV },
}

impl View for ReplCmd {
    type V = ReplCmdV;

    open spec fn view(&self) -> ReplCmdV {
        match self {
            ReplCmd::Command { command } => ReplCmdV::Command { command: command@ },
            ReplCmd::Syntax { syntax } => ReplCmdV::Syntax { syntax: syntax@ },
        }
    }
}

} // verus!
