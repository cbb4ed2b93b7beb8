//! The commands that the operator can type.

use vstd::prelude::*;
use vstd::string::*;

verus! {

/// What the first token of a line asks for.
#[derive(Clone, Copy, Debug, PartialEq, Eq, Structural)]
pub enum Command {
    /// `create`: ask for a module and append it.
    Create,
    /// `list`: show every module.
    List,
    /// `save`: write the registry to its file.
    Save,
    /// `load`: append the modules of the file.
    Load,
    /// `quit`: end the session.
    Quit,
    /// The empty token, which names nothing: ask again, without a word.
    Blank,
    /// Anything else: report an invalid command and ask again.
    Invalid,
}

/// The command that a token names. Names are matched letter for letter.
pub open spec fn command_named(token: Seq<char>) -> Command {
    if token.len() == 0 {
        Command::Blank
    } else if token == "create"@ {
        Command::Create
    } else if token == "list"@ {
        Command::List
    } else if token == "save"@ {
        Command::Save
    } else if token == "load"@ {
        Command::Load
    } else if token == "quit"@ {
        Command::Quit
    } else {
        Command::Invalid
    }
}

/// The command that `token` names.
pub fn command_of(token: &str) -> (c: Command)
    ensures
        c == command_named(token@),
{
    let t = String::from_str(token);
    if token.unicode_len() == 0 {
        Command::Blank
    } else if t == String::from_str("create") {
        Command::Create
    } else if t == String::from_str("list") {
        Command::List
    } else if t == String::from_str("save") {
        Command::Save
    } else if t == String::from_str("load") {
        Command::Load
    } else if t == String::from_str("quit") {
        Command::Quit
    } else {
        Command::Invalid
    }
}

} // verus!
