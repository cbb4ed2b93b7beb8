//! One turn of a session: what to do about the command that was typed.
//!
//! The registry is only read here. It grows in two places: where a dialogue
//! that `Reply::Create` began ends in a module, which the caller adds, and
//! where the caller hands the file that `Reply::Load` asks for to `load`.

use vstd::prelude::*;
use vstd::string::*;
use crate::command::{command_named, command_of, Command};
use crate::create::{Draft, DraftView};
use crate::module::ModuleView;
use crate::state::{listed, State};
use crate::text::names_view;
use crate::writer::{document, save};

verus! {

/// The name of the file that holds the saved registry. It is looked for in
/// the working directory.
pub const FILE_NAME: &'static str = "data.xml";

/// What the caller is to do next.
#[derive(Debug)]
pub enum Reply {
    /// Run this dialogue, and add the module that it ends in.
    Create(Draft),
    /// Print these lines.
    List(Vec<String>),
    /// Write these bytes to the file called `FILE_NAME`, replacing what it
    /// held.
    Save(Vec<u8>),
    /// Read the file called `FILE_NAME` and load what it holds.
    Load,
    /// End the session.
    Quit,
    /// Ask for the next command.
    Nothing,
    /// Print this message and ask for the next command.
    Invalid(String),
}

/// Whether `r` is the reply that command `c` is owed on a registry that
/// holds `st`.
pub open spec fn replies_to(r: Reply, c: Command, st: Seq<ModuleView>) -> bool {
    match c {
        Command::Create => r matches Reply::Create(d) && d@ == DraftView::Name,
        Command::List => r matches Reply::List(lines) && names_view(lines@) == listed(st),
        Command::Save => r matches Reply::Save(bytes) && bytes@ == document(st),
        Command::Load => r is Load,
        Command::Quit => r is Quit,
        Command::Blank => r is Nothing,
        Command::Invalid => r matches Reply::Invalid(text) && text@ == "invalid command"@,
    }
}

/// Whether `r` is the reply that a line with these tokens is owed: a line
/// without tokens is passed over in silence, any other is judged by its
/// first token.
pub open spec fn replies_to_line(r: Reply, tokens: Seq<Seq<char>>, st: Seq<ModuleView>) -> bool {
    if tokens.len() == 0 {
        r is Nothing
    } else {
        replies_to(r, command_named(tokens[0]), st)
    }
}

/// Decides what to do about the first token of a line.
pub fn react(st: &State, token: &str) -> (r: Reply)
    ensures
        replies_to(r, command_named(token@), st@),
{
    match command_of(token) {
        Command::Create => Reply::Create(Draft::start()),
        Command::List => Reply::List(st.listing()),
        Command::Save => Reply::Save(save(st)),
        Command::Load => Reply::Load,
        Command::Quit => Reply::Quit,
        Command::Blank => Reply::Nothing,
        Command::Invalid => Reply::Invalid(String::from_str("invalid command")),
    }
}

/// Decides what to do about the tokens of the line that was typed.
pub fn react_to_line(st: &State, tokens: &Vec<String>) -> (r: Reply)
    ensures
        replies_to_line(r, names_view(tokens@), st@),
{
    if tokens.len() == 0 {
        Reply::Nothing
    } else {
        react(st, tokens[0].as_str())
    }
}

} // verus!
