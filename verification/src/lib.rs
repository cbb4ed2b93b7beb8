//! A registry of named modules, each with an ordered list of input names and
//! an ordered list of output names, and the XML form in which a registry is
//! kept on disk.

pub mod module;
pub mod state;
pub mod text;
pub mod create;
pub mod command;
pub mod writer;
pub mod reader;
pub mod session;
pub mod laws;
