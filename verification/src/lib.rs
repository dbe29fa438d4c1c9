//! cmdnavi: a personal reference of shell commands, kept by category.
//!
//! The library holds the rules and decisions of the tool; reading and
//! writing files, running the editor and talking to the terminal are done by
//! the program around it.
use vstd::prelude::*;

pub mod cli;
pub mod config;
pub mod editor;
pub mod laws;
pub mod model;
pub mod text;

verus! {

/// A failure, with the message shown to the user.
#[derive(Debug)]
pub struct Error(pub String);

pub type Result<T> = std::result::Result<T, Error>;

} // verus!
