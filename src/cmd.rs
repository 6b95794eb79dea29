use vstd::prelude::*;
use crate::display::OutputType;

verus! {

/// The command line: where configuration and index live, and what to do.
#[derive(Debug)]
pub struct Opt {
    pub config: String,
    pub index_dir_path: String,
    pub cmd: Command,
}

/// What the command line asks for.
#[derive(Debug)]
pub enum Command {
    /// Index mail spools; `full` includes messages already seen.
    Index { maildir_path: Vec<String>, full: bool, debug: bool },
    /// Search subject and text.
    Search { term: String, output: OutputType, num: usize, advanced: bool },
    /// Messages around a date.
    Date { term: i64 },
    /// One message by id.
    Get { output: OutputType, id: String },
    /// The latest messages.
    Latest { num: usize, skip: usize, output: OutputType },
    /// Replace a message's tags.
    Tag { id: String, tags: Vec<String> },
    Test {},
    Interactive {},
}

} // verus!
