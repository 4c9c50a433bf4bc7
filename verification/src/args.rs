//! What the command line asks for.

use vstd::prelude::*;
use std::path::PathBuf;

verus! {

/// `std::path::PathBuf`, carried through as it is.
#[verifier::external_type_specification]
#[verifier::external_body]
pub struct ExPathBuf(PathBuf);

/// What both commands take: the conditions on the two players and the
/// replays to look at.
#[derive(Debug)]
pub struct SharedArgs {
    /// Player character
    pub pchar: Option<String>,
    /// Player netplay name
    pub pname: Option<String>,
    /// Player netplay connect code (eg. MANG#0)
    pub pcode: Option<String>,
    /// Opponent character
    pub ochar: Option<String>,
    /// Opponent netplay name
    pub oname: Option<String>,
    /// Opponent netplay connect code (eg. MANG#0)
    pub ocode: Option<String>,
    /// Case insensitive
    pub ignorecase: bool,
    /// Replays to search
    pub replays: Vec<PathBuf>,
}

/// Quickly filters replays based on metadata
#[derive(Debug)]
pub struct Filter {
    /// The conditions on the players and the replays.
    pub shared_args: SharedArgs,
    /// Stage
    pub stage: Option<String>,
}

/// Search replay for something that happened
#[derive(Debug)]
pub struct Search {
    /// The conditions on the players and the replays.
    pub shared_args: SharedArgs,
    /// The query, in its text form.
    pub search_string: String,
}

/// The command that was given.
#[derive(Debug)]
pub enum Commands {
    /// Quickly filters replays based on metadata
    Filter(Filter),
    /// Search replay for something that happened
    Search(Search),
}

/// A whole command line.
#[derive(Debug)]
pub struct Cli {
    /// The command and its arguments.
    pub command: Commands,
}

impl Cli {
    /// The arguments that the command shares with the other command.
    pub open spec fn shared(&self) -> SharedArgs {
        match self.command {
            Commands::Filter(filter_args) => filter_args.shared_args,
            Commands::Search(search_args) => search_args.shared_args,
        }
    }

    /// The replays that the command is to look at.
    pub fn replays(&self) -> (r: &Vec<PathBuf>)
        ensures
            *r == self.shared().replays,
    {
        &self.shared_args().replays
    }

    /// The arguments that the command shares with the other command.
    pub fn shared_args(&self) -> (r: &SharedArgs)
        ensures
            *r == self.shared(),
    {
        match self.command {
            Commands::Filter(ref filter_args) => &filter_args.shared_args,
            Commands::Search(ref search_args) => &search_args.shared_args,
        }
    }
}

} // verus!
