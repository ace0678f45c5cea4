//! The keyword-search command line: which operation on the search index a
//! parsed command asks for.
use vstd::prelude::*;

verus! {

/// The operations of the keyword-search command line.
#[derive(Debug)]
pub enum Action {
    /// Ingest the JSON documents of a file into the index.
    Index { path_to_file: String },
    /// Search the index for a keyword.
    Search { keyword: String },
}

/// The parsed keyword-search command line.
#[derive(Debug)]
pub struct SearchCli {
    pub keyword_match: Option<String>,
    pub action: Action,
}

/// An operation on the search index, with the index it works on.
#[derive(Debug)]
pub enum IndexCommand {
    /// Ingest the JSON file `json_file` into the index at `index_path`.
    Ingest { index_path: String, json_file: String },
    /// Search the index at `index_path` for `query`.
    Query { index_path: String, query: String },
}

/// The directory of the search index.
pub open spec fn index_path_of() -> Seq<char> {
    "/Users/max/Code/Music/backend/musixmatch/"@
}

/// The contents of an index command: whether it ingests, its index and its
/// file or query.
pub open spec fn command_view(c: IndexCommand) -> (bool, Seq<char>, Seq<char>) {
    match c {
        IndexCommand::Ingest { index_path, json_file } => (true, index_path@, json_file@),
        IndexCommand::Query { index_path, query } => (false, index_path@, query@),
    }
}

/// The index operation that a parsed command line asks for.
pub fn search(args: &SearchCli) -> (c: IndexCommand)
    ensures
        command_view(c) == match args.action {
            Action::Index { path_to_file } => (true, index_path_of(), path_to_file@),
            Action::Search { keyword } => (false, index_path_of(), keyword@),
        },
{
    match &args.action {
        Action::Index { path_to_file } => IndexCommand::Ingest {
            index_path: String::from_str("/Users/max/Code/Music/backend/musixmatch/"),
            json_file: path_to_file.clone(),
        },
        Action::Search { keyword } => IndexCommand::Query {
            index_path: String::from_str("/Users/max/Code/Music/backend/musixmatch/"),
            query: keyword.clone(),
        },
    }
}

} // verus!
