//! The command line's shape: output formats, commands and their arguments.
//! Parsing the arguments belongs to the program; these are the values it parses
//! them into.
use vstd::prelude::*;

verus! {

/// How results are printed.
#[derive(Debug, Clone, Copy, PartialEq, Eq, Structural)]
pub enum Format {
    Table,
    Json,
    Sexp,
}

/// The parsed command line.
#[derive(Debug)]
pub struct Cli {
    /// Machine-readable JSON envelope on stdout.
    pub json: bool,
    /// Emacs-readable s-expression on stdout.
    pub sexp: bool,
    /// Overrides the SQLite database path.
    pub db: Option<String>,
    /// Overrides the config file path.
    pub config: Option<String>,
    pub command: Command,
}

impl Cli {
    /// The output format: `--json` wins over `--sexp`; tables otherwise.
    pub fn format(&self) -> (f: Format)
        ensures
            f == (if self.json {
                Format::Json
            } else if self.sexp {
                Format::Sexp
            } else {
                Format::Table
            }),
    {
        if self.json {
            Format::Json
        } else if self.sexp {
            Format::Sexp
        } else {
            Format::Table
        }
    }
}

/// A command.
#[derive(Debug)]
pub enum Command {
    /// Check config, auth, database, and GitHub reachability.
    Doctor,
    /// Create the config file and data directory.
    Init,
    /// Pull starred repos and official Lists into the local database.
    Snapshot { stars_only: bool },
    /// Official / local Star Lists.
    Lists { command: Option<ListsCommand> },
    /// Starred repositories.
    Repos { command: Option<ReposCommand> },
    /// Change a repository's local list membership (does not write GitHub).
    Assign { repo: String, add: Vec<String>, remove: Vec<String>, set: Vec<String> },
    /// Export a corpus JSON for an external classifier.
    Export { out: Option<String>, for_agent: bool },
    /// Import or inspect a classification proposal.
    Propose(ProposeCommand),
    /// Show the current or named proposal as an apply plan.
    Plan { command: PlanCommand },
    /// Apply a proposal to GitHub (dry-run unless `confirm`).
    Apply { plan: String, confirm: bool },
    /// Raw GraphQL escape hatch (reads by default).
    Request { query: String, vars: Option<String>, write: bool },
}

/// `lists` subcommands.
#[derive(Debug)]
pub enum ListsCommand {
    /// List local Star Lists; tombstoned ones too with `all`.
    List { all: bool },
    /// Resolve a name, slug, or GitHub id to a local list.
    Resolve { name: String },
    /// Show one list and its repositories.
    Show { id: String, limit: usize },
    /// Create a local draft list (GitHub create happens on apply).
    Create { name: String, desc: Option<String>, slug: Option<String>, public: bool },
    /// Rename a local list (marks synced lists dirty).
    Rename { id: String, name: String },
    /// Update list description or visibility.
    Update { id: String, desc: Option<String>, public: Option<bool> },
    /// Mark a list for deletion (drafts with no GitHub id are removed).
    Delete { id: String },
}

/// `repos` subcommands.
#[derive(Debug)]
pub enum ReposCommand {
    /// List starred repositories.
    List { list: Option<String>, unlisted: bool, limit: usize, query: Option<String> },
    /// Show one repository and its lists.
    Show { id: String },
}

/// `propose` subcommands.
#[derive(Debug)]
pub enum ProposeCommand {
    /// Import a proposal JSON (does not write GitHub).
    Import { path: String, replace: bool },
    /// Show the last imported proposal JSON.
    Show { id: Option<String> },
}

/// `plan` subcommands.
#[derive(Debug)]
pub enum PlanCommand {
    /// Expand a proposal into concrete mutations.
    Show { id: Option<String> },
}

} // verus!
