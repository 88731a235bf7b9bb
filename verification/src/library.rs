//! The library of skills, commands and servers that workspaces draw from,
//! as far as this crate reads it. The library itself lives in a git
//! repository that the caller keeps.

use crate::text::join2;
use vstd::prelude::*;

verus! {

/// An MCP server as the library defines it.
#[derive(Debug, Clone, PartialEq, Eq)]
pub enum McpServer {
    Stdio { command: String, args: Vec<String>, env: Vec<(String, String)> },
    Http { url: String },
}

/// A skill in a listing.
#[derive(Debug, Clone, PartialEq, Eq)]
pub struct SkillSummary {
    /// The name of the skill, which is the name of its folder.
    pub name: String,
    /// The description from the front matter of `SKILL.md`.
    pub description: Option<String>,
    /// The path relative to the root of the library.
    pub path: String,
}

/// A skill with its content.
#[derive(Debug, Clone, PartialEq, Eq)]
pub struct Skill {
    pub name: String,
    pub description: Option<String>,
    pub path: String,
    /// The content of `SKILL.md`.
    pub content: String,
    /// The files in the folder of references.
    pub references: Vec<String>,
}

/// A command in a listing.
#[derive(Debug, Clone, PartialEq, Eq)]
pub struct CommandSummary {
    /// The name of the command, its file name without `.md`.
    pub name: String,
    pub description: Option<String>,
    pub path: String,
}

/// A command with its content.
#[derive(Debug, Clone, PartialEq, Eq)]
pub struct Command {
    pub name: String,
    pub description: Option<String>,
    pub path: String,
    pub content: String,
}

/// The state of the repository of the library.
#[derive(Debug, Clone, PartialEq, Eq)]
pub struct LibraryStatus {
    pub path: String,
    pub remote: Option<String>,
    pub branch: String,
    /// Whether the working directory is clean.
    pub clean: bool,
    /// Commits ahead of the remote.
    pub ahead: u32,
    /// Commits behind the remote.
    pub behind: u32,
    pub modified_files: Vec<String>,
}

/// The author of the commits made for the library.
#[derive(Debug, Clone, PartialEq, Eq)]
pub struct GitAuthor {
    pub name: Option<String>,
    pub email: Option<String>,
}

impl GitAuthor {
    pub fn new(name: Option<String>, email: Option<String>) -> (r: Self)
        ensures
            r.name == name,
            r.email == email,
    {
        GitAuthor { name, email }
    }
}

/// Why a pull failed.
#[derive(Debug, Clone, PartialEq, Eq)]
pub enum PullError {
    /// The local and the remote history have parted, as after a forced push
    /// to the remote.
    DivergedHistory { message: String },
    /// Another failure, by its text.
    Other(String),
}

impl PullError {
    /// The text of the error.
    pub fn message(&self) -> (r: String)
        ensures
            r@ == (match self {
                PullError::DivergedHistory { message } => "Diverged history: "@ + message@,
                PullError::Other(e) => e@,
            }),
    {
        match self {
            PullError::DivergedHistory { message } => join2("Diverged history: ", message.as_str()),
            PullError::Other(e) => e.clone(),
        }
    }
}

/// The library at a path, with the remote it follows.
pub struct LibraryStore {
    path: String,
    remote: String,
}

impl LibraryStore {
    /// The path of the library.
    pub closed spec fn spec_path(&self) -> Seq<char> {
        self.path@
    }

    /// The remote of the library.
    pub closed spec fn spec_remote(&self) -> Seq<char> {
        self.remote@
    }

    /// The library at `path` that follows `remote`; the caller has cloned
    /// the repository.
    pub fn at(path: &str, remote: &str) -> (r: Self)
        ensures
            r.spec_path() == path@,
            r.spec_remote() == remote@,
    {
        LibraryStore { path: path.to_owned(), remote: remote.to_owned() }
    }

    pub fn path(&self) -> (r: &str)
        ensures
            r@ == self.spec_path(),
    {
        self.path.as_str()
    }

    pub fn remote(&self) -> (r: &str)
        ensures
            r@ == self.spec_remote(),
    {
        self.remote.as_str()
    }
}

} // verus!
