//! The tools that an agent can call, by name.

use vstd::prelude::*;

verus! {

/// Reads the contents of a file.
#[derive(Debug, Clone, Copy, PartialEq, Eq)]
pub struct ReadFile;

/// Writes content to a file.
#[derive(Debug, Clone, Copy, PartialEq, Eq)]
pub struct WriteFile;

/// Deletes a file.
#[derive(Debug, Clone, Copy, PartialEq, Eq)]
pub struct DeleteFile;

/// Searches the web.
#[derive(Debug, Clone, Copy, PartialEq, Eq)]
pub struct WebSearch;

/// Fetches the content of a URL.
#[derive(Debug, Clone, Copy, PartialEq, Eq)]
pub struct FetchUrl;

impl ReadFile {
    pub fn name(&self) -> (r: &'static str)
        ensures
            r@ == "read_file"@,
    {
        "read_file"
    }
}

impl WriteFile {
    pub fn name(&self) -> (r: &'static str)
        ensures
            r@ == "write_file"@,
    {
        "write_file"
    }
}

impl DeleteFile {
    pub fn name(&self) -> (r: &'static str)
        ensures
            r@ == "delete_file"@,
    {
        "delete_file"
    }
}

impl WebSearch {
    pub fn name(&self) -> (r: &'static str)
        ensures
            r@ == "web_search"@,
    {
        "web_search"
    }
}

impl FetchUrl {
    pub fn name(&self) -> (r: &'static str)
        ensures
            r@ == "fetch_url"@,
    {
        "fetch_url"
    }
}

} // verus!
