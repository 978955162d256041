//! The settings of a search, from the command line and the configuration
//! file.

use vstd::prelude::*;
use crate::error::{Parameter, SearchError};

verus! {

/// `std::path::PathBuf`, the path of a directory. The settings carry it
/// through, and nothing is said of what it holds.
#[verifier::external_type_specification]
#[verifier::external_body]
pub struct ExPathBuf(std::path::PathBuf);

/// What the configuration file holds. Every setting may be missing.
#[derive(Debug)]
pub struct FileConfig {
    /// The substring of the block names to look for.
    pub block: Option<String>,
    /// The directory that holds the region files.
    pub path: Option<std::path::PathBuf>,
    /// The position from which distances are measured.
    pub home: Option<(i32, i32)>,
    /// Whether to list every block rather than count the blocks by name.
    pub show_all: Option<bool>,
    /// The greatest distance from the home position at which to search.
    pub max_distance: Option<i32>,
}

impl Default for FileConfig {
    /// The configuration that sets nothing.
    fn default() -> (config: FileConfig)
        ensures
            config.block is None,
            config.path is None,
            config.home is None,
            config.show_all is None,
            config.max_distance is None,
    {
        FileConfig { block: None, path: None, home: None, show_all: None, max_distance: None }
    }
}

/// What the command line holds.
#[derive(Debug)]
pub struct CliArgs {
    /// The substring of the block names to look for.
    pub block: Option<String>,
    /// The directory that holds the region files.
    pub path: Option<std::path::PathBuf>,
    /// Whether to list every block rather than count the blocks by name.
    pub show_all: bool,
    /// The greatest distance from the home position at which to search.
    pub max_distance: Option<i32>,
}

/// The settings of one search.
#[derive(Debug)]
pub struct SearchRequest {
    /// The text that the name of a block must contain.
    pub block: String,
    /// The directory that holds the region files.
    pub directory: std::path::PathBuf,
    /// The position from which distances are measured and by which the
    /// results are sorted, if one is set.
    pub origin: Option<(i32, i32)>,
    /// The greatest distance from the origin at which to search, if one is
    /// set.
    pub max_distance: Option<i32>,
    /// Whether to list every block rather than count the blocks by name.
    pub show_all: bool,
}

/// The first of two settings that is there.
pub open spec fn first_of<T>(first: Option<T>, second: Option<T>) -> Option<T> {
    match first {
        Some(_) => first,
        None => second,
    }
}

/// The distance filter that the settings ask for: none without a greatest
/// distance; else that distance around the origin, or around `(0, 0)` where
/// no origin is set.
pub open spec fn filter_of(origin: Option<(i32, i32)>, max_distance: Option<i32>) -> Option<
    ((i32, i32), i32),
> {
    match max_distance {
        Some(radius) => Some(
            (
                match origin {
                    Some(o) => o,
                    None => (0i32, 0i32),
                },
                radius,
            ),
        ),
        None => None,
    }
}

/// The settings that the command line and the configuration file give
/// together. The command line goes first for the block, the directory and
/// the greatest distance; the origin is that of the file; whether all blocks
/// are listed is that of the command line. Without a block or without a
/// directory there is no search: the block is asked for first.
pub open spec fn resolved(args: CliArgs, config: FileConfig) -> Result<SearchRequest, SearchError> {
    match (first_of(args.block, config.block), first_of(args.path, config.path)) {
        (Some(block), Some(directory)) => Ok(
            SearchRequest {
                block,
                directory,
                origin: config.home,
                max_distance: first_of(args.max_distance, config.max_distance),
                show_all: args.show_all,
            },
        ),
        (None, _) => Err(SearchError::MissingParameter(Parameter::Block)),
        (Some(_), None) => Err(SearchError::MissingParameter(Parameter::Directory)),
    }
}

/// The first of two settings that is there.
pub fn first_set<T>(first: Option<T>, second: Option<T>) -> (chosen: Option<T>)
    ensures
        chosen == first_of(first, second),
{
    match first {
        Some(value) => Some(value),
        None => second,
    }
}

/// Merges the command line with the configuration file into the settings of
/// the search. Fails with `MissingParameter` exactly where neither names a
/// block, or neither names a directory.
pub fn resolve_request(args: CliArgs, config: FileConfig) -> (request: Result<
    SearchRequest,
    SearchError,
>)
    ensures
        request == resolved(args, config),
{
    let block = match first_set(args.block, config.block) {
        Some(block) => block,
        None => { return Err(SearchError::MissingParameter(Parameter::Block)); },
    };
    let directory = match first_set(args.path, config.path) {
        Some(directory) => directory,
        None => { return Err(SearchError::MissingParameter(Parameter::Directory)); },
    };
    Ok(
        SearchRequest {
            block,
            directory,
            origin: config.home,
            max_distance: first_set(args.max_distance, config.max_distance),
            show_all: args.show_all,
        },
    )
}

impl SearchRequest {
    /// The distance filter that the settings ask for.
    pub fn distance_filter(&self) -> (filter: Option<((i32, i32), i32)>)
        ensures
            filter == filter_of(self.origin, self.max_distance),
    {
        match self.max_distance {
            Some(radius) => Some(
                (
                    match self.origin {
                        Some(o) => o,
                        None => (0, 0),
                    },
                    radius,
                ),
            ),
            None => None,
        }
    }
}

} // verus!
