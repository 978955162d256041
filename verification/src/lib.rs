//! Locating named blocks in a Minecraft world.
//!
//! A world is saved as region files, each of 32 by 32 chunks, each chunk a
//! column of 16 by 16 blocks. This library holds the rules of a search for
//! blocks by name: where a region lies ([`region`]), which points a distance
//! filter lets pass ([`distance`]), which blocks of a chunk are found and
//! where they are ([`chunk`]), what the search of a region file yields
//! ([`search`]), how the results of many files are put together
//! ([`collect`]), ordered ([`order`]), counted ([`tally`]) and listed
//! ([`report`]), and how the settings of a search are merged ([`config`]).
//!
//! The library reads no files and decodes no chunks. Its callers do, and
//! hand it the name of each region file, without its directory, and the
//! decoded chunks; [`search::RegionSearch`] tells them which regions and
//! chunks are worth decoding at all.

pub mod chunk;
pub mod collect;
pub mod config;
pub mod distance;
pub mod error;
pub mod order;
pub mod pattern;
pub mod region;
pub mod report;
pub mod search;
pub mod tally;
pub mod text;

pub use chunk::{scan_chunk, BlockResults, DecodedChunk};
pub use collect::collect_results;
pub use config::{resolve_request, CliArgs, FileConfig, SearchRequest};
pub use distance::within;
pub use error::{Parameter, SearchError};
pub use order::sort_by_distance;
pub use region::region_coordinates;
pub use report::{arrange, post_process, report, ReportLine};
pub use search::{find_blocks, RegionSearch};
pub use tally::count_by_name;
