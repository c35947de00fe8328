//! Navigation by abbreviation: match short fragments against the names of
//! directories, walk a directory tree with them, and rank what was found.

pub mod abbr;
pub mod args;
pub mod error;
pub mod init;
pub mod interactive;
pub mod node;
pub mod path;
pub mod query;
pub mod rank;
pub mod search;
pub mod text;
pub mod utils;

