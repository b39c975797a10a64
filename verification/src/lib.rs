//! Version resolution for marketplace extensions: parsing a catalog response
//! into version records, grouping them by platform, and resolving a selection
//! to one artifact location.

pub mod assoc;
pub mod cli;
pub mod index;
pub mod json;
pub mod parse;
pub mod resolve;
pub mod session;
pub mod types;
