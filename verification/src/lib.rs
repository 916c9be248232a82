//! Cache synchronisation and pagination engine for per-repository
//! lines-of-code statistics.

pub mod archive;
pub mod cache;
pub mod decimal;
pub mod decode;
pub mod fetcher;
pub mod identity;
pub mod json;
pub mod persist;
pub mod picture;
pub mod record;
pub mod report;
pub mod sync;
pub mod tally;
pub mod text;
pub mod walker;
