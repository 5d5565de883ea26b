//! Queries of a trading cache that is kept in Redis.

pub mod bulk;
pub mod cache;
pub mod custom;
pub mod error;
pub mod index;
pub mod json;
pub mod keys;
pub mod load;
pub mod outside;
pub mod payload;
pub mod read;
pub mod record;
pub mod scan;
pub mod sort;
pub mod text;
pub mod timestamps;
