//! A read-query model for a single table, with its translations to SQL text
//! and to a REST-style URL, and the reshaping of decoded rows.

pub mod config;
pub mod error;
pub mod parse;
pub mod record;
pub mod roundtrip;
pub mod rows;
pub mod serve;
pub mod sql;
pub mod text;
pub mod url;
