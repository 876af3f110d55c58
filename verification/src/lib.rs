//! Batch ingestion of basketball statistics from several providers.
//!
//! A raw payload is decoded to text ([`decoder`]), the parsed document
//! ([`json`]) is turned into a table by the adapter for its shape
//! ([`adapters`], [`sources`]), tables are written as delimited text
//! ([`sink`], [`records`]), and tables that describe the same players are
//! reconciled on an identifier or on a normalised name ([`normalize`],
//! [`join`], [`wrangle`]).

pub mod adapters;
pub mod decoder;
pub mod endpoint;
pub mod error;
pub mod join;
pub mod json;
pub mod normalize;
pub mod records;
pub mod sink;
pub mod sources;
pub mod table;
pub mod text;
pub mod wrangle;
