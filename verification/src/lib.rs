//! Normalizes researcher-identity records: XML record documents are decoded
//! into typed records, each record is reduced to a compact identity (display
//! name, canonical identifier, active organizational affiliations), and the
//! result is rendered as line-delimited JSON or as tabular rows.

pub mod decode;
pub mod extract;
pub mod filter;
pub mod json;
pub mod normalize;
pub mod orgmap;
pub mod pipeline;
pub mod record;
pub mod row;
pub mod text;
pub mod xml;
