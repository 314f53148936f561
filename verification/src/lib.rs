//! Typed layer extraction from an osmdb database, driven by extraction
//! scripts: layer schemas, relation geometry resolution, row conversion,
//! output batching and the extraction run's bookkeeping.

pub mod geometry;
pub mod lua;
pub mod output;
pub mod pipeline;
pub mod schema;
pub mod text;
pub mod wikidata;
