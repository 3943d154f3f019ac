//! Columnar container for sequencing alignment records: header and metadata
//! model, block-addressed column readers, field selection, and flag statistics.
pub mod block_index;
pub mod bytes;
pub mod codec;
pub mod column;
pub mod crc;
pub mod error;
pub mod fields;
pub mod flagstat;
pub mod header;
pub mod meta;
pub mod reader;
pub mod record;
pub mod template;
pub mod writer;
