//! A persistence core for blockchain block data: a positional codec that
//! serializes a block into one flat buffer while recording byte-exact
//! offset/length indices for every nested field, and a storage engine that
//! uses those indices to retrieve single sub-objects (a transaction, a cell
//! output, an uncle) without decoding the whole block.

pub mod error;
pub mod laws;
pub mod model;
pub mod encoding;
pub mod index;
pub mod indexbytes;
pub mod decode;
pub mod deserialize;
pub mod roundtrip;
pub mod serialize;
pub mod storage;
pub mod table;
