//! Block index: the committed blocks seen so far, how events become blocks, and
//! how the index catches up with the chain.

pub mod backfill;
pub mod frames;
pub mod store;
