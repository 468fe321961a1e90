//! Functionality related to loading assets: load batches, the asset name
//! look-up database, the table of loaded assets and the storage's state
//! machine.

pub mod batch;
pub mod content;
pub mod lookup;
pub mod storage;
