//! A constant database: an immutable, file-backed key to value store with a
//! 256-entry primary table and open-addressed secondary tables, together with
//! a small pool of fixed-size byte buffers.

mod boxed;
pub mod cdb;
pub mod pool;

pub use cdb::{CDBData, CDBError, LoadOption, Reader, Writer};
pub use memmap::Mmap;
