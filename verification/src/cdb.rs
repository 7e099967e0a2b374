//! Reading and writing the constant-database byte format.

pub mod codec;
pub mod data;
pub mod errors;
pub mod format;
pub mod hash;
pub mod laws;
pub mod layout;
pub mod reader;
pub mod tables;
pub mod writer;

pub use self::data::{CDBData, LoadOption};
pub use self::errors::CDBError;
pub use self::hash::STARTING_HASH;
pub use self::reader::{KVRef, Reader};
pub use self::writer::{Tables, Writer};
