//! An append-only object file that grows in fixed steps up to a ceiling, with a
//! length-prefixed codec for byte records.

pub mod codec;
pub mod config;
pub mod file;
pub mod growth;
pub mod laws;
pub mod network;

pub use codec::{deserialize, serialize, DeserializeError};
pub use config::{get_test_config, ConfigError, MmapFileConfig};
pub use file::{LocationInFile, MmapFile, MmapFileError};
pub use network::{BlockError, ReaderError};
