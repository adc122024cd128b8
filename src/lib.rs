pub mod cstr;
pub mod directory;
pub mod distributor;
pub mod encoding;
pub mod error;
pub mod output;
pub mod reader;
pub mod worker;

pub use cstr::CStr;
pub use directory::{Directory, IterDir, RawDirEntry};
pub use error::Error;
pub use output::write_to_stdout;
