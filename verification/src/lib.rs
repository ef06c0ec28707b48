//! An in-memory, read-only directory tree: files with byte contents and
//! nested directories, either borrowing data embedded in the binary or
//! owning data read from a real filesystem at run time. The tree supports
//! path lookup, glob-pattern search, and planning a bulk extraction back
//! onto a filesystem.

pub mod dir;
pub mod dir_entry;
pub mod file;
pub mod globs;
pub mod model;
pub mod my_cow;

pub use dir::{Dir, ExtractAction};
pub use dir_entry::DirEntry;
pub use file::{File, Metadata};
pub use globs::{Globs, PatternError};
pub use my_cow::{Cow, CowBytes};
