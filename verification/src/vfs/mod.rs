//! Virtual filesystem: the paths by which database files are opened, read and written, and
//! the decisions of the locking protocols around them.
//!
//! A file handle does not hold its file's contents: whatever is done through it is done to
//! the file system it was opened on, which is handed to every operation. So what is written
//! through one handle is what is read through another.
pub mod file;
pub mod inode_registry;
pub mod lock;
pub mod memory;
pub mod page_source;
pub mod shm;

pub use crate::vfs::file::{companion_path, AnyVfs, AnyVfsFile, FileLock, Vfs, VfsError, VfsFile};
pub use crate::vfs::memory::{MemoryFiles, MemoryVfs};
pub use crate::vfs::page_source::{PageError, PageSource, VfsPageSource, WritablePageSource};
