//! Read-only access to ext2/3/4 filesystem images, optionally stored inside a
//! VirtualBox dynamic disk image (VDI).

pub mod bytes;
pub mod read_at;
pub mod seek;
pub mod header;
pub mod disk;
pub mod slice;
pub mod structs;
pub mod error;
pub mod model;
pub mod ext4;
pub mod file;
pub mod extent;
pub mod dir;
pub mod path;
pub mod listing;

pub use disk::{VdiDisk, VdiError};
pub use error::Ext4Error;
pub use ext4::{Ext4Reader, Metadata};
pub use file::Ext4FileReader;
pub use header::VdiHeader;
pub use listing::DirectoryIterator;
pub use read_at::ReadAt;
pub use seek::SeekFrom;
pub use slice::{OwnedSlice, Slice};
