//! Errors of the ext4 reader, and how an outcome is held to the model.
use vstd::prelude::*;
use crate::dir::DirEntryView;
use crate::structs::DirEntry;
use crate::path::join_text;

verus! {

/// Why an ext4 operation failed.
#[derive(Debug)]
pub enum Ext4Error {
    /// The underlying reader failed or ended early.
    Io(std::io::Error),
    /// The superblock magic is wrong.
    InvalidSuperblock,
    /// The superblock gives zero blocks per group.
    InvalidBlockGroups,
    /// The named on-disk feature is missing or malformed.
    UnsupportedFeature(&'static str),
    /// The inode number is zero or past the last group.
    InvalidInode(u32),
    /// A path did not resolve to what was asked for; the text says why.
    FileNotFound(String),
    /// A directory record is malformed.
    InvalidDirectoryEntry,
}

/// An `Ext4Error` with its I/O cause forgotten and its texts as character sequences.
pub enum Fault {
    Io,
    InvalidSuperblock,
    InvalidBlockGroups,
    UnsupportedFeature(Seq<char>),
    InvalidInode(u32),
    FileNotFound(Seq<char>),
    InvalidDirectoryEntry,
}

impl Ext4Error {
    /// The text that describes the error.
    pub fn message(&self) -> (r: String)
        ensures
            self@ == Fault::InvalidSuperblock ==> r@ == "Invalid superblock magic number"@,
            self@ == Fault::InvalidBlockGroups ==> r@ == "Invalid superblock: zero blocks per group"@,
            self@ == Fault::InvalidDirectoryEntry ==> r@ == "Invalid directory entry"@,
            self matches Ext4Error::UnsupportedFeature(f) ==> r@ == "Unsupported filesystem feature: "@ + f@,
            self matches Ext4Error::FileNotFound(p) ==> r@ == "File not found: "@ + p@,
            self matches Ext4Error::InvalidInode(_) ==> r@.subrange(0, 22) == "Invalid inode number: "@,
            self matches Ext4Error::Io(_) ==> r@.subrange(0, 10) == "IO error: "@,
    {
        proof {
            reveal_strlit("Invalid inode number: ");
            reveal_strlit("IO error: ");
        }
        match self {
            Ext4Error::Io(e) => join_text("IO error: ", e.to_string().as_str()),
            Ext4Error::InvalidSuperblock => "Invalid superblock magic number".to_owned(),
            Ext4Error::InvalidBlockGroups => "Invalid superblock: zero blocks per group".to_owned(),
            Ext4Error::UnsupportedFeature(f) => join_text("Unsupported filesystem feature: ", f),
            Ext4Error::InvalidInode(n) => join_text("Invalid inode number: ", n.to_string().as_str()),
            Ext4Error::FileNotFound(p) => join_text("File not found: ", p.as_str()),
            Ext4Error::InvalidDirectoryEntry => "Invalid directory entry".to_owned(),
        }
    }
}

impl View for Ext4Error {
    type V = Fault;

    open spec fn view(&self) -> Fault {
        match self {
            Ext4Error::Io(_) => Fault::Io,
            Ext4Error::InvalidSuperblock => Fault::InvalidSuperblock,
            Ext4Error::InvalidBlockGroups => Fault::InvalidBlockGroups,
            Ext4Error::UnsupportedFeature(s) => Fault::UnsupportedFeature(s@),
            Ext4Error::InvalidInode(n) => Fault::InvalidInode(*n),
            Ext4Error::FileNotFound(s) => Fault::FileNotFound(s@),
            Ext4Error::InvalidDirectoryEntry => Fault::InvalidDirectoryEntry,
        }
    }
}

/// `r` is what the model `s` says, except that a reader that may fail can
/// turn any outcome into an I/O error; nothing is claimed of a reader whose
/// bytes are outside the model.
pub open spec fn conforms<T: View>(r: Result<T, Ext4Error>, s: Result<T::V, Fault>, faultless: bool, transparent: bool) -> bool {
    transparent ==> match r {
        Ok(v) => s == Ok::<T::V, Fault>(v@),
        Err(e) => if e@ == Fault::Io {
            !faultless || s == Err::<T::V, Fault>(Fault::Io)
        } else {
            s == Err::<T::V, Fault>(e@)
        },
    }
}

/// `r` with its success value dropped.
pub open spec fn unit_of<T>(r: Result<T, Ext4Error>) -> Result<(), Ext4Error> {
    match r {
        Ok(_) => Ok(()),
        Err(e) => Err(e),
    }
}

/// `r` is the record list `s` of the model, up to failures of the reader.
pub open spec fn entries_conform(r: Result<Vec<DirEntry>, Ext4Error>, s: Result<Seq<DirEntryView>, Fault>, faultless: bool, transparent: bool) -> bool {
    transparent ==> match r {
        Ok(es) => s == Ok::<Seq<DirEntryView>, Fault>(crate::dir::views(es@)),
        Err(e) => if e@ == Fault::Io {
            !faultless || s == Err::<Seq<DirEntryView>, Fault>(Fault::Io)
        } else {
            s == Err::<Seq<DirEntryView>, Fault>(e@)
        },
    }
}

} // verus!
