//! An open regular file: a cursor over its bytes.
use vstd::prelude::*;
use crate::error::{Ext4Error, Fault};
use crate::ext4::Ext4Reader;
use crate::model::{Ext4View, range_result};
use crate::read_at::{copy_into, io_error, IoErrorKind, ReadAt};
use crate::seek::{resolve_seek, SeekFrom};
use crate::structs::Inode;

verus! {

/// A regular file opened for reading, with its own cursor.
pub struct Ext4FileReader<'a, R: ReadAt> {
    reader: &'a Ext4Reader<R>,
    inode: Inode,
    position: u64,
    size: u64,
}

/// The ghost picture of an open file: the filesystem, the inode, the cursor
/// and the size.
pub struct FileView {
    pub fs: Ext4View,
    pub inode: Inode,
    pub position: u64,
    pub size: u64,
}

impl<'a, R: ReadAt> View for Ext4FileReader<'a, R> {
    type V = FileView;

    closed spec fn view(&self) -> FileView {
        FileView { fs: self.reader@, inode: self.inode, position: self.position, size: self.size }
    }
}

impl<'a, R: ReadAt> Ext4FileReader<'a, R> {
    #[verifier::type_invariant]
    spec fn inv(&self) -> bool {
        self.size == self.inode.spec_size()
    }

    /// A reader of the file `inode` of `reader`, with its cursor at 0.
    pub(crate) fn new(reader: &'a Ext4Reader<R>, inode: Inode) -> (f: Self)
        ensures
            f@.fs == reader@,
            f@.inode == inode,
            f@.position == 0,
            f@.size == inode.spec_size(),
    {
        let size = inode.size();
        Ext4FileReader { reader, inode, position: 0, size }
    }

    /// The file size in bytes.
    pub fn size(&self) -> (r: u64)
        ensures
            r == self@.size,
            r == self@.inode.spec_size(),
    {
        proof {
            use_type_invariant(self);
        }
        self.size
    }

    /// Reads at the cursor into the front of `buf` and advances the cursor:
    /// `min(buf.len(), size - position)` bytes, fewer where the mapped blocks end.
    pub fn read(&mut self, buf: &mut [u8]) -> (r: Result<usize, Ext4Error>)
        ensures
            final(buf)@.len() == old(buf)@.len(),
            final(self)@.fs == old(self)@.fs && final(self)@.inode == old(self)@.inode && final(self)@.size == old(self)@.size,
            r matches Ok(n) ==> n <= old(buf)@.len() && final(self)@.position == old(self)@.position + n,
            r matches Ok(n) ==> n == 0 || old(self)@.position + n <= old(self)@.size,
            old(self)@.position >= old(self)@.size || old(buf)@.len() == 0 ==> (r matches Ok(n) && n == 0),
            r is Err ==> final(self)@.position == old(self)@.position,
            old(self)@.fs.transparent ==> match r {
                Ok(n) => {
                    let want = range_result(old(self)@.fs, old(self)@.inode, old(self)@.position as int, old(buf)@.len() as int);
                    &&& want is Ok
                    &&& want->Ok_0.len() == n
                    &&& final(buf)@.subrange(0, n as int) == want->Ok_0
                    &&& final(buf)@.subrange(n as int, final(buf)@.len() as int) == old(buf)@.subrange(n as int, old(buf)@.len() as int)
                    &&& final(self)@.position == old(self)@.position + n
                },
                Err(e) => {
                    &&& (e@ == Fault::Io && !old(self)@.fs.faultless) || range_result(old(self)@.fs, old(self)@.inode, old(self)@.position as int, old(buf)@.len() as int)
                        == Err::<Seq<u8>, Fault>(e@)
                    &&& final(self)@.position == old(self)@.position
                },
            },
    {
        proof {
            use_type_invariant(&*self);
        }
        let ghost full = old(buf)@;
        if self.position >= self.size {
            assert(full.subrange(0, 0) =~= Seq::<u8>::empty());
            return Ok(0);
        }
        let remaining = self.size - self.position;
        let len = buf.len();
        let to_read: usize = if (len as u64) < remaining {
            len
        } else {
            remaining as usize
        };
        if to_read == 0 {
            assert(full.subrange(0, 0) =~= Seq::<u8>::empty());
            return Ok(0);
        }
        let data = match self.reader.read_file_data_range(&self.inode, self.position, to_read) {
            Ok(d) => d,
            Err(e) => {
                return Err(e);
            },
        };
        assert(range_result(self.reader@, self.inode, self.position as int, to_read as int) == range_result(
            self.reader@,
            self.inode,
            self.position as int,
            len as int,
        ));
        let bytes_read = data.len();
        copy_into(buf, 0, data.as_slice(), bytes_read);
        assert(buf@.subrange(0, bytes_read as int) =~= data@);
        assert(buf@.subrange(bytes_read as int, len as int) =~= full.subrange(bytes_read as int, len as int));
        self.position = self.position + bytes_read as u64;
        Ok(bytes_read)
    }

    /// Moves the cursor within `[0, size]`; other positions are refused and
    /// leave the cursor where it was.
    pub fn seek(&mut self, pos: SeekFrom) -> (r: Result<u64, std::io::Error>)
        ensures
            final(self)@.fs == old(self)@.fs && final(self)@.inode == old(self)@.inode && final(self)@.size == old(self)@.size,
            ({
                let target = crate::seek::seek_target(pos, old(self)@.position as int, old(self)@.size as int);
                &&& r matches Ok(p) ==> p == target && final(self)@.position == p
                &&& r is Err <==> !(0 <= target <= old(self)@.size)
                &&& r is Err ==> final(self)@.position == old(self)@.position
            }),
    {
        proof {
            use_type_invariant(&*self);
        }
        match resolve_seek(pos, self.position, self.size) {
            Some(p) => {
                self.position = p;
                Ok(p)
            },
            None => Err(io_error(IoErrorKind::InvalidInput, "Seek outside of file")),
        }
    }
}

} // verus!
