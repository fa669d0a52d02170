//! Directory records: the variable-length entries packed into a directory block.
use vstd::prelude::*;
use crate::error::{Ext4Error, Fault};
use crate::structs::DirEntry;

verus! {

/// What `String::from_utf8_lossy` makes of a byte sequence.
pub uninterp spec fn lossy_of(b: Seq<u8>) -> Seq<char>;

/// Relies on `String::from_utf8_lossy`: the bytes decoded as UTF-8, each
/// invalid sequence replaced by U+FFFD; the result depends on the bytes alone.
#[verifier::external_body]
fn utf8_lossy(b: &[u8]) -> (r: String)
    ensures
        r@ == lossy_of(b@),
{
    String::from_utf8_lossy(b).into_owned()
}

/// A directory record with its name as characters.
pub struct DirEntryView {
    pub inode: u32,
    pub rec_len: u16,
    pub name_len: u8,
    pub file_type: u8,
    pub name: Seq<char>,
}

impl View for DirEntry {
    type V = DirEntryView;

    open spec fn view(&self) -> DirEntryView {
        DirEntryView {
            inode: self.inode,
            rec_len: self.rec_len,
            name_len: self.name_len,
            file_type: self.file_type,
            name: self.name@,
        }
    }
}

/// The views of a sequence of records.
pub open spec fn views(s: Seq<DirEntry>) -> Seq<DirEntryView> {
    s.map_values(|e: DirEntry| e@)
}

/// The records of `block` from byte `off` on: scanning stops when fewer than
/// 8 bytes remain or `size` bytes are consumed; free slots (inode 0) and empty
/// names are skipped; a malformed record fails the whole block.
pub open spec fn dir_records(block: Seq<u8>, size: int, off: int) -> Result<Seq<DirEntryView>, Fault>
    decreases block.len() - off,
{
    if off < 0 || off >= block.len() || off >= size || off + 8 > block.len() {
        Ok(Seq::empty())
    } else {
        let inode = crate::bytes::le32(block, off);
        let rec_len = crate::bytes::le16(block, off + 4);
        let name_len = block[off + 6] as int;
        let file_type = block[off + 7];
        if rec_len == 0 || rec_len > block.len() - off || name_len + 8 > rec_len {
            Err(Fault::InvalidDirectoryEntry)
        } else {
            let name = lossy_of(block.subrange(off + 8, off + 8 + name_len));
            let rec = DirEntryView {
                inode: inode as u32,
                rec_len: rec_len as u16,
                name_len: name_len as u8,
                file_type,
                name,
            };
            match dir_records(block, size, off + rec_len) {
                Err(e) => Err(e),
                Ok(rest) => Ok(
                    if inode != 0 && name.len() > 0 {
                        seq![rec] + rest
                    } else {
                        rest
                    },
                ),
            }
        }
    }
}

/// `acc` put in front of a successful outcome.
pub open spec fn prepend(acc: Seq<DirEntryView>, r: Result<Seq<DirEntryView>, Fault>) -> Result<
    Seq<DirEntryView>,
    Fault,
> {
    match r {
        Ok(x) => Ok(acc + x),
        Err(e) => Err(e),
    }
}

/// Scans the records of one directory block and appends the used ones to
/// `entries`.
pub fn parse_directory_block(block_data: &[u8], size: u64, entries: &mut Vec<DirEntry>) -> (r: Result<(), Ext4Error>)
    ensures
        match dir_records(block_data@, size as int, 0) {
            Ok(rs) => r is Ok && views(final(entries)@) == views(old(entries)@) + rs,
            Err(f) => r matches Err(e) && e@ == f,
        },
{
    let len = block_data.len();
    let ghost b = block_data@;
    let ghost start = views(entries@);
    let mut offset: usize = 0;
    assert(views(entries@).subrange(start.len() as int, views(entries@).len() as int) =~= Seq::<DirEntryView>::empty());
    while offset < len && (offset as u64) < size
        invariant
            len == b.len(),
            b == block_data@,
            offset <= len,
            views(entries@).len() >= start.len(),
            views(entries@).subrange(0, start.len() as int) == start,
            prepend(
                views(entries@).subrange(start.len() as int, views(entries@).len() as int),
                dir_records(b, size as int, offset as int),
            ) == dir_records(b, size as int, 0),
        ensures
            views(entries@).len() >= start.len(),
            views(entries@).subrange(0, start.len() as int) == start,
            prepend(
                views(entries@).subrange(start.len() as int, views(entries@).len() as int),
                dir_records(b, size as int, offset as int),
            ) == dir_records(b, size as int, 0),
            dir_records(b, size as int, offset as int) == Ok::<Seq<DirEntryView>, Fault>(Seq::empty()),
        decreases len - offset,
    {
        if len - offset < 8 {
            break;
        }
        let inode = crate::bytes::read_u32_le(block_data, offset);
        let rec_len = crate::bytes::read_u16_le(block_data, offset + 4);
        if rec_len == 0 || rec_len as usize > len - offset {
            return Err(Ext4Error::InvalidDirectoryEntry);
        }
        let name_len = block_data[offset + 6];
        let file_type = block_data[offset + 7];
        if name_len as usize + 8 > rec_len as usize {
            return Err(Ext4Error::InvalidDirectoryEntry);
        }
        let name_at: usize = offset + 8;
        let name_end: usize = name_at + name_len as usize;
        let name = utf8_lossy(&block_data[name_at..name_end]);
        let ghost acc = views(entries@).subrange(start.len() as int, views(entries@).len() as int);
        let ghost before = entries@;
        let ghost rest_r = dir_records(b, size as int, offset + rec_len);
        let ghost rec = DirEntryView { inode, rec_len, name_len, file_type, name: name@ };
        assert(block_data@.subrange(name_at as int, name_end as int) == b.subrange(offset + 8, offset + 8 + name_len));
        if inode != 0 && !name.as_str().is_empty() {
            let e = DirEntry { inode, rec_len, name_len, file_type, name };
            entries.push(e);
            proof {
                assert(e@ == rec);
                assert(views(entries@) =~= views(before).push(e@));
                assert(views(entries@).subrange(0, start.len() as int) =~= views(before).subrange(0, start.len() as int));
                assert(views(entries@).subrange(start.len() as int, views(entries@).len() as int) =~= acc.push(e@));
                match rest_r {
                    Ok(rest) => {
                        assert(acc.push(e@) + rest =~= acc + (seq![e@] + rest));
                    },
                    Err(_) => {},
                }
            }
        }
        offset = offset + rec_len as usize;
    }
    proof {
        let tail = views(entries@).subrange(start.len() as int, views(entries@).len() as int);
        assert(tail + Seq::<DirEntryView>::empty() =~= tail);
        assert(views(entries@) =~= start + tail);
    }
    Ok(())
}

} // verus!

verus! {

/// The inode of the first record in `es`, from index `j` on, named `name`.
pub open spec fn first_named(es: Seq<DirEntryView>, name: Seq<char>, j: int) -> Option<u32>
    decreases es.len() - j,
{
    if j < 0 || j >= es.len() {
        None
    } else if es[j].name == name {
        Some(es[j].inode)
    } else {
        first_named(es, name, j + 1)
    }
}

/// The inode of the first record named `name`, compared character by character.
pub fn find_named(entries: &Vec<DirEntry>, name: &[char]) -> (r: Option<u32>)
    ensures
        r == first_named(views(entries@), name@, 0),
{
    let mut j: usize = 0;
    while j < entries.len()
        invariant
            j <= entries@.len(),
            first_named(views(entries@), name@, 0) == first_named(views(entries@), name@, j as int),
        decreases entries@.len() - j,
    {
        let chars = crate::path::chars_of(entries[j].name.as_str());
        if crate::path::chars_eq(chars.as_slice(), name) {
            return Some(entries[j].inode);
        }
        j = j + 1;
    }
    None
}

} // verus!
