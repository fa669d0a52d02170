//! The ext4 reader: superblock and group-descriptor bootstrap, inode lookup,
//! extent walking, directories, path resolution and file data.
use vstd::prelude::*;
use crate::read_at::{io_error, read_exact_at, IoErrorKind, ReadAt};
use crate::extent::{EXTENTS, EXTENT_MAGIC};
use crate::dir::{parse_directory_block, DirEntryView};
use crate::listing::{sort_entries, DirectoryEntryView, DirectoryIterator};
use crate::path::{chars_of, join_text, path_components, text_of};
use crate::structs::{DirEntry, DirectoryEntry, EXT4_FT_DIR, EXT4_FT_REG_FILE, GroupDescriptor, Inode, Superblock, EXT4_ROOT_INO, EXT4_SUPER_MAGIC};
use crate::file::Ext4FileReader;
use crate::error::{Ext4Error, Fault, conforms, entries_conform, unit_of};
use crate::model::{Ext4View, superblock_fault, IS_NOT_A_DIRECTORY, IS_NOT_A_REGULAR_FILE, NOT_A_DIRECTORY_COMPONENT, PATH_NOT_FOUND, SUPERBLOCK_OFFSET, addr_of, block_size_of, blocks_records, child_path, dir_block_result, dir_entries_result, direct_count, find_result, gds_decoded_from, gdt_offset_of, group_count_of, inode_blocks, inode_result, is_dot_name, lemma_block_size, lemma_blocks_error, lemma_inode_from, listing_of, metadata_result, open_file_result, open_result, range_result, range_stop, read_dir_result, readable, superblock_bytes, superblock_ok, view_ok, walk};

verus! {

/// File type and size of a filesystem object.
#[derive(Debug, Clone, Copy)]
pub struct Metadata {
    pub is_file: bool,
    pub is_dir: bool,
    pub size: u64,
    pub mode: u16,
}

/// Decodes a block of bytes into little-endian words.
fn words_of(b: &Vec<u8>) -> (w: Vec<u32>)
    ensures
        w@ == crate::structs::words_at(b@, 0, b@.len() as int / 4),
{
    let n = b.len() / 4;
    let mut w: Vec<u32> = Vec::new();
    let mut i: usize = 0;
    while i < n
        invariant
            n == b@.len() / 4,
            b@.len() <= usize::MAX,
            i <= n,
            w@.len() == i,
            forall|j: int| 0 <= j < i ==> w@[j] == crate::bytes::le32(b@, 4 * j),
        decreases n - i,
    {
        w.push(crate::bytes::read_u32_le(b.as_slice(), 4 * i));
        i = i + 1;
    }
    assert(w@ =~= crate::structs::words_at(b@, 0, b@.len() as int / 4));
    w
}

proof fn lemma_words_sub(c: Seq<u8>, off: int, len: int)
    requires
        0 <= off,
        off + len <= c.len(),
        len >= 0,
    ensures
        crate::structs::words_at(c.subrange(off, off + len), 0, len / 4) == crate::structs::words_at(c, off, len / 4),
{
    let a = crate::structs::words_at(c.subrange(off, off + len), 0, len / 4);
    let b = crate::structs::words_at(c, off, len / 4);
    assert forall|i: int| 0 <= i < len / 4 implies a[i] == b[i] by {
        let s = c.subrange(off, off + len);
        assert(s[4 * i] == c[off + 4 * i]);
        assert(s[4 * i + 1] == c[off + 4 * i + 1]);
        assert(s[4 * i + 2] == c[off + 4 * i + 2]);
        assert(s[4 * i + 3] == c[off + 4 * i + 3]);
    }
    assert(a =~= b);
}

/// An ext4 filesystem read through a positioned reader.
pub struct Ext4Reader<R: ReadAt> {
    reader: R,
    superblock: Superblock,
    group_descriptors: Vec<GroupDescriptor>,
    block_size: u64,
}

impl<R: ReadAt> View for Ext4Reader<R> {
    type V = Ext4View;

    closed spec fn view(&self) -> Ext4View {
        Ext4View {
            content: self.reader.content(),
            faultless: self.reader.faultless(),
            transparent: self.reader.transparent(),
            sb: self.superblock,
            gds: self.group_descriptors@,
            block_size: self.block_size,
        }
    }
}

/// The block size that `s_log_block_size` gives: `1024 << log`, falling back
/// to 1024 when the shift is 32 or more.
pub fn block_size_from_log(log: u32) -> (r: u64)
    ensures
        r == block_size_of(log),
{
    if log < 32 {
        1024u64 << log
    } else {
        1024u64
    }
}

/// Where the group descriptor table starts: offset 2048 for 1 KiB blocks,
/// else the start of block 1.
pub fn gdt_offset_for(block_size: u64) -> (r: u64)
    ensures
        r == gdt_offset_of(block_size),
{
    if block_size == 1024 {
        2048
    } else {
        block_size
    }
}

/// Reads `len` bytes at `off` into a new vector.
fn fetch<R: ReadAt>(reader: &R, off: u64, len: usize) -> (r: Result<Vec<u8>, Ext4Error>)
    requires
        len > 0,
    ensures
        r matches Ok(b) ==> b@.len() == len && (reader.transparent() ==> readable(reader.content(), off as int, len as int)
            && b@ == reader.content().subrange(off as int, off + len)),
        r matches Err(e) ==> e@ == Fault::Io && (reader.faultless() ==> !readable(reader.content(), off as int, len as int)),
{
    let mut buf = vec![0u8; len];
    match read_exact_at(reader, off, buf.as_mut_slice()) {
        Ok(()) => Ok(buf),
        Err(e) => Err(Ext4Error::Io(e)),
    }
}

impl<R: ReadAt> Ext4Reader<R> {
    #[verifier::type_invariant]
    spec fn inv(&self) -> bool {
        view_ok(self@)
    }

    /// The model of this reader.
    pub closed spec fn model(&self) -> Ext4View {
        self@
    }

    /// The block size in bytes.
    pub fn block_size(&self) -> (r: u64)
        ensures
            r == self@.block_size,
    {
        self.block_size
    }

    /// The decoded superblock.
    pub fn superblock(&self) -> (r: &Superblock)
        ensures
            *r == self@.sb,
    {
        &self.superblock
    }

    /// Opens the filesystem: reads and checks the superblock, then reads the
    /// group descriptor table.
    pub fn new(reader: R) -> (r: Result<Self, Ext4Error>)
        ensures
            conforms(unit_of(r), open_result(reader.content()), reader.faultless(), reader.transparent()),
            r matches Ok(fs) ==> {
                let v = fs@;
                &&& view_ok(v)
                &&& v.content == reader.content()
                &&& v.faultless == reader.faultless()
                &&& v.transparent == reader.transparent()
                &&& v.gds.len() == group_count_of(v.sb)
                &&& reader.transparent() ==> v.sb.decoded_from(superblock_bytes(reader.content()))
                &&& (reader.transparent() && v.gds.len() > 0 ==> gds_decoded_from(v.gds, reader.content().subrange(
                    gdt_offset_of(v.block_size) as int,
                    gdt_offset_of(v.block_size) + GroupDescriptor::SIZE * v.gds.len(),
                )))
            },
    {
        let superblock = match Self::read_superblock(&reader) {
            Ok(s) => s,
            Err(e) => {
                return Err(e);
            },
        };
        let block_size = block_size_from_log(superblock.s_log_block_size);
        proof {
            lemma_block_size(superblock.s_log_block_size);
        }
        let per_group = superblock.s_blocks_per_group as u64;
        let group_count: u64 = (superblock.s_blocks_count_lo as u64 + per_group - 1) / per_group;
        assert(group_count <= superblock.s_blocks_count_lo + per_group - 1) by (nonlinear_arith)
            requires per_group >= 1, group_count == (superblock.s_blocks_count_lo + per_group - 1) / per_group as int;
        let group_descriptors = match Self::read_group_descriptors(&reader, group_count, block_size) {
            Ok(g) => g,
            Err(e) => {
                return Err(e);
            },
        };
        Ok(Ext4Reader { reader, superblock, group_descriptors, block_size })
    }

    /// Reads the inode record of inode number `inode_num` (1-based).
    fn read_inode(&self, inode_num: u32) -> (r: Result<Inode, Ext4Error>)
        ensures
            conforms(r, inode_result(self@, inode_num), self@.faultless, self@.transparent),
            inode_num == 0 || self@.sb.s_inodes_per_group == 0 || (inode_num - 1) / self@.sb.s_inodes_per_group as int
                >= self@.gds.len() ==> (r matches Err(e) && e@ == Fault::InvalidInode(inode_num)),
            r matches Err(e) ==> e@ == Fault::Io || e@ == Fault::InvalidInode(inode_num),
    {
        proof {
            use_type_invariant(self);
        }
        let per_group = self.superblock.s_inodes_per_group;
        if inode_num == 0 || per_group == 0 {
            return Err(Ext4Error::InvalidInode(inode_num));
        }
        let group = (inode_num - 1) / per_group;
        let index = (inode_num - 1) % per_group;
        if group as usize >= self.group_descriptors.len() {
            return Err(Ext4Error::InvalidInode(inode_num));
        }
        let table = self.group_descriptors[group as usize].bg_inode_table_lo as u64;
        assert(index as u64 * self.superblock.s_inode_size as u64 <= 0xFFFF_FFFFint * 0xFFFFint) by (nonlinear_arith)
            requires index <= 0xFFFF_FFFFint, self.superblock.s_inode_size <= 0xFFFFint;
        let within: u64 = index as u64 * self.superblock.s_inode_size as u64;
        let start = match table.checked_mul(self.block_size) {
            Some(x) => x,
            None => {
                return Err(Ext4Error::Io(io_error(IoErrorKind::UnexpectedEof, "offset out of range")));
            },
        };
        let inode_offset = match start.checked_add(within) {
            Some(x) => x,
            None => {
                return Err(Ext4Error::Io(io_error(IoErrorKind::UnexpectedEof, "offset out of range")));
            },
        };
        let raw = match fetch(&self.reader, inode_offset, Inode::SIZE) {
            Ok(b) => b,
            Err(e) => {
                return Err(e);
            },
        };
        let inode = Inode::parse(raw.as_slice());
        proof {
            lemma_inode_from(inode, raw@);
        }
        Ok(inode)
    }

    /// The flat block list of the extent tree rooted in the inode.
    fn read_extent_blocks(&self, inode: &Inode) -> (r: Result<Vec<u32>, Ext4Error>)
        ensures
            conforms(r, crate::extent::extent_walk(self@.content, self@.block_size as int, inode.i_block@, 0xFFFF), self@.faultless, self@.transparent),
            crate::extent::node_magic(inode.i_block@) != EXTENT_MAGIC || crate::extent::node_depth(inode.i_block@) == 0
                ==> conforms(r, crate::extent::extent_walk(self@.content, self@.block_size as int, inode.i_block@, 0xFFFF), true, true),
    {
        self.read_extent_blocks_recursive(inode.i_block.as_slice(), 0xFFFF)
    }

    /// The data blocks of an inode, from its extent tree or its direct pointers.
    fn read_inode_blocks(&self, inode: &Inode) -> (r: Result<Vec<u32>, Ext4Error>)
        ensures
            conforms(r, inode_blocks(self@, *inode), self@.faultless, self@.transparent),
            !inode.spec_uses_extents() || crate::extent::node_magic(inode.i_block@) != EXTENT_MAGIC
                || crate::extent::node_depth(inode.i_block@) == 0 ==> conforms(r, inode_blocks(self@, *inode), true, true),
    {
        if inode.uses_extents() {
            self.read_extent_blocks(inode)
        } else {
            let mut blocks: Vec<u32> = Vec::new();
            let mut i: usize = 0;
            while i < 12
                invariant
                    i <= 12,
                    direct_count(inode.i_block@, 0) == direct_count(inode.i_block@, i as int),
                    blocks@ == inode.i_block@.subrange(0, i as int),
                ensures
                    blocks@ == inode.i_block@.subrange(0, direct_count(inode.i_block@, 0)),
                decreases 12 - i,
            {
                let b = inode.i_block[i];
                if b == 0 {
                    break;
                }
                blocks.push(b);
                proof {
                    assert(inode.i_block@.subrange(0, i + 1) =~= inode.i_block@.subrange(0, i as int).push(b));
                }
                i = i + 1;
            }
            Ok(blocks)
        }
    }

    /// Walks the extent node `extent_data`, whose depth may be at most `limit`,
    /// and lists the physical blocks below it in logical order.
    fn read_extent_blocks_recursive(&self, extent_data: &[u32], limit: u32) -> (r: Result<Vec<u32>, Ext4Error>)
        requires
            extent_data@.len() >= 2,
        ensures
            conforms(r, crate::extent::extent_walk(self@.content, self@.block_size as int, extent_data@, limit as int), self@.faultless, self@.transparent),
            crate::extent::node_magic(extent_data@) != EXTENT_MAGIC || crate::extent::node_depth(extent_data@) > limit
                || crate::extent::node_depth(extent_data@) == 0 ==> conforms(
                r,
                crate::extent::extent_walk(self@.content, self@.block_size as int, extent_data@, limit as int),
                true,
                true,
            ),
        decreases limit,
    {
        proof {
            use_type_invariant(self);
        }
        let ghost c = self@.content;
        let ghost bs = self@.block_size as int;
        let ghost node = extent_data@;
        let magic = extent_data[0] % 0x10000;
        let entries = extent_data[0] / 0x10000;
        let depth = extent_data[1] / 0x10000;
        if magic != EXTENT_MAGIC || depth > limit {
            return Err(Ext4Error::UnsupportedFeature(EXTENTS));
        }
        let len = extent_data.len();
        let mut blocks: Vec<u32> = Vec::new();
        if depth == 0 {
            let mut i: u32 = 0;
            while i < entries
                invariant
                    i <= entries,
                    entries == crate::extent::node_entries(node),
                    node == extent_data@,
                    len == node.len(),
                    blocks@ == crate::extent::leaf_blocks(node, i as int),
                    crate::extent::leaves_fit(node, i as int),
                    crate::extent::node_magic(node) == EXTENT_MAGIC,
                    crate::extent::node_depth(node) == 0,
                decreases entries - i,
            {
                let base: usize = 3 + 3 * i as usize;
                if base + 2 < len {
                    let length = extent_data[base + 1] % 0x10000;
                    let physical_block_hi = extent_data[base + 1] / 0x10000;
                    let physical_block_lo = extent_data[base + 2];
                    let physical_block: u64 = physical_block_hi as u64 * 0x1_0000_0000 + physical_block_lo as u64;
                    if physical_block + length as u64 > 0x1_0000_0000 {
                        proof {
                            assert(!crate::extent::leaf_fits(node, i as int));
                            assert(!crate::extent::leaves_fit(node, entries as int));
                        }
                        return Err(Ext4Error::UnsupportedFeature(EXTENTS));
                    }
                    let ghost before = blocks@;
                    let mut j: u32 = 0;
                    while j < length
                        invariant
                            j <= length,
                            length == crate::extent::leaf_len(node, i as int),
                            physical_block == crate::extent::leaf_start(node, i as int),
                            physical_block + length <= 0x1_0000_0000,
                            blocks@ == before + crate::extent::leaf_run(node, i as int).subrange(0, j as int),
                            crate::extent::entry_present(node, i as int),
                        decreases length - j,
                    {
                        blocks.push((physical_block + j as u64) as u32);
                        proof {
                            let run = crate::extent::leaf_run(node, i as int);
                            assert(run.subrange(0, j + 1) =~= run.subrange(0, j as int).push(run[j as int]));
                        }
                        j = j + 1;
                    }
                    proof {
                        let run = crate::extent::leaf_run(node, i as int);
                        assert(run.subrange(0, length as int) =~= run);
                        assert(crate::extent::leaf_fits(node, i as int));
                        assert forall|k: int| 0 <= k < i + 1 implies #[trigger] crate::extent::leaf_fits(node, k) by {
                            if k < i {
                                assert(crate::extent::leaves_fit(node, i as int));
                            }
                        }
                    }
                } else {
                    proof {
                        assert(crate::extent::leaf_run(node, i as int) =~= Seq::<u32>::empty());
                        assert(blocks@ + Seq::<u32>::empty() =~= blocks@);
                        assert forall|k: int| 0 <= k < i + 1 implies #[trigger] crate::extent::leaf_fits(node, k) by {
                            if k < i {
                                assert(crate::extent::leaves_fit(node, i as int));
                            }
                        }
                    }
                }
                i = i + 1;
            }
            Ok(blocks)
        } else {
            let child_limit = depth - 1;
            assert(crate::extent::extent_walk(c, bs, node, limit as int) == crate::extent::index_blocks(
                c,
                bs,
                node,
                entries as int,
                child_limit as int,
            ));
            let mut i: u32 = 0;
            while i < entries
                invariant
                    i <= entries,
                    entries == crate::extent::node_entries(node),
                    child_limit == crate::extent::node_depth(node) - 1,
                    child_limit < limit,
                    crate::extent::node_magic(node) == EXTENT_MAGIC,
                    node == extent_data@,
                    len == node.len(),
                    c == self@.content,
                    bs == self@.block_size,
                    view_ok(self@),
                    crate::extent::extent_walk(c, bs, node, limit as int) == crate::extent::index_blocks(
                        c,
                        bs,
                        node,
                        entries as int,
                        child_limit as int,
                    ),
                    self@.transparent ==> crate::extent::index_blocks(c, bs, node, i as int, child_limit as int) == Ok::<Seq<u32>, Fault>(blocks@),
                decreases entries - i,
            {
                let base: usize = 3 + 3 * i as usize;
                if base + 2 < len {
                    let physical_block_lo = extent_data[base + 1];
                    let physical_block_hi = extent_data[base + 2] % 0x10000;
                    let physical_block: u64 = physical_block_hi as u64 * 0x1_0000_0000 + physical_block_lo as u64;
                    assert(physical_block == crate::extent::child_block(node, i as int));
                    let block_offset = match physical_block.checked_mul(self.block_size) {
                        Some(x) => x,
                        None => {
                            proof {
                                if self@.transparent {
                                    assert(crate::extent::index_blocks(c, bs, node, i + 1, child_limit as int) == Err::<Seq<u32>, Fault>(Fault::Io));
                                    crate::extent::lemma_index_error(c, bs, node, i + 1, entries as int, child_limit as int);
                                }
                            }
                            return Err(Ext4Error::Io(io_error(IoErrorKind::UnexpectedEof, "offset out of range")));
                        },
                    };
                    if self.block_size > usize::MAX as u64 {
                        proof {
                            if self@.transparent {
                                assert(crate::extent::index_blocks(c, bs, node, i + 1, child_limit as int) == Err::<Seq<u32>, Fault>(Fault::Io));
                                crate::extent::lemma_index_error(c, bs, node, i + 1, entries as int, child_limit as int);
                            }
                        }
                        return Err(Ext4Error::Io(io_error(IoErrorKind::UnexpectedEof, "offset out of range")));
                    }
                    let block_data = match fetch(&self.reader, block_offset, self.block_size as usize) {
                        Ok(b) => b,
                        Err(e) => {
                            proof {
                                if self@.faultless && self@.transparent {
                                    assert(crate::extent::index_blocks(c, bs, node, i + 1, child_limit as int) == Err::<Seq<u32>, Fault>(Fault::Io));
                                    crate::extent::lemma_index_error(c, bs, node, i + 1, entries as int, child_limit as int);
                                }
                            }
                            return Err(e);
                        },
                    };
                    let u32_data = words_of(&block_data);
                    proof {
                        if self@.transparent {
                            lemma_words_sub(c, block_offset as int, bs);
                            assert(u32_data@ == crate::extent::node_at(c, block_offset as int, bs));
                        }
                    }
                    let mut sub_blocks = match self.read_extent_blocks_recursive(u32_data.as_slice(), child_limit) {
                        Ok(b) => b,
                        Err(e) => {
                            proof {
                                if self@.transparent && !(e@ == Fault::Io && !self@.faultless) {
                                    assert(crate::extent::index_blocks(c, bs, node, i + 1, child_limit as int) == Err::<Seq<u32>, Fault>(e@));
                                    crate::extent::lemma_index_error(c, bs, node, i + 1, entries as int, child_limit as int);
                                }
                            }
                            return Err(e);
                        },
                    };
                    blocks.append(&mut sub_blocks);
                }
                i = i + 1;
            }
            Ok(blocks)
        }
    }

    /// Reads directory block `block_num` and appends its used records.
    fn read_directory_block(&self, block_num: u32, size: u64, entries: &mut Vec<DirEntry>) -> (r: Result<(), Ext4Error>)
        ensures
            self@.transparent && r is Ok ==> dir_block_result(self@, block_num, size as int) is Ok && crate::dir::views(final(entries)@)
                == crate::dir::views(old(entries)@) + dir_block_result(self@, block_num, size as int)->Ok_0,
            self@.transparent ==> (r matches Err(e) ==> (e@ == Fault::Io && !self@.faultless) || dir_block_result(self@, block_num, size as int)
                == Err::<Seq<DirEntryView>, Fault>(e@)),
            r is Err ==> final(entries)@ == old(entries)@,
    {
        proof {
            use_type_invariant(self);
        }
        let block_offset = match (block_num as u64).checked_mul(self.block_size) {
            Some(x) => x,
            None => {
                return Err(Ext4Error::Io(io_error(IoErrorKind::UnexpectedEof, "offset out of range")));
            },
        };
        if self.block_size > usize::MAX as u64 {
            return Err(Ext4Error::Io(io_error(IoErrorKind::UnexpectedEof, "offset out of range")));
        }
        let block_data = match fetch(&self.reader, block_offset, self.block_size as usize) {
            Ok(b) => b,
            Err(e) => {
                return Err(e);
            },
        };
        let mut found: Vec<DirEntry> = Vec::new();
        match parse_directory_block(block_data.as_slice(), size, &mut found) {
            Ok(()) => {},
            Err(e) => {
                return Err(e);
            },
        }
        let ghost before = entries@;
        let ghost parsed = found@;
        entries.append(&mut found);
        proof {
            assert(crate::dir::views(Seq::<DirEntry>::empty()) =~= Seq::<DirEntryView>::empty());
            assert(Seq::<DirEntryView>::empty() + crate::dir::views(parsed) =~= crate::dir::views(parsed));
            assert(crate::dir::views(entries@) =~= crate::dir::views(before) + crate::dir::views(parsed));
        }
        Ok(())
    }

    /// Reads the used records of every data block of a directory inode.
    fn read_directory_entries(&self, inode: &Inode) -> (r: Result<Vec<DirEntry>, Ext4Error>)
        ensures
            entries_conform(r, dir_entries_result(self@, *inode), self@.faultless, self@.transparent),
    {
        let mut entries: Vec<DirEntry> = Vec::new();
        let size = inode.size();
        let blocks = match self.read_inode_blocks(inode) {
            Ok(b) => b,
            Err(e) => {
                return Err(e);
            },
        };
        let ghost bl = blocks@;
        let n = blocks.len();
        let mut k: usize = 0;
        assert(crate::dir::views(entries@) =~= Seq::<DirEntryView>::empty());
        while k < n
            invariant
                n == bl.len(),
                bl == blocks@,
                k <= n,
                size == inode.spec_size(),
                self@.transparent ==> inode_blocks(self@, *inode) == Ok::<Seq<u32>, Fault>(bl),
                self@.transparent ==> blocks_records(self@, bl, size as int, k as int) == Ok::<Seq<DirEntryView>, Fault>(crate::dir::views(entries@)),
            decreases n - k,
        {
            match self.read_directory_block(blocks[k], size, &mut entries) {
                Ok(()) => {},
                Err(e) => {
                    proof {
                        if self@.transparent && !(e@ == Fault::Io && !self@.faultless) {
                            lemma_blocks_error(self@, bl, size as int, k + 1, n as int);
                        }
                    }
                    return Err(e);
                },
            }
            k = k + 1;
        }
        Ok(entries)
    }

    /// Resolves a slash-separated path from the root directory.
    fn find_inode_by_path(&self, path: &str) -> (r: Result<u32, Ext4Error>)
        ensures
            conforms(r, find_result(self@, path@), self@.faultless, self@.transparent),
            path@ == seq!['/'] ==> (r matches Ok(n) && n == EXT4_ROOT_INO),
    {
        let pc = chars_of(path);
        if pc.len() == 1 && pc[0] == '/' {
            assert(path@ =~= seq!['/']);
            return Ok(EXT4_ROOT_INO);
        }
        assert(path@ != seq!['/']);
        let comps = path_components(pc.as_slice());
        let ghost cv = crate::path::char_views(comps@);
        let mut current_inode = EXT4_ROOT_INO;
        let mut i: usize = 0;
        while i < comps.len()
            invariant
                cv == crate::path::char_views(comps@),
                cv == crate::path::components(path@),
                path@ != seq!['/'],
                i <= comps@.len(),
                self@.transparent ==> find_result(self@, path@) == walk(self@, path@, cv, i as int, current_inode),
            decreases comps@.len() - i,
        {
            let inode = match self.read_inode(current_inode) {
                Ok(x) => x,
                Err(e) => {
                    return Err(e);
                },
            };
            assert(comps@[i as int]@ == cv[i as int]);
            if !inode.is_dir() {
                let component = text_of(comps[i].as_slice());
                return Err(Ext4Error::FileNotFound(join_text(NOT_A_DIRECTORY_COMPONENT, component.as_str())));
            }
            let entries = match self.read_directory_entries(&inode) {
                Ok(x) => x,
                Err(e) => {
                    return Err(e);
                },
            };
            match crate::dir::find_named(&entries, comps[i].as_slice()) {
                Some(n) => {
                    current_inode = n;
                },
                None => {
                    return Err(Ext4Error::FileNotFound(join_text(PATH_NOT_FOUND, path)));
                },
            }
            i = i + 1;
        }
        Ok(current_inode)
    }

    /// Whether `path` names anything.
    pub fn path_exists(&self, path: &str) -> (r: bool)
        ensures
            self@.transparent && r ==> find_result(self@, path@) is Ok,
            self@.faultless && self@.transparent ==> (r <==> find_result(self@, path@) is Ok),
            path@ == seq!['/'] ==> r,
    {
        self.find_inode_by_path(path).is_ok()
    }

    /// File type, size and mode of what `path` names; `None` on any error.
    pub fn metadata(&self, path: &str) -> (r: Option<Metadata>)
        ensures
            self@.transparent && r is Some ==> r == metadata_result(self@, path@),
            self@.faultless && self@.transparent ==> r == metadata_result(self@, path@),
    {
        let inode_num = match self.find_inode_by_path(path) {
            Ok(n) => n,
            Err(_) => {
                return None;
            },
        };
        let inode = match self.read_inode(inode_num) {
            Ok(i) => i,
            Err(_) => {
                return None;
            },
        };
        let is_file = inode.is_file();
        let is_dir = inode.is_dir();
        let size = inode.size();
        Some(Metadata { is_file, is_dir, size, mode: inode.i_mode })
    }

    /// Reads up to `length` bytes of the file `inode` from byte `start`,
    /// block by block.
    pub(crate) fn read_file_data_range(&self, inode: &Inode, start: u64, length: usize) -> (r: Result<Vec<u8>, Ext4Error>)
        ensures
            conforms(r, range_result(self@, *inode, start as int, length as int), self@.faultless, self@.transparent),
            r matches Ok(d) ==> d@.len() <= length && (d@.len() == 0 || start + d@.len() <= inode.spec_size()),
            start >= inode.spec_size() || length == 0 ==> (r matches Ok(d) && d@.len() == 0),
    {
        proof {
            use_type_invariant(self);
        }
        let file_size = inode.size();
        if start >= file_size || length == 0 {
            return Ok(Vec::new());
        }
        let blocks = match self.read_inode_blocks(inode) {
            Ok(b) => b,
            Err(e) => {
                return Err(e);
            },
        };
        let ghost bl = blocks@;
        let ghost c = self@.content;
        let bs = self.block_size;
        let actual_length: u64 = if (length as u64) < file_size - start {
            length as u64
        } else {
            file_size - start
        };
        let ghost stop = range_stop(file_size as int, bl.len() as int, bs as int, start as int, length as int);
        let mut data: Vec<u8> = Vec::new();
        let mut pos: u64 = start;
        let mut remaining: u64 = actual_length;
        let nblocks = blocks.len() as u64;
        while remaining > 0
            invariant
                bl == blocks@,
                c == self@.content,
                bs == self@.block_size,
                view_ok(self@),
                nblocks == bl.len(),
                bl.len() <= usize::MAX,
                start <= pos,
                pos + remaining == start + actual_length,
                actual_length <= length,
                actual_length == vstd::math::min(length as int, file_size - start),
                start >= nblocks * bs || pos <= nblocks * bs,
                pos > start ==> pos <= nblocks * bs,
                self@.transparent && pos > start ==> forall|p: int| start <= p < pos ==> #[trigger] addr_of(bl, bs as int, p) < c.len()
                    && addr_of(bl, bs as int, p) < u64::MAX,
                data@.len() == pos - start,
                self@.transparent ==> data@ == Seq::new((pos - start) as nat, |i: int| c[addr_of(bl, bs as int, start + i)]),
                stop == range_stop(file_size as int, bl.len() as int, bs as int, start as int, length as int),
                file_size == inode.spec_size(),
                start < file_size,
                length > 0,
                self@.transparent ==> inode_blocks(self@, *inode) == Ok::<Seq<u32>, Fault>(bl),
            ensures
                remaining == 0 || pos >= nblocks * bs,
                start >= nblocks * bs || pos <= nblocks * bs,
                pos > start ==> pos <= nblocks * bs,
                start <= pos,
                pos + remaining == start + actual_length,
                self@.transparent && pos > start ==> forall|p: int| start <= p < pos ==> #[trigger] addr_of(bl, bs as int, p) < c.len()
                    && addr_of(bl, bs as int, p) < u64::MAX,
                data@.len() == pos - start,
                self@.transparent ==> data@ == Seq::new((pos - start) as nat, |i: int| c[addr_of(bl, bs as int, start + i)]),
            decreases remaining,
        {
            let block_idx = pos / bs;
            proof {
                crate::read_at::lemma_index_bound(pos as int, bs as int, nblocks as int);
            }
            if block_idx >= nblocks {
                break;
            }
            let skip_bytes = pos % bs;
            let read_size: u64 = if bs - skip_bytes < remaining {
                bs - skip_bytes
            } else {
                remaining
            };
            let block_num = blocks[block_idx as usize];
            proof {
                assert(block_num == bl[(pos / bs) as int]);
            }
            let fail = Ext4Error::Io(io_error(IoErrorKind::UnexpectedEof, "offset out of range"));
            let block_offset = match (block_num as u64).checked_mul(bs) {
                Some(x) => x,
                None => {
                    proof {
                        if self@.transparent {
                            self.lemma_unreadable_at(bl, pos as int, start as int, stop);
                        }
                    }
                    return Err(fail);
                },
            };
            let at = match block_offset.checked_add(skip_bytes) {
                Some(x) => x,
                None => {
                    proof {
                        if self@.transparent {
                            self.lemma_unreadable_at(bl, pos as int, start as int, stop);
                        }
                    }
                    return Err(fail);
                },
            };
            proof {
                crate::read_at::lemma_block_span(pos as int, bs as int, read_size as int);
                assert((pos / bs + 1) * bs <= nblocks * bs) by (nonlinear_arith)
                    requires pos / bs + 1 <= nblocks, bs > 0;
            }
            let mut block_data = match fetch(&self.reader, at, read_size as usize) {
                Ok(b) => b,
                Err(e) => {
                    proof {
                        if self@.faultless && self@.transparent {
                            self.lemma_unreadable_segment(bl, pos as int, read_size as int, start as int, stop);
                        }
                    }
                    return Err(e);
                },
            };
            proof {
                if self@.transparent {
                assert forall|p: int| pos <= p < pos + read_size implies #[trigger] addr_of(bl, bs as int, p) == at + (p
                    - pos) by {
                    crate::read_at::lemma_in_block(pos as int, bs as int, p - pos);
                }
                }
            }
            data.append(&mut block_data);
            proof {
                if self@.transparent {
                    assert(data@ =~= Seq::new(((pos + read_size) - start) as nat, |i: int| c[addr_of(bl, bs as int, start + i)]));
                }
            }
            pos = pos + read_size;
            remaining = remaining - read_size;
        }
        proof {
            if self@.transparent {
                if pos > start {
                    assert(stop == pos);
                    assert(data@ =~= Seq::new((stop - start) as nat, |i: int| c[addr_of(bl, bs as int, start + i)]));
                } else {
                    assert(start >= stop);
                    assert(data@ =~= Seq::<u8>::empty());
                }
            }
        }
        Ok(data)
    }

    proof fn lemma_unreadable_at(&self, bl: Seq<u32>, pos: int, start: int, stop: int)
        requires
            start <= pos < stop,
            self@.block_size > 0,
            addr_of(bl, self@.block_size as int, pos) > u64::MAX,
        ensures
            !(forall|p: int| start <= p < stop ==> #[trigger] addr_of(bl, self@.block_size as int, p) < self@.content.len()
                && addr_of(bl, self@.block_size as int, p) < u64::MAX),
    {
    }

    proof fn lemma_unreadable_segment(&self, bl: Seq<u32>, pos: int, n: int, start: int, stop: int)
        requires
            0 <= start <= pos,
            pos + n <= stop,
            n > 0,
            self@.block_size > 0,
            pos % (self@.block_size as int) + n <= self@.block_size,
            !readable(self@.content, addr_of(bl, self@.block_size as int, pos), n),
            n <= usize::MAX,
        ensures
            !(forall|p: int| start <= p < stop ==> #[trigger] addr_of(bl, self@.block_size as int, p) < self@.content.len()
                && addr_of(bl, self@.block_size as int, p) < u64::MAX),
    {
        let bs = self@.block_size as int;
        let last = pos + n - 1;
        crate::read_at::lemma_in_block(pos, bs, n - 1);
        assert(addr_of(bl, bs, last) == addr_of(bl, bs, pos) + n - 1);
    }

    /// Lists the directory that `path` names, sorted by name, without `.`
    /// and `..`.
    pub fn read_dir(&self, path: &str) -> (r: Result<DirectoryIterator, Ext4Error>)
        ensures
            r matches Ok(it) ==> it@.index == 0 && crate::listing::sorted_by_name(it@.entries) && forall|i: int|
                0 <= i < it@.entries.len() ==> !is_dot_name(#[trigger] it@.entries[i].name),
            self@.faultless && self@.transparent ==> (r matches Ok(it) ==> read_dir_result(self@, path@) == Ok::<
                Seq<DirectoryEntryView>,
                Fault,
            >(it@.entries)),
            self@.transparent ==> (r matches Err(e) ==> (e@ == Fault::Io && !self@.faultless) || read_dir_result(self@, path@) == Err::<
                Seq<DirectoryEntryView>,
                Fault,
            >(e@)),
    {
        let inode_num = match self.find_inode_by_path(path) {
            Ok(n) => n,
            Err(e) => {
                return Err(e);
            },
        };
        let inode = match self.read_inode(inode_num) {
            Ok(i) => i,
            Err(e) => {
                return Err(e);
            },
        };
        if !inode.is_dir() {
            return Err(Ext4Error::FileNotFound(join_text(path, IS_NOT_A_DIRECTORY)));
        }
        let entries = match self.read_directory_entries(&inode) {
            Ok(es) => es,
            Err(e) => {
                return Err(e);
            },
        };
        let ghost es = crate::dir::views(entries@);
        let pc = chars_of(path);
        let at_root = pc.len() == 1 && pc[0] == '/';
        assert(at_root == (path@ == seq!['/'])) by {
            if pc@.len() == 1 && pc@[0] == '/' {
                assert(path@ =~= seq!['/']);
            }
        }
        let slash = "/";
        proof {
            reveal_strlit("/");
        }
        let mut dir_entries: Vec<DirectoryEntry> = Vec::new();
        let mut k: usize = 0;
        while k < entries.len()
            invariant
                es == crate::dir::views(entries@),
                k <= entries@.len(),
                at_root == (path@ == seq!['/']),
                slash@ == seq!['/'],
                forall|i: int|
                    0 <= i < dir_entries@.len() ==> !is_dot_name(#[trigger] dir_entries@[i].name@),
                self@.faultless && self@.transparent ==> crate::listing::entry_views(dir_entries@) == listing_of(self@, path@, es, k as int),
            decreases entries@.len() - k,
        {
            let entry = &entries[k];
            assert(entry@ == es[k as int]);
            let nc = chars_of(entry.name.as_str());
            let is_dot = (nc.len() == 1 && nc[0] == '.') || (nc.len() == 2 && nc[0] == '.' && nc[1] == '.');
            assert(is_dot == is_dot_name(es[k as int].name)) by {
                if nc@.len() == 1 && nc@[0] == '.' {
                    assert(nc@ =~= seq!['.']);
                }
                if nc@.len() == 2 && nc@[0] == '.' && nc@[1] == '.' {
                    assert(nc@ =~= seq!['.', '.']);
                }
            }
            if !is_dot {
                let entry_path = if at_root {
                    join_text(slash, entry.name.as_str())
                } else {
                    let prefix = join_text(path, slash);
                    join_text(prefix.as_str(), entry.name.as_str())
                };
                let is_dir = entry.file_type == EXT4_FT_DIR;
                let is_file = entry.file_type == EXT4_FT_REG_FILE;
                let size = if is_file {
                    match self.read_inode(entry.inode) {
                        Ok(file_inode) => file_inode.size(),
                        Err(_) => 0,
                    }
                } else {
                    0
                };
                let ghost before = dir_entries@;
                let d = DirectoryEntry { name: entry.name.clone(), path: entry_path, is_file, is_dir, size };
                dir_entries.push(d);
                proof {
                    assert(crate::listing::entry_views(dir_entries@) =~= crate::listing::entry_views(before).push(d@));
                    assert(d@.path == child_path(path@, es[k as int].name));
                }
            }
            k = k + 1;
        }
        assert(es.len() == entries@.len());
        let sorted = sort_entries(dir_entries);
        proof {
            let l = crate::listing::entry_views(dir_entries@);
            crate::listing::lemma_sort_sorted(l);
            crate::listing::lemma_sort_members(l);
            assert forall|i: int| 0 <= i < crate::listing::sort_by_name(l).len() implies !is_dot_name(
                #[trigger] crate::listing::sort_by_name(l)[i].name,
            ) by {
                assert(l.contains(crate::listing::sort_by_name(l)[i]));
                let j = choose|j: int| 0 <= j < l.len() && l[j] == crate::listing::sort_by_name(l)[i];
                assert(l[j].name == dir_entries@[j].name@);
            }
        }
        Ok(DirectoryIterator::new(sorted))
    }

    /// Opens the regular file that `path` names, with its cursor at 0.
    pub fn open(&self, path: &str) -> (r: Result<Ext4FileReader<'_, R>, Ext4Error>)
        ensures
            r matches Ok(f) ==> f@.fs == self@ && f@.position == 0,
            self@.transparent ==> match r {
                Ok(f) => open_file_result(self@, path@) == Ok::<Inode, Fault>(f@.inode),
                Err(e) => (e@ == Fault::Io && !self@.faultless) || open_file_result(self@, path@) == Err::<Inode, Fault>(
                    e@,
                ),
            },
    {
        let inode_num = match self.find_inode_by_path(path) {
            Ok(n) => n,
            Err(e) => {
                return Err(e);
            },
        };
        let inode = match self.read_inode(inode_num) {
            Ok(i) => i,
            Err(e) => {
                return Err(e);
            },
        };
        if !inode.is_file() {
            return Err(Ext4Error::FileNotFound(join_text(path, IS_NOT_A_REGULAR_FILE)));
        }
        Ok(Ext4FileReader::new(self, inode))
    }

    /// Reads the superblock at offset 1024 and checks it.
    fn read_superblock(reader: &R) -> (r: Result<Superblock, Ext4Error>)
        ensures
            r matches Ok(s) ==> superblock_ok(s),
            reader.transparent() ==> match r {
                Ok(s) => readable(reader.content(), 1024, Superblock::SIZE as int) && s.decoded_from(
                    superblock_bytes(reader.content()),
                ),
                Err(e) => match open_result(reader.content()) {
                    Err(f) => e@ == f || e@ == Fault::Io && !reader.faultless(),
                    Ok(_) => e@ == Fault::Io && !reader.faultless(),
                },
            },
            reader.transparent() && r is Ok ==> superblock_fault(superblock_bytes(reader.content())) is None,
            reader.transparent() ==> (r matches Err(e) ==> (e@ == Fault::Io && (!reader.faultless() || !readable(
                reader.content(),
                1024,
                Superblock::SIZE as int,
            ))) || (readable(reader.content(), 1024, Superblock::SIZE as int) && superblock_fault(
                superblock_bytes(reader.content()),
            ) == Some(e@))),
    {
        let raw = match fetch(reader, SUPERBLOCK_OFFSET, Superblock::SIZE) {
            Ok(b) => b,
            Err(e) => {
                return Err(e);
            },
        };
        let s = Superblock::parse(raw.as_slice());
        assert(reader.transparent() ==> raw@ == superblock_bytes(reader.content()));
        if s.s_magic != EXT4_SUPER_MAGIC {
            return Err(Ext4Error::InvalidSuperblock);
        }
        if s.s_blocks_per_group == 0 {
            return Err(Ext4Error::InvalidBlockGroups);
        }
        Ok(s)
    }

    /// Reads `group_count` consecutive descriptors at the table's offset.
    fn read_group_descriptors(reader: &R, group_count: u64, block_size: u64) -> (r: Result<
        Vec<GroupDescriptor>,
        Ext4Error,
    >)
        requires
            group_count <= 0x2_0000_0000,
        ensures
            match r {
                Ok(g) => g@.len() == group_count && (reader.transparent() && group_count > 0 ==> readable(
                    reader.content(),
                    gdt_offset_of(block_size) as int,
                    GroupDescriptor::SIZE * group_count,
                ) && gds_decoded_from(g@, reader.content().subrange(
                    gdt_offset_of(block_size) as int,
                    gdt_offset_of(block_size) + GroupDescriptor::SIZE * group_count,
                ))) && GroupDescriptor::SIZE * group_count <= usize::MAX,
                Err(e) => e@ == Fault::Io && (reader.faultless() ==> !(readable(
                    reader.content(),
                    gdt_offset_of(block_size) as int,
                    GroupDescriptor::SIZE * group_count,
                ) && GroupDescriptor::SIZE * group_count <= usize::MAX)) && group_count > 0,
            },
    {
        let gdt_offset = gdt_offset_for(block_size);
        let total: u64 = group_count * 64;
        if total > usize::MAX as u64 {
            return Err(Ext4Error::Io(io_error(IoErrorKind::UnexpectedEof, "offset out of range")));
        }
        let n = group_count as usize;
        let mut descriptors: Vec<GroupDescriptor> = Vec::new();
        if n == 0 {
            return Ok(descriptors);
        }
        let raw = match fetch(reader, gdt_offset, total as usize) {
            Ok(b) => b,
            Err(e) => {
                return Err(e);
            },
        };
        let mut i: usize = 0;
        while i < n
            invariant
                i <= n,
                n == group_count,
                raw@.len() == 64 * n,
                64 * n <= usize::MAX,
                descriptors@.len() == i,
                forall|j: int|
                    0 <= j < i ==> #[trigger] descriptors@[j].decoded_from(
                        raw@.subrange(GroupDescriptor::SIZE * j, GroupDescriptor::SIZE * j + GroupDescriptor::SIZE),
                    ),
            decreases n - i,
        {
            let at: usize = 64 * i;
            let d = GroupDescriptor::parse(&raw.as_slice()[at..at + 64]);
            assert(raw@.subrange(at as int, at + 64) == raw@.subrange(
                GroupDescriptor::SIZE * i,
                GroupDescriptor::SIZE * i + GroupDescriptor::SIZE,
            ));
            descriptors.push(d);
            i = i + 1;
        }
        proof {
            let c = reader.content();
            let base = gdt_offset as int;
            if reader.transparent() {
            assert forall|j: int| 0 <= j < n implies #[trigger] descriptors@[j].decoded_from(
                c.subrange(base, base + GroupDescriptor::SIZE * group_count).subrange(
                    GroupDescriptor::SIZE * j,
                    GroupDescriptor::SIZE * j + GroupDescriptor::SIZE,
                ),
            ) by {
                assert(raw@.subrange(GroupDescriptor::SIZE * j, GroupDescriptor::SIZE * j + GroupDescriptor::SIZE)
                    =~= c.subrange(base, base + GroupDescriptor::SIZE * group_count).subrange(
                    GroupDescriptor::SIZE * j,
                    GroupDescriptor::SIZE * j + GroupDescriptor::SIZE,
                ));
            }
            }
        }
        Ok(descriptors)
    }
}

} // verus!
