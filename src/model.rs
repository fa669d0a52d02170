//! The model of an ext4 image: what each read-only query yields, as spec
//! functions over the image bytes, and the laws that relate them.
use vstd::prelude::*;
use crate::dir::DirEntryView;
use crate::error::Fault;
use crate::ext4::Metadata;
use crate::listing::DirectoryEntryView;
use crate::structs::{GroupDescriptor, Inode, Superblock, EXT4_FT_DIR, EXT4_FT_REG_FILE, EXT4_ROOT_INO, EXT4_SUPER_MAGIC};

verus! {

/// The `len` bytes at `off` can be read: they lie inside the content and
/// their offsets fit in 64 bits.
pub open spec fn readable(c: Seq<u8>, off: int, len: int) -> bool {
    0 <= off && off + len <= c.len() && off + len <= u64::MAX && len <= usize::MAX
}

/// Offset of the superblock.
pub const SUPERBLOCK_OFFSET: u64 = 1024;

/// The superblock bytes of a filesystem image.
pub open spec fn superblock_bytes(c: Seq<u8>) -> Seq<u8> {
    c.subrange(1024, 1024 + Superblock::SIZE)
}

/// The block size that `s_log_block_size` gives: `1024 << log`, or 1024 when
/// the shift is out of range.
pub open spec fn block_size_of(log: u32) -> u64 {
    if log < 32 {
        (1024u64 << log) as u64
    } else {
        1024
    }
}

/// The number of block groups: `ceil(blocks / blocks_per_group)`.
pub open spec fn group_count_of(sb: Superblock) -> int {
    (sb.s_blocks_count_lo + sb.s_blocks_per_group - 1) / sb.s_blocks_per_group as int
}

/// Where the group descriptor table starts.
pub open spec fn gdt_offset_of(block_size: u64) -> u64 {
    if block_size == 1024 {
        2048
    } else {
        block_size
    }
}

/// The superblock is accepted: right magic, blocks in each group.
pub open spec fn superblock_ok(sb: Superblock) -> bool {
    sb.s_magic == EXT4_SUPER_MAGIC && sb.s_blocks_per_group > 0
}

/// What is wrong with the superblock bytes `b`, if anything: a bad magic, or
/// no blocks per group (the group count would be undefined).
pub open spec fn superblock_fault(b: Seq<u8>) -> Option<Fault> {
    if crate::bytes::le16(b, 56) != EXT4_SUPER_MAGIC {
        Some(Fault::InvalidSuperblock)
    } else if crate::bytes::le32(b, 32) == 0 {
        Some(Fault::InvalidBlockGroups)
    } else {
        None
    }
}

/// The ghost picture of a reader: the image bytes, whether the image reader
/// is faultless and transparent (see `ReadAt`), the superblock, the group
/// descriptors, the block size.
pub struct Ext4View {
    pub content: Seq<u8>,
    pub faultless: bool,
    pub transparent: bool,
    pub sb: Superblock,
    pub gds: Seq<GroupDescriptor>,
    pub block_size: u64,
}

/// The descriptors `gds` are decoded from `b`, one per 64 bytes.
pub open spec fn gds_decoded_from(gds: Seq<GroupDescriptor>, b: Seq<u8>) -> bool {
    forall|i: int|
        0 <= i < gds.len() ==> #[trigger] gds[i].decoded_from(
            b.subrange(GroupDescriptor::SIZE * i, GroupDescriptor::SIZE * i + GroupDescriptor::SIZE),
        )
}

/// What opening a filesystem image yields, by the model.
pub open spec fn open_result(c: Seq<u8>) -> Result<(), Fault> {
    if !readable(c, 1024, Superblock::SIZE as int) {
        Err(Fault::Io)
    } else if superblock_fault(superblock_bytes(c)) is Some {
        Err(superblock_fault(superblock_bytes(c))->Some_0)
    } else {
        let blocks = crate::bytes::le32(superblock_bytes(c), 4);
        let per_group = crate::bytes::le32(superblock_bytes(c), 32);
        let log = crate::bytes::le32(superblock_bytes(c), 24) as u32;
        let count = (blocks + per_group - 1) / per_group;
        let at = gdt_offset_of(block_size_of(log));
        if count == 0 || readable(c, at as int, GroupDescriptor::SIZE * count) && GroupDescriptor::SIZE
            * count <= usize::MAX {
            Ok(())
        } else {
            Err(Fault::Io)
        }
    }
}

/// The inode record that the bytes `b` hold.
pub open spec fn inode_from(b: Seq<u8>) -> Inode {
    choose|i: Inode| #[trigger] i.decoded_from(b)
}

/// A record is decoded from its bytes in one way only.
pub proof fn lemma_inode_from(i: Inode, b: Seq<u8>)
    requires
        i.decoded_from(b),
    ensures
        inode_from(b) == i,
{
    let j = inode_from(b);
    assert(j.decoded_from(b));
    assert(j.i_block =~= i.i_block);
}

/// The inode record that inode number `n` names, by the model.
pub open spec fn inode_result(v: Ext4View, n: u32) -> Result<Inode, Fault> {
    if n == 0 || v.sb.s_inodes_per_group == 0 {
        Err(Fault::InvalidInode(n))
    } else {
        let group = (n - 1) / v.sb.s_inodes_per_group as int;
        let index = (n - 1) % v.sb.s_inodes_per_group as int;
        if group >= v.gds.len() {
            Err(Fault::InvalidInode(n))
        } else {
            let off = v.gds[group].bg_inode_table_lo * v.block_size + index * v.sb.s_inode_size;
            if readable(v.content, off, Inode::SIZE as int) {
                Ok(inode_from(v.content.subrange(off, off + Inode::SIZE)))
            } else {
                Err(Fault::Io)
            }
        }
    }
}

impl View for Inode {
    type V = Inode;

    open spec fn view(&self) -> Inode {
        *self
    }
}

/// The direct block pointers of a non-extent inode: the first twelve words of
/// `i_block`, cut at the first zero.
pub open spec fn direct_count(w: Seq<u32>, i: int) -> int
    decreases 12 - i,
{
    if i >= 12 || w[i] == 0 {
        i
    } else {
        direct_count(w, i + 1)
    }
}

/// The data blocks of an inode in logical order, by the model.
pub open spec fn inode_blocks(v: Ext4View, inode: Inode) -> Result<Seq<u32>, Fault> {
    if inode.spec_uses_extents() {
        crate::extent::extent_walk(v.content, v.block_size as int, inode.i_block@, 0xFFFF)
    } else {
        Ok(inode.i_block@.subrange(0, direct_count(inode.i_block@, 0)))
    }
}

/// The used records of directory block `block`, by the model.
pub open spec fn dir_block_result(v: Ext4View, block: u32, size: int) -> Result<Seq<DirEntryView>, Fault> {
    let off = block * v.block_size;
    if !readable(v.content, off, v.block_size as int) {
        Err(Fault::Io)
    } else {
        crate::dir::dir_records(v.content.subrange(off, off + v.block_size), size, 0)
    }
}

/// The used records of the first `k` blocks of `bl`, in order.
pub open spec fn blocks_records(v: Ext4View, bl: Seq<u32>, size: int, k: int) -> Result<Seq<DirEntryView>, Fault>
    decreases k,
{
    if k <= 0 {
        Ok(Seq::empty())
    } else {
        match blocks_records(v, bl, size, k - 1) {
            Err(e) => Err(e),
            Ok(acc) => match dir_block_result(v, bl[k - 1], size) {
                Err(e) => Err(e),
                Ok(x) => Ok(acc + x),
            },
        }
    }
}

pub proof fn lemma_blocks_error(v: Ext4View, bl: Seq<u32>, size: int, i: int, k: int)
    requires
        0 <= i <= k,
        blocks_records(v, bl, size, i) is Err,
    ensures
        blocks_records(v, bl, size, k) == blocks_records(v, bl, size, i),
    decreases k - i,
{
    if k > i {
        lemma_blocks_error(v, bl, size, i, k - 1);
    }
}

/// The used records of a directory inode, block by block, by the model.
pub open spec fn dir_entries_result(v: Ext4View, inode: Inode) -> Result<Seq<DirEntryView>, Fault> {
    match inode_blocks(v, inode) {
        Err(e) => Err(e),
        Ok(bl) => blocks_records(v, bl, inode.spec_size() as int, bl.len() as int),
    }
}

/// Text of the error for a path component that is not a directory.
pub const NOT_A_DIRECTORY_COMPONENT: &'static str = "Path component is not a directory: ";
/// Text of the error for a path that names nothing.
pub const PATH_NOT_FOUND: &'static str = "Path not found: ";
/// Text after the path when a listing is asked of a non-directory.
pub const IS_NOT_A_DIRECTORY: &'static str = " is not a directory";
/// Text after the path when a non-file is opened.
pub const IS_NOT_A_REGULAR_FILE: &'static str = " is not a regular file";

/// Resolves `comps[i..]` starting from inode `cur`, by the model.
pub open spec fn walk(v: Ext4View, path: Seq<char>, comps: Seq<Seq<char>>, i: int, cur: u32) -> Result<u32, Fault>
    decreases comps.len() - i,
{
    if i < 0 || i >= comps.len() {
        Ok(cur)
    } else {
        match inode_result(v, cur) {
            Err(e) => Err(e),
            Ok(ino) => if !ino.spec_is_dir() {
                Err(Fault::FileNotFound(NOT_A_DIRECTORY_COMPONENT@ + comps[i]))
            } else {
                match dir_entries_result(v, ino) {
                    Err(e) => Err(e),
                    Ok(es) => match crate::dir::first_named(es, comps[i], 0) {
                        None => Err(Fault::FileNotFound(PATH_NOT_FOUND@ + path)),
                        Some(n) => walk(v, path, comps, i + 1, n),
                    },
                }
            },
        }
    }
}

/// The inode number that `path` names, by the model: `/` is the root,
/// anything else is walked component by component from the root.
pub open spec fn find_result(v: Ext4View, path: Seq<char>) -> Result<u32, Fault> {
    if path == seq!['/'] {
        Ok(EXT4_ROOT_INO)
    } else {
        walk(v, path, crate::path::components(path), 0, EXT4_ROOT_INO)
    }
}

/// The metadata of the inode `ino`.
pub open spec fn metadata_of(ino: Inode) -> Metadata {
    Metadata { is_file: ino.spec_is_file(), is_dir: ino.spec_is_dir(), size: ino.spec_size(), mode: ino.i_mode }
}

/// The metadata of what `path` names, by the model; `None` on any error.
pub open spec fn metadata_result(v: Ext4View, path: Seq<char>) -> Option<Metadata> {
    match find_result(v, path) {
        Ok(n) => match inode_result(v, n) {
            Ok(ino) => Some(metadata_of(ino)),
            Err(_) => None,
        },
        Err(_) => None,
    }
}

/// Byte offset in the image of logical byte `p` of a file whose blocks are `bl`.
pub open spec fn addr_of(bl: Seq<u32>, block_size: int, p: int) -> int {
    bl[p / block_size] * block_size + p % block_size
}

/// Where a read of `len` bytes at `start` ends: at the end of the file, of the
/// request, or of the mapped blocks, whichever comes first.
pub open spec fn range_stop(size: int, blocks: int, block_size: int, start: int, len: int) -> int {
    vstd::math::min(start + vstd::math::min(len, size - start), blocks * block_size)
}

/// The file bytes `[start, start + len)` of `inode`, by the model: cut at the
/// end of the file and of its mapped blocks; an I/O error where a byte lies
/// outside the image.
pub open spec fn range_result(v: Ext4View, inode: Inode, start: int, len: int) -> Result<Seq<u8>, Fault> {
    let size = inode.spec_size() as int;
    let bs = v.block_size as int;
    if start >= size || len <= 0 {
        Ok(Seq::empty())
    } else {
        match inode_blocks(v, inode) {
            Err(e) => Err(e),
            Ok(bl) => {
                let stop = range_stop(size, bl.len() as int, bs, start, len);
                if start >= stop {
                    Ok(Seq::empty())
                } else if forall|p: int|
                    start <= p < stop ==> #[trigger] addr_of(bl, bs, p) < v.content.len() && addr_of(bl, bs, p)
                        < u64::MAX {
                    Ok(Seq::new((stop - start) as nat, |i: int| v.content[addr_of(bl, bs, start + i)]))
                } else {
                    Err(Fault::Io)
                }
            },
        }
    }
}

/// The inode of the regular file that `path` names, by the model.
pub open spec fn open_file_result(v: Ext4View, path: Seq<char>) -> Result<Inode, Fault> {
    match find_result(v, path) {
        Err(e) => Err(e),
        Ok(n) => match inode_result(v, n) {
            Err(e) => Err(e),
            Ok(ino) => if ino.spec_is_file() {
                Ok(ino)
            } else {
                Err(Fault::FileNotFound(path + IS_NOT_A_REGULAR_FILE@))
            },
        },
    }
}

/// Reading `a` bytes at `p` and then `b` bytes where that read ended gives the
/// same bytes as one read of `a + b` bytes at `p`: chunked reads of a file
/// concatenate to the contiguous read.
pub proof fn lemma_chunked_read(v: Ext4View, inode: Inode, p: int, a: int, b: int)
    requires
        0 <= p,
        0 <= a,
        0 <= b,
        v.block_size > 0,
        range_result(v, inode, p, a) is Ok,
        range_result(v, inode, p + range_result(v, inode, p, a)->Ok_0.len(), b) is Ok,
    ensures
        range_result(v, inode, p, a + b) == Ok::<Seq<u8>, Fault>(
            range_result(v, inode, p, a)->Ok_0 + range_result(v, inode, p + range_result(v, inode, p, a)->Ok_0.len(), b)->Ok_0,
        ),
{
    let x = range_result(v, inode, p, a)->Ok_0;
    let q = p + x.len();
    let y = range_result(v, inode, q, b)->Ok_0;
    let size = inode.spec_size() as int;
    let bs = v.block_size as int;
    if p >= size {
        assert(x + y =~= Seq::<u8>::empty());
    } else {
        let bl = inode_blocks(v, inode)->Ok_0;
        let stop_a = range_stop(size, bl.len() as int, bs, p, a);
        let stop = range_stop(size, bl.len() as int, bs, p, a + b);
        if p >= stop_a {
            assert(x.len() == 0);
            assert(x + y =~= y);
            if a > 0 {
                assert(p >= bl.len() * bs);
            }
        } else {
            assert(q == stop_a);
            let stop_b = range_stop(size, bl.len() as int, bs, q, b);
            if q >= size || q >= stop_b {
                assert(y.len() == 0);
                assert(stop == stop_a);
                assert(x + y =~= x);
            } else {
                assert(stop_b == stop);
                assert forall|r: int| p <= r < stop implies #[trigger] addr_of(bl, bs, r) < v.content.len()
                    && addr_of(bl, bs, r) < u64::MAX by {
                    if r < q {
                        assert(p <= r < stop_a);
                    } else {
                        assert(q <= r < stop_b);
                    }
                }
                assert(x + y =~= Seq::new((stop - p) as nat, |i: int| v.content[addr_of(bl, bs, p + i)]));
            }
        }
    }
}

/// When the mapped blocks cover the whole file, a read of at least one byte
/// that yields nothing starts at or past the end of the file.
pub proof fn lemma_empty_read_at_end(v: Ext4View, inode: Inode, pos: int, len: int)
    requires
        0 <= pos,
        len > 0,
        inode_blocks(v, inode) matches Ok(bl) && bl.len() * v.block_size >= inode.spec_size(),
        range_result(v, inode, pos, len) == Ok::<Seq<u8>, Fault>(Seq::empty()),
    ensures
        pos >= inode.spec_size(),
{
    if pos < inode.spec_size() {
        let bl = inode_blocks(v, inode)->Ok_0;
        let stop = range_stop(inode.spec_size() as int, bl.len() as int, v.block_size as int, pos, len);
        assert(stop > pos);
        assert(range_result(v, inode, pos, len)->Ok_0.len() == stop - pos);
    }
}

/// Seeking to `k` and reading `n` bytes gives the bytes from `k` on of a read
/// of `k + n` bytes from the start.
pub proof fn lemma_seek_then_read(v: Ext4View, inode: Inode, k: int, n: int)
    requires
        0 <= k,
        0 <= n,
        v.block_size > 0,
        range_result(v, inode, 0, k + n) is Ok,
    ensures
        range_result(v, inode, k, n) == Ok::<Seq<u8>, Fault>(
            range_result(v, inode, 0, k + n)->Ok_0.subrange(
                vstd::math::min(k, range_result(v, inode, 0, k + n)->Ok_0.len() as int),
                range_result(v, inode, 0, k + n)->Ok_0.len() as int,
            ),
        ),
{
    let whole = range_result(v, inode, 0, k + n)->Ok_0;
    let size = inode.spec_size() as int;
    let bs = v.block_size as int;
    if 0 >= size {
        assert(whole.subrange(0, 0) =~= Seq::<u8>::empty());
    } else {
        let bl = inode_blocks(v, inode)->Ok_0;
        let stop0 = range_stop(size, bl.len() as int, bs, 0, k + n);
        if k >= size {
            assert(whole.subrange(vstd::math::min(k, whole.len() as int), whole.len() as int) =~= Seq::<u8>::empty());
        } else {
            let stop = range_stop(size, bl.len() as int, bs, k, n);
            assert(stop == stop0);
            if k >= stop {
                assert(whole.subrange(vstd::math::min(k, whole.len() as int), whole.len() as int) =~= Seq::<u8>::empty());
            } else {
                assert forall|r: int| k <= r < stop implies #[trigger] addr_of(bl, bs, r) < v.content.len() && addr_of(
                    bl,
                    bs,
                    r,
                ) < u64::MAX by {
                    assert(0 <= r < stop0);
                }
                assert(whole.subrange(k, whole.len() as int) =~= Seq::new(
                    (stop - k) as nat,
                    |i: int| v.content[addr_of(bl, bs, k + i)],
                ));
            }
        }
    }
}

/// `.` or `..`.
pub open spec fn is_dot_name(n: Seq<char>) -> bool {
    n == seq!['.'] || n == seq!['.', '.']
}

/// The path of entry `name` inside directory `dir`.
pub open spec fn child_path(dir: Seq<char>, name: Seq<char>) -> Seq<char> {
    if dir == seq!['/'] {
        seq!['/'] + name
    } else {
        dir + seq!['/'] + name
    }
}

/// The size a listing shows: that of the child inode for a regular file, 0
/// for anything else or when the child inode cannot be read.
pub open spec fn child_size(v: Ext4View, e: DirEntryView) -> u64 {
    if e.file_type == EXT4_FT_REG_FILE {
        match inode_result(v, e.inode) {
            Ok(i) => i.spec_size(),
            Err(_) => 0,
        }
    } else {
        0
    }
}

/// The listing entries of the first `k` records of directory `dir`, with `.`
/// and `..` left out.
pub open spec fn listing_of(v: Ext4View, dir: Seq<char>, es: Seq<DirEntryView>, k: int) -> Seq<DirectoryEntryView>
    decreases k,
{
    if k <= 0 {
        Seq::empty()
    } else {
        let acc = listing_of(v, dir, es, k - 1);
        let e = es[k - 1];
        if is_dot_name(e.name) {
            acc
        } else {
            acc.push(
                DirectoryEntryView {
                    name: e.name,
                    path: child_path(dir, e.name),
                    is_file: e.file_type == EXT4_FT_REG_FILE,
                    is_dir: e.file_type == EXT4_FT_DIR,
                    size: child_size(v, e),
                },
            )
        }
    }
}

/// The listing of the directory that `path` names, by the model: its records
/// without `.` and `..`, sorted by name.
pub open spec fn read_dir_result(v: Ext4View, path: Seq<char>) -> Result<Seq<DirectoryEntryView>, Fault> {
    match find_result(v, path) {
        Err(e) => Err(e),
        Ok(n) => match inode_result(v, n) {
            Err(e) => Err(e),
            Ok(ino) => if !ino.spec_is_dir() {
                Err(Fault::FileNotFound(path + IS_NOT_A_DIRECTORY@))
            } else {
                match dir_entries_result(v, ino) {
                    Err(e) => Err(e),
                    Ok(es) => Ok(crate::listing::sort_by_name(listing_of(v, path, es, es.len() as int))),
                }
            },
        },
    }
}

/// Every listing is in ascending name order and holds neither `.` nor `..`.
pub proof fn lemma_listing_sorted(v: Ext4View, path: Seq<char>)
    requires
        read_dir_result(v, path) is Ok,
    ensures
        crate::listing::sorted_by_name(read_dir_result(v, path)->Ok_0),
        forall|i: int|
            0 <= i < read_dir_result(v, path)->Ok_0.len() ==> !is_dot_name(
                #[trigger] read_dir_result(v, path)->Ok_0[i].name,
            ),
{
    let n = find_result(v, path)->Ok_0;
    let ino = inode_result(v, n)->Ok_0;
    let es = dir_entries_result(v, ino)->Ok_0;
    let l = listing_of(v, path, es, es.len() as int);
    lemma_listing_no_dots(v, path, es, es.len() as int);
    crate::listing::lemma_sort_sorted(l);
    crate::listing::lemma_sort_members(l);
    assert forall|i: int| 0 <= i < crate::listing::sort_by_name(l).len() implies !is_dot_name(
        #[trigger] crate::listing::sort_by_name(l)[i].name,
    ) by {
        assert(l.contains(crate::listing::sort_by_name(l)[i]));
    }
}

/// The records of the directory that `path` names, when it can be read.
pub open spec fn listed_records(v: Ext4View, path: Seq<char>) -> Seq<DirEntryView> {
    match find_result(v, path) {
        Ok(n) => match inode_result(v, n) {
            Ok(ino) => match dir_entries_result(v, ino) {
                Ok(es) => es,
                Err(_) => Seq::empty(),
            },
            Err(_) => Seq::empty(),
        },
        Err(_) => Seq::empty(),
    }
}

/// When a directory's records carry distinct names, its listing is in
/// strictly ascending name order.
pub proof fn lemma_listing_strictly_sorted(v: Ext4View, path: Seq<char>)
    requires
        read_dir_result(v, path) is Ok,
        forall|i: int, j: int|
            0 <= i < listed_records(v, path).len() && 0 <= j < listed_records(v, path).len() && i != j
                ==> #[trigger] listed_records(v, path)[i].name != #[trigger] listed_records(v, path)[j].name,
    ensures
        crate::listing::strictly_sorted_by_name(read_dir_result(v, path)->Ok_0),
{
    let es = listed_records(v, path);
    lemma_listing_distinct(v, path, es, es.len() as int);
    crate::listing::lemma_sort_strict(listing_of(v, path, es, es.len() as int));
}

proof fn lemma_listing_distinct(v: Ext4View, dir: Seq<char>, es: Seq<DirEntryView>, k: int)
    requires
        0 <= k <= es.len(),
        forall|i: int, j: int| 0 <= i < es.len() && 0 <= j < es.len() && i != j ==> #[trigger] es[i].name != #[trigger] es[j].name,
    ensures
        crate::listing::names_distinct(listing_of(v, dir, es, k)),
        forall|x: int| 0 <= x < listing_of(v, dir, es, k).len() ==> exists|m: int| 0 <= m < k && #[trigger] es[m].name == #[trigger] listing_of(v, dir, es, k)[x].name,
    decreases k,
{
    if k > 0 {
        lemma_listing_distinct(v, dir, es, k - 1);
        let acc = listing_of(v, dir, es, k - 1);
        let l = listing_of(v, dir, es, k);
        assert forall|x: int| 0 <= x < l.len() implies exists|m: int| 0 <= m < k && #[trigger] es[m].name == #[trigger] l[x].name by {
            if x < acc.len() {
                assert(l[x] == acc[x]);
                let m = choose|m: int| 0 <= m < k - 1 && #[trigger] es[m].name == acc[x].name;
                assert(es[m].name == l[x].name);
            } else {
                assert(es[k - 1].name == l[x].name);
            }
        }
        assert forall|i: int, j: int| 0 <= i < l.len() && 0 <= j < l.len() && i != j implies #[trigger] l[i].name != #[trigger] l[j].name by {
            if i < acc.len() && j < acc.len() {
                assert(l[i] == acc[i] && l[j] == acc[j]);
            } else if i < acc.len() {
                assert(l[i] == acc[i]);
                let m = choose|m: int| 0 <= m < k - 1 && #[trigger] es[m].name == acc[i].name;
                assert(es[m].name != es[k - 1].name);
            } else if j < acc.len() {
                assert(l[j] == acc[j]);
                let m = choose|m: int| 0 <= m < k - 1 && #[trigger] es[m].name == acc[j].name;
                assert(es[m].name != es[k - 1].name);
            }
        }
    }
}

proof fn lemma_listing_no_dots(v: Ext4View, dir: Seq<char>, es: Seq<DirEntryView>, k: int)
    ensures
        forall|i: int| 0 <= i < listing_of(v, dir, es, k).len() ==> !is_dot_name(#[trigger] listing_of(v, dir, es, k)[i].name),
    decreases k,
{
    if k > 0 {
        lemma_listing_no_dots(v, dir, es, k - 1);
        let acc = listing_of(v, dir, es, k - 1);
        let l = listing_of(v, dir, es, k);
        assert forall|i: int| 0 <= i < l.len() implies !is_dot_name(#[trigger] l[i].name) by {
            if i < acc.len() {
                assert(l[i] == acc[i]);
            }
        }
    }
}

/// Whenever the object that a path resolves to can be read, `metadata`
/// gives a value exactly when the path exists.
pub proof fn lemma_metadata_iff_exists(v: Ext4View, path: Seq<char>)
    requires
        find_result(v, path) matches Ok(n) ==> inode_result(v, n) is Ok,
    ensures
        metadata_result(v, path) is Some <==> find_result(v, path) is Ok,
{
}

/// The well-formedness that every reader satisfies.
pub open spec fn view_ok(v: Ext4View) -> bool {
    &&& superblock_ok(v.sb)
    &&& v.block_size == block_size_of(v.sb.s_log_block_size)
    &&& 1024 <= v.block_size <= 0x200_0000_0000
    &&& v.block_size % 4 == 0
}

pub proof fn lemma_block_size(log: u32)
    ensures
        1024 <= block_size_of(log) <= 0x200_0000_0000,
        block_size_of(log) % 4 == 0,
{
    if log < 32 {
        let b = 1024u64 << log;
        assert(1024 <= b <= 0x200_0000_0000 && b % 4 == 0) by (bit_vector)
            requires log < 32, b == 1024u64 << log;
    }
}

} // verus!
