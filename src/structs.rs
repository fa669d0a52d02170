//! On-disk ext4 records and their little-endian decoding.
use vstd::prelude::*;
use crate::bytes::{read_u16_le, read_u32_le};

verus! {

pub const EXT4_SUPER_MAGIC: u16 = 0xEF53;
pub const EXT4_ROOT_INO: u32 = 2;
pub const EXT4_FT_REG_FILE: u8 = 1;
pub const EXT4_FT_DIR: u8 = 2;
pub const EXT4_EXTENTS_FL: u32 = 0x80000;
pub const EXT4_NDIR_BLOCKS: usize = 12;
pub const EXT4_IND_BLOCK: usize = 12;
pub const EXT4_DIND_BLOCK: usize = 13;
pub const EXT4_TIND_BLOCK: usize = 14;
pub const EXT4_N_BLOCKS: usize = 15;

/// The `n` little-endian 32-bit words of `b` starting at `off`.
pub open spec fn words_at(b: Seq<u8>, off: int, n: int) -> Seq<u32> {
    Seq::new(n as nat, |i: int| crate::bytes::le32(b, off + 4 * i) as u32)
}

/// Decodes `N` consecutive little-endian words of `b` at `off`.
pub fn read_words<const N: usize>(b: &[u8], off: usize) -> (r: [u32; N])
    requires
        off + 4 * N <= b@.len(),
    ensures
        r@ == words_at(b@, off as int, N as int),
{
    let len = b.len();
    assert(off + 4 * N <= len);
    let mut r = [0u32; N];
    let mut i: usize = 0;
    while i < N
        invariant
            i <= N,
            off + 4 * N <= b@.len() <= usize::MAX,
            r@.len() == N,
            forall|j: int| 0 <= j < i ==> r@[j] == crate::bytes::le32(b@, off + 4 * j),
        decreases N - i,
    {
        r[i] = read_u32_le(b, off + 4 * i);
        i = i + 1;
    }
    assert(r@ =~= words_at(b@, off as int, N as int));
    r
}

/// The ext4 superblock, as far as this reader decodes it.
#[derive(Debug, Clone, Copy)]
pub struct Superblock {
    pub s_inodes_count: u32,
    pub s_blocks_count_lo: u32,
    pub s_r_blocks_count_lo: u32,
    pub s_free_blocks_count_lo: u32,
    pub s_free_inodes_count: u32,
    pub s_first_data_block: u32,
    pub s_log_block_size: u32,
    pub s_obso_log_frag_size: u32,
    pub s_blocks_per_group: u32,
    pub s_obso_frags_per_group: u32,
    pub s_inodes_per_group: u32,
    pub s_mtime: u32,
    pub s_wtime: u32,
    pub s_mnt_count: u16,
    pub s_max_mnt_count: u16,
    pub s_magic: u16,
    pub s_state: u16,
    pub s_errors: u16,
    pub s_minor_rev_level: u16,
    pub s_lastcheck: u32,
    pub s_checkinterval: u32,
    pub s_creator_os: u32,
    pub s_rev_level: u32,
    pub s_def_resuid: u16,
    pub s_def_resgid: u16,
    pub s_first_ino: u32,
    pub s_inode_size: u16,
    pub s_block_group_nr: u16,
    pub s_feature_compat: u32,
    pub s_feature_incompat: u32,
    pub s_feature_ro_compat: u32,
}

impl Superblock {
    /// Size in bytes of the on-disk record.
    pub const SIZE: usize = 104;

    /// Every field holds the little-endian value at its offset in `b`.
    pub open spec fn decoded_from(&self, b: Seq<u8>) -> bool {
        &&& self.s_inodes_count == crate::bytes::le32(b, 0)
        &&& self.s_blocks_count_lo == crate::bytes::le32(b, 4)
        &&& self.s_r_blocks_count_lo == crate::bytes::le32(b, 8)
        &&& self.s_free_blocks_count_lo == crate::bytes::le32(b, 12)
        &&& self.s_free_inodes_count == crate::bytes::le32(b, 16)
        &&& self.s_first_data_block == crate::bytes::le32(b, 20)
        &&& self.s_log_block_size == crate::bytes::le32(b, 24)
        &&& self.s_obso_log_frag_size == crate::bytes::le32(b, 28)
        &&& self.s_blocks_per_group == crate::bytes::le32(b, 32)
        &&& self.s_obso_frags_per_group == crate::bytes::le32(b, 36)
        &&& self.s_inodes_per_group == crate::bytes::le32(b, 40)
        &&& self.s_mtime == crate::bytes::le32(b, 44)
        &&& self.s_wtime == crate::bytes::le32(b, 48)
        &&& self.s_mnt_count == crate::bytes::le16(b, 52)
        &&& self.s_max_mnt_count == crate::bytes::le16(b, 54)
        &&& self.s_magic == crate::bytes::le16(b, 56)
        &&& self.s_state == crate::bytes::le16(b, 58)
        &&& self.s_errors == crate::bytes::le16(b, 60)
        &&& self.s_minor_rev_level == crate::bytes::le16(b, 62)
        &&& self.s_lastcheck == crate::bytes::le32(b, 64)
        &&& self.s_checkinterval == crate::bytes::le32(b, 68)
        &&& self.s_creator_os == crate::bytes::le32(b, 72)
        &&& self.s_rev_level == crate::bytes::le32(b, 76)
        &&& self.s_def_resuid == crate::bytes::le16(b, 80)
        &&& self.s_def_resgid == crate::bytes::le16(b, 82)
        &&& self.s_first_ino == crate::bytes::le32(b, 84)
        &&& self.s_inode_size == crate::bytes::le16(b, 88)
        &&& self.s_block_group_nr == crate::bytes::le16(b, 90)
        &&& self.s_feature_compat == crate::bytes::le32(b, 92)
        &&& self.s_feature_incompat == crate::bytes::le32(b, 96)
        &&& self.s_feature_ro_compat == crate::bytes::le32(b, 100)
    }

    /// Decodes the record from the first `SIZE` bytes of `b`.
    pub fn parse(b: &[u8]) -> (r: Self)
        requires
            b@.len() >= 104,
        ensures
            r.decoded_from(b@),
    {
        let len = b.len();
        assert(104 <= len);
        Superblock {
            s_inodes_count: read_u32_le(b, 0),
            s_blocks_count_lo: read_u32_le(b, 4),
            s_r_blocks_count_lo: read_u32_le(b, 8),
            s_free_blocks_count_lo: read_u32_le(b, 12),
            s_free_inodes_count: read_u32_le(b, 16),
            s_first_data_block: read_u32_le(b, 20),
            s_log_block_size: read_u32_le(b, 24),
            s_obso_log_frag_size: read_u32_le(b, 28),
            s_blocks_per_group: read_u32_le(b, 32),
            s_obso_frags_per_group: read_u32_le(b, 36),
            s_inodes_per_group: read_u32_le(b, 40),
            s_mtime: read_u32_le(b, 44),
            s_wtime: read_u32_le(b, 48),
            s_mnt_count: read_u16_le(b, 52),
            s_max_mnt_count: read_u16_le(b, 54),
            s_magic: read_u16_le(b, 56),
            s_state: read_u16_le(b, 58),
            s_errors: read_u16_le(b, 60),
            s_minor_rev_level: read_u16_le(b, 62),
            s_lastcheck: read_u32_le(b, 64),
            s_checkinterval: read_u32_le(b, 68),
            s_creator_os: read_u32_le(b, 72),
            s_rev_level: read_u32_le(b, 76),
            s_def_resuid: read_u16_le(b, 80),
            s_def_resgid: read_u16_le(b, 82),
            s_first_ino: read_u32_le(b, 84),
            s_inode_size: read_u16_le(b, 88),
            s_block_group_nr: read_u16_le(b, 90),
            s_feature_compat: read_u32_le(b, 92),
            s_feature_incompat: read_u32_le(b, 96),
            s_feature_ro_compat: read_u32_le(b, 100),
        }
    }
}

/// A block group descriptor.
#[derive(Debug, Clone, Copy)]
pub struct GroupDescriptor {
    pub bg_block_bitmap_lo: u32,
    pub bg_inode_bitmap_lo: u32,
    pub bg_inode_table_lo: u32,
    pub bg_free_blocks_count_lo: u16,
    pub bg_free_inodes_count_lo: u16,
    pub bg_used_dirs_count_lo: u16,
    pub bg_flags: u16,
    pub bg_reserved: [u32; 2],
    pub bg_itable_unused_lo: u16,
    pub bg_checksum: u16,
    pub bg_block_bitmap_hi: u32,
    pub bg_inode_bitmap_hi: u32,
    pub bg_inode_table_hi: u32,
    pub bg_free_blocks_count_hi: u16,
    pub bg_free_inodes_count_hi: u16,
    pub bg_used_dirs_count_hi: u16,
    pub bg_itable_unused_hi: u16,
    pub bg_reserved2: [u32; 3],
}

impl GroupDescriptor {
    /// Size in bytes of the on-disk record.
    pub const SIZE: usize = 64;

    /// Every field holds the little-endian value at its offset in `b`.
    pub open spec fn decoded_from(&self, b: Seq<u8>) -> bool {
        &&& self.bg_block_bitmap_lo == crate::bytes::le32(b, 0)
        &&& self.bg_inode_bitmap_lo == crate::bytes::le32(b, 4)
        &&& self.bg_inode_table_lo == crate::bytes::le32(b, 8)
        &&& self.bg_free_blocks_count_lo == crate::bytes::le16(b, 12)
        &&& self.bg_free_inodes_count_lo == crate::bytes::le16(b, 14)
        &&& self.bg_used_dirs_count_lo == crate::bytes::le16(b, 16)
        &&& self.bg_flags == crate::bytes::le16(b, 18)
        &&& self.bg_reserved@ == words_at(b, 20, 2)
        &&& self.bg_itable_unused_lo == crate::bytes::le16(b, 28)
        &&& self.bg_checksum == crate::bytes::le16(b, 30)
        &&& self.bg_block_bitmap_hi == crate::bytes::le32(b, 32)
        &&& self.bg_inode_bitmap_hi == crate::bytes::le32(b, 36)
        &&& self.bg_inode_table_hi == crate::bytes::le32(b, 40)
        &&& self.bg_free_blocks_count_hi == crate::bytes::le16(b, 44)
        &&& self.bg_free_inodes_count_hi == crate::bytes::le16(b, 46)
        &&& self.bg_used_dirs_count_hi == crate::bytes::le16(b, 48)
        &&& self.bg_itable_unused_hi == crate::bytes::le16(b, 50)
        &&& self.bg_reserved2@ == words_at(b, 52, 3)
    }

    /// Decodes the record from the first `SIZE` bytes of `b`.
    pub fn parse(b: &[u8]) -> (r: Self)
        requires
            b@.len() >= 64,
        ensures
            r.decoded_from(b@),
    {
        let len = b.len();
        assert(64 <= len);
        GroupDescriptor {
            bg_block_bitmap_lo: read_u32_le(b, 0),
            bg_inode_bitmap_lo: read_u32_le(b, 4),
            bg_inode_table_lo: read_u32_le(b, 8),
            bg_free_blocks_count_lo: read_u16_le(b, 12),
            bg_free_inodes_count_lo: read_u16_le(b, 14),
            bg_used_dirs_count_lo: read_u16_le(b, 16),
            bg_flags: read_u16_le(b, 18),
            bg_reserved: read_words::<2>(b, 20),
            bg_itable_unused_lo: read_u16_le(b, 28),
            bg_checksum: read_u16_le(b, 30),
            bg_block_bitmap_hi: read_u32_le(b, 32),
            bg_inode_bitmap_hi: read_u32_le(b, 36),
            bg_inode_table_hi: read_u32_le(b, 40),
            bg_free_blocks_count_hi: read_u16_le(b, 44),
            bg_free_inodes_count_hi: read_u16_le(b, 46),
            bg_used_dirs_count_hi: read_u16_le(b, 48),
            bg_itable_unused_hi: read_u16_le(b, 50),
            bg_reserved2: read_words::<3>(b, 52),
        }
    }
}

/// An inode record.
#[derive(Debug, Clone, Copy)]
pub struct Inode {
    pub i_mode: u16,
    pub i_uid: u16,
    pub i_size_lo: u32,
    pub i_atime: u32,
    pub i_ctime: u32,
    pub i_mtime: u32,
    pub i_dtime: u32,
    pub i_gid: u16,
    pub i_links_count: u16,
    pub i_blocks_lo: u32,
    pub i_flags: u32,
    pub osd1: u32,
    pub i_block: [u32; 15],
    pub i_generation: u32,
    pub i_file_acl_lo: u32,
    pub i_size_high: u32,
    pub i_obso_faddr: u32,
}

impl Inode {
    /// Size in bytes of the on-disk record.
    pub const SIZE: usize = 116;

    /// Every field holds the little-endian value at its offset in `b`.
    pub open spec fn decoded_from(&self, b: Seq<u8>) -> bool {
        &&& self.i_mode == crate::bytes::le16(b, 0)
        &&& self.i_uid == crate::bytes::le16(b, 2)
        &&& self.i_size_lo == crate::bytes::le32(b, 4)
        &&& self.i_atime == crate::bytes::le32(b, 8)
        &&& self.i_ctime == crate::bytes::le32(b, 12)
        &&& self.i_mtime == crate::bytes::le32(b, 16)
        &&& self.i_dtime == crate::bytes::le32(b, 20)
        &&& self.i_gid == crate::bytes::le16(b, 24)
        &&& self.i_links_count == crate::bytes::le16(b, 26)
        &&& self.i_blocks_lo == crate::bytes::le32(b, 28)
        &&& self.i_flags == crate::bytes::le32(b, 32)
        &&& self.osd1 == crate::bytes::le32(b, 36)
        &&& self.i_block@ == words_at(b, 40, 15)
        &&& self.i_generation == crate::bytes::le32(b, 100)
        &&& self.i_file_acl_lo == crate::bytes::le32(b, 104)
        &&& self.i_size_high == crate::bytes::le32(b, 108)
        &&& self.i_obso_faddr == crate::bytes::le32(b, 112)
    }

    /// Decodes the record from the first `SIZE` bytes of `b`.
    pub fn parse(b: &[u8]) -> (r: Self)
        requires
            b@.len() >= 116,
        ensures
            r.decoded_from(b@),
    {
        let len = b.len();
        assert(116 <= len);
        Inode {
            i_mode: read_u16_le(b, 0),
            i_uid: read_u16_le(b, 2),
            i_size_lo: read_u32_le(b, 4),
            i_atime: read_u32_le(b, 8),
            i_ctime: read_u32_le(b, 12),
            i_mtime: read_u32_le(b, 16),
            i_dtime: read_u32_le(b, 20),
            i_gid: read_u16_le(b, 24),
            i_links_count: read_u16_le(b, 26),
            i_blocks_lo: read_u32_le(b, 28),
            i_flags: read_u32_le(b, 32),
            osd1: read_u32_le(b, 36),
            i_block: read_words::<15>(b, 40),
            i_generation: read_u32_le(b, 100),
            i_file_acl_lo: read_u32_le(b, 104),
            i_size_high: read_u32_le(b, 108),
            i_obso_faddr: read_u32_le(b, 112),
        }
    }
}

impl Inode {
    /// The file size: `i_size_high` above `i_size_lo`.
    pub open spec fn spec_size(&self) -> u64 {
        (self.i_size_high as int * 0x1_0000_0000 + self.i_size_lo as int) as u64
    }

    pub fn size(&self) -> (r: u64)
        ensures
            r == self.spec_size(),
    {
        self.i_size_high as u64 * 0x1_0000_0000 + self.i_size_lo as u64
    }

    pub open spec fn spec_is_dir(&self) -> bool {
        (self.i_mode & 0xF000) == 0x4000
    }

    pub open spec fn spec_is_file(&self) -> bool {
        (self.i_mode & 0xF000) == 0x8000
    }

    pub open spec fn spec_uses_extents(&self) -> bool {
        (self.i_flags & EXT4_EXTENTS_FL) != 0
    }

    /// Whether the mode marks a directory.
    pub fn is_dir(&self) -> (r: bool)
        ensures
            r == self.spec_is_dir(),
    {
        (self.i_mode & 0xF000) == 0x4000
    }

    /// Whether the mode marks a regular file.
    pub fn is_file(&self) -> (r: bool)
        ensures
            r == self.spec_is_file(),
    {
        (self.i_mode & 0xF000) == 0x8000
    }

    /// Whether the block map is an extent tree.
    pub fn uses_extents(&self) -> (r: bool)
        ensures
            r == self.spec_uses_extents(),
    {
        (self.i_flags & EXT4_EXTENTS_FL) != 0
    }
}

/// A raw directory record.
#[derive(Debug, Clone)]
pub struct DirEntry {
    pub inode: u32,
    pub rec_len: u16,
    pub name_len: u8,
    pub file_type: u8,
    pub name: String,
}

/// One entry of a directory listing.
#[derive(Debug, Clone)]
pub struct DirectoryEntry {
    pub name: String,
    pub path: String,
    pub is_file: bool,
    pub is_dir: bool,
    pub size: u64,
}

} // verus!
