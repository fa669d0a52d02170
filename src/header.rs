//! The fixed header at the start of a VDI file.
use vstd::prelude::*;
use crate::bytes::{read_u32_le, read_u64_le};

verus! {

#[verifier::external_type_specification]
#[verifier::external_body]
pub struct ExUuid(uuid::Uuid);

/// Relies on `uuid::Uuid::from_bytes`, which wraps the sixteen bytes as they are.
pub assume_specification[ uuid::Uuid::from_bytes ](bytes: [u8; 16]) -> uuid::Uuid;

/// Size in bytes of the header record.
pub const HEADER_SIZE: usize = 456;

/// The VDI header, decoded field by field from its little-endian layout.
#[derive(Debug, Clone, Copy)]
pub struct VdiHeader {
    pub text: [u8; 64],
    pub signature: u32,
    pub version: u32,
    pub header_size: u32,
    pub image_type: u32,
    pub image_flags: u32,
    pub description: [u8; 256],
    pub block_offsets_offset: u32,
    pub data_offset: u32,
    pub cylinders: u32,
    pub heads: u32,
    pub sectors: u32,
    pub sector_size: u32,
    pub unused1: u32,
    pub disk_size: u64,
    pub block_size: u32,
    pub block_extra: u32,
    pub blocks_in_image: u32,
    pub blocks_allocated: u32,
    pub uuid_image: uuid::Uuid,
    pub uuid_last_snap: uuid::Uuid,
    pub uuid_link: uuid::Uuid,
    pub uuid_parent: uuid::Uuid,
}

impl VdiHeader {
    pub const VERSION: u32 = 0x00010001;
    pub const SIGNATURE: u32 = 0xBEDA107F;
    /// The image type of a dynamic (sparse) image.
    pub const DYNAMIC: u32 = 1;

    /// Every field that the reader relies on holds the value found at its
    /// offset in `b`.
    pub open spec fn decoded_from(&self, b: Seq<u8>) -> bool {
        &&& self.text@ == b.subrange(0, 64)
        &&& self.signature == crate::bytes::le32(b, 64)
        &&& self.version == crate::bytes::le32(b, 68)
        &&& self.header_size == crate::bytes::le32(b, 72)
        &&& self.image_type == crate::bytes::le32(b, 76)
        &&& self.image_flags == crate::bytes::le32(b, 80)
        &&& self.description@ == b.subrange(84, 340)
        &&& self.block_offsets_offset == crate::bytes::le32(b, 340)
        &&& self.data_offset == crate::bytes::le32(b, 344)
        &&& self.cylinders == crate::bytes::le32(b, 348)
        &&& self.heads == crate::bytes::le32(b, 352)
        &&& self.sectors == crate::bytes::le32(b, 356)
        &&& self.sector_size == crate::bytes::le32(b, 360)
        &&& self.unused1 == crate::bytes::le32(b, 364)
        &&& self.disk_size == crate::bytes::le64(b, 368)
        &&& self.block_size == crate::bytes::le32(b, 376)
        &&& self.block_extra == crate::bytes::le32(b, 380)
        &&& self.blocks_in_image == crate::bytes::le32(b, 384)
        &&& self.blocks_allocated == crate::bytes::le32(b, 388)
    }

    /// Decodes a header from the first `HEADER_SIZE` bytes of `b`.
    pub fn parse(b: &[u8]) -> (h: VdiHeader)
        requires
            b@.len() >= HEADER_SIZE,
        ensures
            h.decoded_from(b@),
    {
        VdiHeader {
            text: copy_bytes::<64>(b, 0),
            signature: read_u32_le(b, 64),
            version: read_u32_le(b, 68),
            header_size: read_u32_le(b, 72),
            image_type: read_u32_le(b, 76),
            image_flags: read_u32_le(b, 80),
            description: copy_bytes::<256>(b, 84),
            block_offsets_offset: read_u32_le(b, 340),
            data_offset: read_u32_le(b, 344),
            cylinders: read_u32_le(b, 348),
            heads: read_u32_le(b, 352),
            sectors: read_u32_le(b, 356),
            sector_size: read_u32_le(b, 360),
            unused1: read_u32_le(b, 364),
            disk_size: read_u64_le(b, 368),
            block_size: read_u32_le(b, 376),
            block_extra: read_u32_le(b, 380),
            blocks_in_image: read_u32_le(b, 384),
            blocks_allocated: read_u32_le(b, 388),
            uuid_image: uuid::Uuid::from_bytes(copy_bytes::<16>(b, 392)),
            uuid_last_snap: uuid::Uuid::from_bytes(copy_bytes::<16>(b, 408)),
            uuid_link: uuid::Uuid::from_bytes(copy_bytes::<16>(b, 424)),
            uuid_parent: uuid::Uuid::from_bytes(copy_bytes::<16>(b, 440)),
        }
    }
}

/// The `N` bytes of `b` at `off`, as an array.
pub fn copy_bytes<const N: usize>(b: &[u8], off: usize) -> (r: [u8; N])
    requires
        off + N <= b@.len(),
    ensures
        r@ == b@.subrange(off as int, off + N),
{
    let len = b.len();
    assert(off + N <= len);
    let mut r = [0u8; N];
    let mut i: usize = 0;
    while i < N
        invariant
            i <= N,
            off + N <= b@.len(),
            b@.len() <= usize::MAX,
            r@.len() == N,
            forall|j: int| 0 <= j < i ==> r@[j] == b@[off + j],
        decreases N - i,
    {
        r[i] = b[off + i];
        i = i + 1;
    }
    assert(r@ =~= b@.subrange(off as int, off + N));
    r
}

} // verus!
