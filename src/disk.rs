//! The VDI virtualiser: a dynamic VDI file seen as a contiguous virtual disk.
use vstd::prelude::*;
use crate::header::{VdiHeader, HEADER_SIZE};
use crate::read_at::{full_count, copy_into, read_exact_at, zero_fill, ReadAt, io_error, IoErrorKind};
use crate::seek::{resolve_seek, SeekFrom};
use crate::slice::{OwnedSlice, Slice};

verus! {

/// The allocation-table entry of a block that holds no data.
pub const UNALLOCATED: u32 = 0xFFFF_FFFF;

/// Why a VDI image could not be opened.
#[derive(Debug)]
pub enum VdiError {
    /// The backing reader failed or ended early.
    Io(std::io::Error),
    /// The header does not carry the VDI signature.
    InvalidSignature,
    /// The header version is not 1.1.
    UnsupportedVersion,
    /// The image is not a dynamic image.
    UnsupportedImageType,
}

impl VdiError {
    /// The text that describes the error.
    pub fn message(&self) -> (r: String)
        ensures
            self matches VdiError::InvalidSignature ==> r@ == "Invalid VDI signature"@,
            self matches VdiError::UnsupportedVersion ==> r@ == "Unsupported VDI version"@,
            self matches VdiError::UnsupportedImageType ==> r@ == "Only dynamic VDI images are supported"@,
            self matches VdiError::Io(_) ==> r@.subrange(0, 10) == "IO error: "@,
    {
        proof {
            reveal_strlit("IO error: ");
        }
        match self {
            VdiError::Io(e) => crate::path::join_text("IO error: ", e.to_string().as_str()),
            VdiError::InvalidSignature => "Invalid VDI signature".to_owned(),
            VdiError::UnsupportedVersion => "Unsupported VDI version".to_owned(),
            VdiError::UnsupportedImageType => "Only dynamic VDI images are supported".to_owned(),
        }
    }
}

/// The file offset at which the data of a block with table entry `e` starts,
/// or `None` for an unallocated block.
pub open spec fn block_location(h: VdiHeader, e: u32) -> Option<u64> {
    if e == UNALLOCATED {
        None
    } else {
        Some((h.data_offset + e * h.block_size) as u64)
    }
}

/// The allocation table decoded from its raw little-endian bytes.
pub open spec fn decode_table(h: VdiHeader, raw: Seq<u8>) -> Seq<Option<u64>> {
    Seq::new(h.blocks_in_image as nat, |i: int| block_location(h, crate::bytes::le32(raw, 4 * i) as u32))
}

/// The ghost picture of a disk: its header, block size, allocation table,
/// backing bytes, and cursor.
pub struct VdiView {
    pub header: VdiHeader,
    pub block_size: nat,
    pub table: Seq<Option<u64>>,
    pub backing: Seq<u8>,
    pub backing_faultless: bool,
    pub backing_transparent: bool,
    pub position: u64,
}

/// Length of the virtual disk: the blocks that the table covers, cut at the
/// declared disk size.
pub open spec fn virtual_len(v: VdiView) -> int {
    vstd::math::min(v.header.disk_size as int, (v.table.len() * v.block_size) as int)
}

/// The virtual byte at `p`: zero in an unallocated block, else the backing byte
/// that the block maps it to.
pub open spec fn virtual_byte(v: VdiView, p: int) -> u8 {
    match v.table[p / v.block_size as int] {
        None => 0u8,
        Some(o) => {
            let at = o + p % v.block_size as int;
            if at < v.backing.len() {
                v.backing[at]
            } else {
                0u8
            }
        },
    }
}

/// The whole virtual disk.
pub open spec fn virtual_content(v: VdiView) -> Seq<u8> {
    Seq::new(virtual_len(v) as nat, |p: int| virtual_byte(v, p))
}

/// Every allocated block lies wholly inside the backing bytes.
pub open spec fn blocks_in_backing(v: VdiView) -> bool {
    forall|i: int|
        0 <= i < v.table.len() && #[trigger] v.table[i] is Some ==> v.table[i]->Some_0 + v.block_size
            <= v.backing.len()
}

/// A dynamic VDI disk over a backing positioned reader.
pub struct VdiDisk<R: ReadAt> {
    header: VdiHeader,
    block_size: usize,
    /// Absolute file offsets of each block relative to the start of the vdi file
    block_offsets: Vec<Option<u64>>,
    reader: R,
    position: u64,
}

impl<R: ReadAt> View for VdiDisk<R> {
    type V = VdiView;

    closed spec fn view(&self) -> VdiView {
        VdiView {
            header: self.header,
            block_size: self.block_size as nat,
            table: self.block_offsets@,
            backing: self.reader.content(),
            backing_faultless: self.reader.faultless(),
            backing_transparent: self.reader.transparent(),
            position: self.position,
        }
    }
}

proof fn lemma_block_index(p: int, bs: int, n: int)
    requires
        bs > 0,
        0 <= p < n * bs,
    ensures
        0 <= p / bs < n,
        p % bs < bs,
{
    vstd::arithmetic::div_mod::lemma_fundamental_div_mod(p, bs);
    assert(p / bs >= 0) by (nonlinear_arith)
        requires bs > 0, p >= 0;
    assert(p / bs < n) by (nonlinear_arith)
        requires bs > 0, p >= 0, p < n * bs, p == bs * (p / bs) + p % bs, p % bs >= 0;
}

impl<R: ReadAt> VdiDisk<R> {
    #[verifier::type_invariant]
    spec fn inv(&self) -> bool {
        &&& self.block_size == self.header.block_size
        &&& self.block_offsets@.len() == self.header.blocks_in_image
        &&& forall|i: int|
            0 <= i < self.block_offsets@.len() && #[trigger] self.block_offsets@[i] is Some
                ==> self.block_offsets@[i]->Some_0 + self.block_size <= u64::MAX
    }

    /// Opens a dynamic VDI image: decodes and validates the header, then loads
    /// the allocation table.
    pub fn open(reader: R) -> (r: Result<VdiDisk<R>, VdiError>)
        ensures
            match r {
                Ok(d) => {
                    let h = d@.header;
                    &&& d@.backing == reader.content()
                    &&& d@.backing_faultless == reader.faultless()
                    &&& d@.backing_transparent == reader.transparent()
                    &&& d@.position == 0
                    &&& h.signature == VdiHeader::SIGNATURE
                    &&& h.version == VdiHeader::VERSION
                    &&& h.image_type == VdiHeader::DYNAMIC
                    &&& d@.block_size == h.block_size
                    &&& d@.table.len() == h.blocks_in_image
                    &&& reader.transparent() ==> opened_from(d@, reader.content())
                },
                Err(e) => reader.transparent() ==> open_failure(reader.content(), reader.faultless(), e),
            },
            reader.faultless() && reader.transparent() ==> (r is Ok <==> open_succeeds(reader.content())),
    {
        let mut raw = vec![0u8; HEADER_SIZE];
        match read_exact_at(&reader, 0, raw.as_mut_slice()) {
            Ok(()) => {},
            Err(e) => {
                return Err(VdiError::Io(e));
            },
        }
        let header = VdiHeader::parse(raw.as_slice());
        if header.signature != VdiHeader::SIGNATURE {
            return Err(VdiError::InvalidSignature);
        }
        if header.version != VdiHeader::VERSION {
            return Err(VdiError::UnsupportedVersion);
        }
        if header.image_type != VdiHeader::DYNAMIC {
            return Err(VdiError::UnsupportedImageType);
        }
        let table_bytes: u64 = header.blocks_in_image as u64 * 4;
        if table_bytes > usize::MAX as u64 {
            return Err(VdiError::Io(io_error(IoErrorKind::OutOfMemory, "allocation table too large")));
        }
        let mut table_raw = vec![0u8; table_bytes as usize];
        match read_exact_at(&reader, header.block_offsets_offset as u64, table_raw.as_mut_slice()) {
            Ok(()) => {},
            Err(e) => {
                return Err(VdiError::Io(e));
            },
        }
        let n = header.blocks_in_image as usize;
        let ghost raw_table = table_raw@;
        let mut block_offsets: Vec<Option<u64>> = Vec::new();
        let mut i: usize = 0;
        while i < n
            invariant
                n == header.blocks_in_image,
                table_raw@ == raw_table,
                raw_table.len() == 4 * n,
                4 * n <= usize::MAX,
                i <= n,
                block_offsets@.len() == i,
                forall|j: int|
                    0 <= j < i ==> #[trigger] block_offsets@[j] == block_location(
                        header,
                        crate::bytes::le32(raw_table, 4 * j) as u32,
                    ),
                forall|j: int|
                    0 <= j < i && #[trigger] block_offsets@[j] is Some ==> block_offsets@[j]->Some_0
                        + header.block_size <= u64::MAX,
            decreases n - i,
        {
            let e = crate::bytes::read_u32_le(table_raw.as_slice(), 4 * i);
            if e == UNALLOCATED {
                block_offsets.push(None);
            } else {
                let bs = header.block_size as u64;
                assert((e as int + 1) * bs <= 0xFFFF_FFFFint * 0xFFFF_FFFFint) by (nonlinear_arith)
                    requires e < 0xFFFF_FFFFint, bs <= 0xFFFF_FFFFint;
                assert((e as int + 1) * bs == e as int * bs + bs) by (nonlinear_arith);
                let fo = header.data_offset as u64 + e as u64 * bs;
                block_offsets.push(Some(fo));
            }
            i = i + 1;
        }
        assert(block_offsets@ =~= decode_table(header, raw_table));
        proof {
            if reader.transparent() {
                assert(decode_table(header, raw_table) =~= decode_table(header, reader.content().subrange(
                    header.block_offsets_offset as int,
                    header.block_offsets_offset + 4 * header.blocks_in_image,
                )));
            }
        }
        Ok(VdiDisk { header, block_size: header.block_size as usize, block_offsets, reader, position: 0 })
    }

    /// The decoded header.
    pub fn header(&self) -> (h: &VdiHeader)
        ensures
            *h == self@.header,
    {
        &self.header
    }

    /// The size of a block in bytes.
    pub fn block_size(&self) -> (b: usize)
        ensures
            b == self@.block_size,
    {
        self.block_size
    }

    /// The file offset of each block, `None` where the block is unallocated.
    pub fn block_offsets(&self) -> (t: &Vec<Option<u64>>)
        ensures
            t@ == self@.table,
    {
        &self.block_offsets
    }

    /// Reads at the cursor and advances it by the count read.
    pub fn read(&mut self, buf: &mut [u8]) -> (r: Result<usize, std::io::Error>)
        ensures
            final(buf)@.len() == old(buf)@.len(),
            r matches Ok(n) ==> (old(self)@.backing_transparent ==> crate::read_at::read_filled(
                old(self).content(),
                old(self)@.position as int,
                old(buf)@,
                final(buf)@,
                n as int,
            )) && final(self)@.position == old(self)@.position + n,
            r is Err ==> final(self)@.position == old(self)@.position,
            old(self).faultless() ==> r is Ok,
            r matches Ok(n) ==> (old(self).faultless() ==> n == full_count(
                old(self).content().len() as int,
                old(self)@.position as int,
                old(buf)@.len() as int,
            )),
            r matches Ok(n) ==> (old(self).faultless() && n == 0 && old(buf)@.len() > 0 ==> old(self)@.position
                >= old(self).content().len()),
            r matches Ok(n) ==> forall|i: int|
                0 <= i < n && #[trigger] old(self)@.table[(old(self)@.position + i) / old(self)@.block_size as int] is None
                    ==> final(buf)@[i] == 0u8,
            old(self)@.position >= old(self).content().len() ==> (r matches Ok(n) && n == 0),
            unallocated_span(
                old(self)@,
                old(self)@.position as int,
                full_count(old(self).content().len() as int, old(self)@.position as int, old(buf)@.len() as int),
            ) ==> (r matches Ok(n) && n == full_count(
                old(self).content().len() as int,
                old(self)@.position as int,
                old(buf)@.len() as int,
            )),
            final(self)@.header == old(self)@.header && final(self)@.table == old(self)@.table
                && final(self)@.backing == old(self)@.backing && final(self)@.block_size == old(self)@.block_size
                && final(self)@.backing_faultless == old(self)@.backing_faultless
                && final(self)@.backing_transparent == old(self)@.backing_transparent,
    {
        let n = match self.read_virtual(self.position, buf) {
            Ok(n) => n,
            Err(e) => {
                return Err(e);
            },
        };
        proof {
            use_type_invariant(&*self);
        }
        self.position = self.position + n as u64;
        Ok(n)
    }

    /// Moves the cursor; positions past the end of the disk are refused and
    /// leave the cursor where it was.
    pub fn seek(&mut self, pos: SeekFrom) -> (r: Result<u64, std::io::Error>)
        ensures
            r matches Ok(p) ==> p == crate::seek::seek_target(pos, old(self)@.position as int, old(self)@.header.disk_size as int)
                && final(self)@.position == p,
            r is Err <==> !(0 <= crate::seek::seek_target(pos, old(self)@.position as int, old(self)@.header.disk_size as int)
                <= old(self)@.header.disk_size),
            r is Err ==> final(self)@.position == old(self)@.position,
            final(self)@.header == old(self)@.header && final(self)@.table == old(self)@.table
                && final(self)@.backing == old(self)@.backing && final(self)@.block_size == old(self)@.block_size
                && final(self)@.backing_faultless == old(self)@.backing_faultless
                && final(self)@.backing_transparent == old(self)@.backing_transparent,
    {
        match resolve_seek(pos, self.position, self.header.disk_size) {
            Some(p) => {
                proof {
                    use_type_invariant(&*self);
                }
                self.position = p;
                Ok(p)
            },
            None => Err(io_error(IoErrorKind::InvalidInput, "Tried to seek beyond end of the disk")),
        }
    }

    /// A borrowed view of the virtual bytes `[range.start, range.end)`.
    pub fn slice(&self, range: std::ops::Range<u64>) -> (s: Slice<'_, VdiDisk<R>>)
        requires
            range.start <= range.end,
        ensures
            s@.inner == self.content(),
            s@.inner_faultless == self.faultless(),
            s@.start == range.start,
            s@.end == range.end,
            s@.pos == 0,
    {
        Slice::new(self, range)
    }

    /// An owning view of the virtual bytes `[range.start, range.end)`.
    pub fn slice_owned(self, range: std::ops::Range<u64>) -> (r: Result<OwnedSlice<VdiDisk<R>>, std::io::Error>)
        requires
            range.start <= range.end,
        ensures
            r matches Ok(s) && s@.inner == self.content() && s@.inner_faultless == self.faultless() && s@.start
                == range.start && s@.end == range.end && s@.pos == 0,
    {
        OwnedSlice::new(self, range)
    }

    /// The disk refuses writes.
    pub fn write(&mut self, buf: &[u8]) -> (r: Result<usize, std::io::Error>)
        ensures
            r is Err,
            *final(self) == *old(self),
    {
        Err(io_error(IoErrorKind::Unsupported, "VdiDisk does not support write operations"))
    }

    /// There is nothing to flush.
    pub fn flush(&mut self) -> (r: Result<(), std::io::Error>)
        ensures
            r is Ok,
            *final(self) == *old(self),
    {
        Ok(())
    }
}

impl<R: ReadAt> ReadAt for VdiDisk<R> {
    open spec fn content(&self) -> Seq<u8> {
        virtual_content(self@)
    }

    open spec fn faultless(&self) -> bool {
        self@.backing_faultless && self@.backing_transparent && blocks_in_backing(self@)
    }

    open spec fn transparent(&self) -> bool {
        self@.backing_transparent
    }

    fn read_at(&self, pos: u64, buf: &mut [u8]) -> (r: Result<usize, std::io::Error>) {
        self.read_virtual(pos, buf)
    }
}

impl<R: ReadAt> VdiDisk<R> {
    /// Reads virtual bytes at `pos`, block by block: unallocated blocks read as
    /// zeros, allocated ones come from the backing reader. Stops at the end of
    /// the disk, or where the backing reader ends.
    pub fn read_virtual(&self, pos: u64, buf: &mut [u8]) -> (r: Result<usize, std::io::Error>)
        ensures
            final(buf)@.len() == old(buf)@.len(),
            self.content().len() <= u64::MAX,
            r matches Ok(n) ==> n <= old(buf)@.len() && (n == 0 || pos + n <= self.content().len()),
            r matches Ok(n) ==> (self.transparent() ==> crate::read_at::read_filled(
                self.content(),
                pos as int,
                old(buf)@,
                final(buf)@,
                n as int,
            )),
            self.faultless() ==> self.transparent() && r is Ok,
            r matches Ok(n) ==> (self.faultless() && n == 0 && old(buf)@.len() > 0 ==> pos >= self.content().len()),
            r matches Ok(n) ==> (self.faultless() ==> n == full_count(
                self.content().len() as int,
                pos as int,
                old(buf)@.len() as int,
            )),
            r matches Ok(n) ==> forall|i: int|
                0 <= i < n && #[trigger] self@.table[(pos + i) / self@.block_size as int] is None ==> final(buf)@[i]
                    == 0u8,
            pos >= self.content().len() ==> (r matches Ok(n) && n == 0),
            unallocated_span(self@, pos as int, full_count(self.content().len() as int, pos as int, old(buf)@.len() as int))
                ==> (r matches Ok(n) && n == full_count(self.content().len() as int, pos as int, old(buf)@.len() as int)),
    {
        proof {
            use_type_invariant(self);
        }
        let len = buf.len();
        let bs = self.block_size as u64;
        if bs == 0 {
            assert(virtual_len(self@) == 0);
            assert(old(buf)@.subrange(0, old(buf)@.len() as int) =~= old(buf)@);
            return Ok(0);
        }
        let nblocks = self.block_offsets.len() as u64;
        assert(nblocks * bs <= 0xFFFF_FFFFint * 0xFFFF_FFFFint) by (nonlinear_arith)
            requires nblocks <= 0xFFFF_FFFFint, bs <= 0xFFFF_FFFFint;
        let table_end: u64 = nblocks * bs;
        let end: u64 = if self.header.disk_size < table_end {
            self.header.disk_size
        } else {
            table_end
        };
        let ghost v = self@;
        let ghost c = virtual_content(v);
        assert(end == virtual_len(v));
        let ghost unalloc = unallocated_span(v, pos as int, full_count(end as int, pos as int, len as int));
        let ghost full = (v.backing_faultless && v.backing_transparent && blocks_in_backing(v)) || unalloc;
        let mut total: usize = 0;
        let mut at: u64 = pos;
        while total < len
            invariant
                v == self@,
                c == virtual_content(v),
                end == virtual_len(v),
                bs == v.block_size,
                bs > 0,
                nblocks == v.table.len(),
                v.table.len() <= usize::MAX,
                end <= nblocks * bs,
                len == old(buf)@.len(),
                buf@.len() == len,
                total <= len,
                at == pos + total,
                total > 0 ==> at <= end,
                v.backing_transparent && total > 0 ==> buf@.subrange(0, total as int) == c.subrange(pos as int, at as int),
                v.backing_transparent ==> buf@.subrange(total as int, len as int) == old(buf)@.subrange(total as int, len as int),
                forall|i: int|
                    0 <= i < total && #[trigger] v.table[(pos + i) / bs as int] is None ==> buf@[i] == 0u8,
                unalloc == unallocated_span(v, pos as int, full_count(end as int, pos as int, len as int)),
                full == ((v.backing_faultless && v.backing_transparent && blocks_in_backing(v)) || unalloc),
            ensures
                total <= len,
                at == pos + total,
                buf@.len() == len,
                total > 0 ==> at <= end,
                v.backing_transparent && total > 0 ==> buf@.subrange(0, total as int) == c.subrange(pos as int, at as int),
                v.backing_transparent ==> buf@.subrange(total as int, len as int) == old(buf)@.subrange(total as int, len as int),
                v.backing_faultless && v.backing_transparent && blocks_in_backing(v) && total == 0 && len > 0 ==> at >= end,
                forall|i: int|
                    0 <= i < total && #[trigger] v.table[(pos + i) / bs as int] is None ==> buf@[i] == 0u8,
                unalloc == unallocated_span(v, pos as int, full_count(end as int, pos as int, len as int)),
                full == ((v.backing_faultless && v.backing_transparent && blocks_in_backing(v)) || unalloc),
                full ==> (total == len || at >= end),
            decreases len - total,
        {
            proof {
                use_type_invariant(self);
            }
            if at >= end {
                break;
            }
            proof {
                lemma_block_index(at as int, bs as int, nblocks as int);
            }
            let block_index = at / bs;
            let block_offset = at % bs;
            let mut to_read: u64 = bs - block_offset;
            if to_read > end - at {
                to_read = end - at;
            }
            let room: usize = len - total;
            if to_read > room as u64 {
                to_read = room as u64;
            }
            let chunk = to_read as usize;
            let ghost before = buf@;
            assert(block_index < self.block_offsets@.len());
            let bi = block_index as usize;
            assert(bi == block_index);
            let entry = self.block_offsets[bi];
            assert(entry == self.block_offsets@[bi as int]);
            match entry {
                Some(file_offset) => {
                    assert(self.block_offsets@[block_index as int] is Some);
                    proof {
                        if unalloc {
                            assert(pos <= at < pos + full_count(end as int, pos as int, len as int));
                            assert(v.table[at as int / bs as int] is None);
                        }
                    }
                    let mut tmp = vec![0u8; chunk];
                    let n = match self.reader.read_at(file_offset + block_offset, tmp.as_mut_slice()) {
                        Ok(n) => n,
                        Err(e) => {
                            return Err(e);
                        },
                    };
                    if n == 0 {
                        proof {
                            if v.backing_faultless && v.backing_transparent && blocks_in_backing(v) {
                                assert(v.table[block_index as int] is Some);
                            }
                        }
                        break;
                    }
                    copy_into(buf, total, tmp.as_slice(), n);
                    proof {
                        assert forall|i: int|
                            0 <= i < total + n && #[trigger] v.table[(pos + i) / bs as int] is None implies buf@[i]
                                == 0u8 by {
                            if i >= total {
                                crate::read_at::lemma_in_block(at as int, bs as int, i - total);
                            }
                        }
                        if v.backing_transparent {
                        assert forall|j: int| total <= j < total + n implies buf@[j] == c[pos + j] by {
                            let k = j - total;
                            crate::read_at::lemma_in_block(at as int, bs as int, k);
                            assert(tmp@[k] == tmp@.subrange(0, n as int)[k]);
                            assert(buf@[j] == tmp@.subrange(0, n as int)[k]);
                        }
                        self.lemma_extend(pos as int, total as int, n as int, old(buf)@, before, buf@, c);
                        }
                    }
                    total = total + n;
                    at = at + n as u64;
                },
                None => {
                    zero_fill(buf, total, chunk);
                    proof {
                        assert forall|i: int|
                            0 <= i < total + chunk && #[trigger] v.table[(pos + i) / bs as int] is None implies buf@[i]
                                == 0u8 by {
                        }
                        if v.backing_transparent {
                        assert forall|j: int| total <= j < total + chunk implies buf@[j] == c[pos + j] by {
                            let k = j - total;
                            crate::read_at::lemma_in_block(at as int, bs as int, k);
                        }
                        self.lemma_extend(pos as int, total as int, chunk as int, old(buf)@, before, buf@, c);
                        }
                    }
                    total = total + chunk;
                    at = at + to_read;
                },
            }
        }
        Ok(total)
    }
}

impl<R: ReadAt> VdiDisk<R> {
    proof fn lemma_extend(&self, pos: int, total: int, n: int, orig: Seq<u8>, before: Seq<u8>, after: Seq<u8>, c: Seq<u8>)
        requires
            orig.len() == before.len(),
            before.subrange(total, before.len() as int) == orig.subrange(total, orig.len() as int),
            n > 0,
            0 <= pos,
            0 <= total,
            total + n <= before.len(),
            after.len() == before.len(),
            pos + total + n <= c.len(),
            total > 0 ==> before.subrange(0, total) == c.subrange(pos, pos + total),
            forall|j: int| 0 <= j < total ==> after[j] == before[j],
            forall|j: int| total + n <= j < before.len() ==> after[j] == before[j],
            forall|j: int| total <= j < total + n ==> after[j] == c[pos + j],
        ensures
            after.subrange(0, total + n) == c.subrange(pos, pos + total + n),
            after.subrange(total + n, after.len() as int) == orig.subrange(total + n, orig.len() as int),
    {
        assert forall|k: int| 0 <= k < total + n implies after[k] == c[pos + k] by {
            if k < total {
                assert(before.subrange(0, total)[k] == c.subrange(pos, pos + total)[k]);
            }
        }
        assert(after.subrange(0, total + n) =~= c.subrange(pos, pos + total + n));
        assert forall|j: int| total + n <= j < orig.len() implies after[j] == orig[j] by {
            assert(before.subrange(total, before.len() as int)[j - total] == orig.subrange(total, orig.len() as int)[j
                - total]);
        }
        assert(after.subrange(total + n, after.len() as int) =~= orig.subrange(total + n, orig.len() as int));
    }
}

/// The disk `v` was decoded from the bytes `c`: header and allocation table.
pub open spec fn opened_from(v: VdiView, c: Seq<u8>) -> bool {
    let h = v.header;
    &&& HEADER_SIZE <= c.len()
    &&& h.decoded_from(c.subrange(0, HEADER_SIZE as int))
    &&& h.blocks_in_image > 0 ==> h.block_offsets_offset + 4 * h.blocks_in_image <= c.len()
    &&& v.table == decode_table(h, c.subrange(
        h.block_offsets_offset as int,
        h.block_offsets_offset + 4 * h.blocks_in_image,
    ))
}

/// The header bytes, when the source holds them all.
pub open spec fn header_bytes(c: Seq<u8>) -> Seq<u8> {
    c.subrange(0, HEADER_SIZE as int)
}

/// Opening succeeds: the header and table are readable and the header valid.
pub open spec fn open_succeeds(c: Seq<u8>) -> bool {
    let b = header_bytes(c);
    let sig = crate::bytes::le32(b, 64);
    let ver = crate::bytes::le32(b, 68);
    let kind = crate::bytes::le32(b, 76);
    let bs = crate::bytes::le32(b, 376);
    let table_at = crate::bytes::le32(b, 340);
    let n = crate::bytes::le32(b, 384);
    &&& HEADER_SIZE <= c.len()
    &&& sig == VdiHeader::SIGNATURE
    &&& ver == VdiHeader::VERSION
    &&& kind == VdiHeader::DYNAMIC
    &&& 4 * n <= usize::MAX
    &&& (n == 0 || table_at + 4 * n <= c.len())
}

/// What a failed open says of the source: each format error comes exactly when
/// the header read shows it; an I/O error only when a read could not be served.
pub open spec fn open_failure(c: Seq<u8>, faultless: bool, e: VdiError) -> bool {
    let b = header_bytes(c);
    let readable = HEADER_SIZE <= c.len();
    match e {
        VdiError::InvalidSignature => readable && crate::bytes::le32(b, 64) != VdiHeader::SIGNATURE,
        VdiError::UnsupportedVersion => readable && crate::bytes::le32(b, 64) == VdiHeader::SIGNATURE
            && crate::bytes::le32(b, 68) != VdiHeader::VERSION,
        VdiError::UnsupportedImageType => readable && crate::bytes::le32(b, 64) == VdiHeader::SIGNATURE
            && crate::bytes::le32(b, 68) == VdiHeader::VERSION && crate::bytes::le32(b, 76) != VdiHeader::DYNAMIC,
        VdiError::Io(_) => !faultless || !open_succeeds(c) && (!readable || (crate::bytes::le32(b, 64)
            == VdiHeader::SIGNATURE && crate::bytes::le32(b, 68) == VdiHeader::VERSION && crate::bytes::le32(b, 76)
            == VdiHeader::DYNAMIC)),
    }
}

} // verus!

verus! {

/// Every virtual byte in `[pos, pos + n)` lies in an unallocated block.
pub open spec fn unallocated_span(v: VdiView, pos: int, n: int) -> bool {
    forall|p: int| pos <= p < pos + n ==> #[trigger] v.table[p / v.block_size as int] is None
}

/// A virtual byte inside a block that the allocation table marks unallocated
/// reads as zero.
pub proof fn lemma_unallocated_reads_zero(v: VdiView, p: int)
    requires
        0 <= p < virtual_len(v),
        v.table[p / v.block_size as int] is None,
    ensures
        virtual_content(v)[p] == 0,
{
}

/// When the declared disk size does not exceed what the table covers, the
/// virtual disk is exactly `disk_size` bytes long, so a read that yields
/// nothing from a faultless disk starts at or past `disk_size`.
pub proof fn lemma_virtual_len_is_disk_size(v: VdiView)
    requires
        v.header.disk_size <= v.table.len() * v.block_size,
    ensures
        virtual_content(v).len() == v.header.disk_size,
{
}

} // verus!
