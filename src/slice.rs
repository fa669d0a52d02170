//! Byte-range slices: a positioned reader re-based over a sub-range of another.
use vstd::prelude::*;
use crate::read_at::{copy_into, full_count, ReadAt, io_error, IoErrorKind};
use crate::seek::{resolve_seek, SeekFrom};

verus! {

/// The bytes of `c` that the range `[start, end)` covers; the part past the end
/// of `c` is empty.
pub open spec fn sliced(c: Seq<u8>, start: int, end: int) -> Seq<u8> {
    c.subrange(vstd::math::min(start, c.len() as int), vstd::math::min(end, c.len() as int))
}

/// How many bytes of a `len`-byte buffer a read at `pos` in a range of
/// `range_len` bytes may fill: none at or past the end of the range.
pub open spec fn clamped_len(range_len: int, pos: int, len: int) -> int {
    if pos >= range_len {
        0
    } else {
        vstd::math::min(len, range_len - pos)
    }
}

/// Reads at `pos` within the range `[start, end)` of `inner`: at or past the
/// end of the range nothing is read; otherwise one read of `inner` at
/// `start + pos` into at most the bytes the range has left.
pub fn read_in_range<D: ReadAt>(inner: &D, start: u64, end: u64, pos: u64, buf: &mut [u8]) -> (r: Result<usize, std::io::Error>)
    requires
        start <= end,
    ensures
        final(buf)@.len() == old(buf)@.len(),
        pos >= end - start ==> final(buf)@ == old(buf)@,
        r matches Ok(n) ==> n <= clamped_len(end - start, pos as int, old(buf)@.len() as int),
        r matches Ok(n) ==> final(buf)@.subrange(
            clamped_len(end - start, pos as int, old(buf)@.len() as int),
            old(buf)@.len() as int,
        ) == old(buf)@.subrange(clamped_len(end - start, pos as int, old(buf)@.len() as int), old(buf)@.len() as int),
        r matches Ok(n) ==> n <= old(buf)@.len() && (n == 0 || pos + n <= end - start),
        r matches Ok(n) ==> (inner.transparent() ==> crate::read_at::read_filled(
            sliced(inner.content(), start as int, end as int),
            pos as int,
            old(buf)@,
            final(buf)@,
            n as int,
        )),
        inner.faultless() && inner.transparent() ==> r is Ok,
        pos >= end - start ==> (r matches Ok(n) && n == 0),
        r matches Ok(n) ==> (inner.faultless() && inner.transparent() ==> n == full_count(
            sliced(inner.content(), start as int, end as int).len() as int,
            pos as int,
            old(buf)@.len() as int,
        )),
        r matches Ok(n) ==> (inner.faultless() && inner.transparent() && n == 0 && old(buf)@.len() > 0 ==> pos >= sliced(
            inner.content(),
            start as int,
            end as int,
        ).len()),
{
    let ghost c = inner.content();
    let ghost s = sliced(c, start as int, end as int);
    if pos >= end - start {
        assert(old(buf)@.subrange(0, old(buf)@.len() as int) =~= old(buf)@);
        return Ok(0);
    }
    let avail: u64 = end - start - pos;
    let at: u64 = start + pos;
    let len = buf.len();
    let n = if len as u64 <= avail {
        match inner.read_at(at, buf) {
            Ok(n) => n,
            Err(e) => {
                return Err(e);
            },
        }
    } else {
        let want = avail as usize;
        let mut tmp = vec![0u8; want];
        let n = match inner.read_at(at, tmp.as_mut_slice()) {
            Ok(n) => n,
            Err(e) => {
                return Err(e);
            },
        };
        let ghost before = buf@;
        copy_into(buf, 0, tmp.as_slice(), n);
        assert(buf@.subrange(n as int, len as int) =~= before.subrange(n as int, len as int));
        assert(buf@.subrange(want as int, len as int) =~= before.subrange(want as int, len as int));
        proof {
            if n > 0 && inner.transparent() {
                assert forall|j: int| 0 <= j < n implies buf@.subrange(0, n as int)[j] == c.subrange(
                    at as int,
                    at + n,
                )[j] by {
                    assert(tmp@.subrange(0, n as int)[j] == tmp@[j]);
                }
                assert(buf@.subrange(0, n as int) =~= c.subrange(at as int, at + n));
            }
        }
        n
    };
    proof {
        if n > 0 && inner.transparent() {
            assert(s.subrange(pos as int, pos + n) =~= c.subrange(at as int, at + n));
        }
    }
    Ok(n)
}

/// A borrowed view of `[range.start, range.end)` of `inner`, with a cursor.
pub struct Slice<'a, D: ReadAt> {
    inner: &'a D,
    range: std::ops::Range<u64>,
    pos: u64,
}

/// The ghost picture of a slice: the underlying bytes, the range, the cursor.
pub struct SliceView {
    pub inner: Seq<u8>,
    pub inner_faultless: bool,
    pub inner_transparent: bool,
    pub start: u64,
    pub end: u64,
    pub pos: u64,
}

impl<'a, D: ReadAt> View for Slice<'a, D> {
    type V = SliceView;

    closed spec fn view(&self) -> SliceView {
        SliceView {
            inner: self.inner.content(),
            inner_faultless: self.inner.faultless(),
            inner_transparent: self.inner.transparent(),
            start: self.range.start,
            end: self.range.end,
            pos: self.pos,
        }
    }
}

/// The bytes a slice exposes.
pub open spec fn slice_content(v: SliceView) -> Seq<u8> {
    sliced(v.inner, v.start as int, v.end as int)
}

impl<'a, D: ReadAt> Slice<'a, D> {
    #[verifier::type_invariant]
    spec fn inv(&self) -> bool {
        self.range.start <= self.range.end
    }

    pub fn new(inner: &'a D, range: std::ops::Range<u64>) -> (s: Self)
        requires
            range.start <= range.end,
        ensures
            s@.inner == inner.content(),
            s@.inner_faultless == inner.faultless(),
            s@.inner_transparent == inner.transparent(),
            s@.start == range.start,
            s@.end == range.end,
            s@.pos == 0,
    {
        Self { inner, range, pos: 0 }
    }

    /// The length of the range.
    #[allow(clippy::len_without_is_empty)]
    pub fn len(&self) -> (n: usize)
        ensures
            self@.start <= self@.end,
            n == (self@.end - self@.start) as usize,
    {
        proof {
            use_type_invariant(self);
        }
        (self.range.end - self.range.start) as usize
    }

    /// Reads at the cursor and advances it by the count read.
    pub fn read(&mut self, buf: &mut [u8]) -> (r: Result<usize, std::io::Error>)
        ensures
            final(buf)@.len() == old(buf)@.len(),
            r matches Ok(n) ==> (old(self)@.inner_transparent ==> crate::read_at::read_filled(
                slice_content(old(self)@),
                old(self)@.pos as int,
                old(buf)@,
                final(buf)@,
                n as int,
            )) && final(self)@ == (SliceView { pos: (old(self)@.pos + n) as u64, ..old(self)@ }),
            r is Err ==> final(self)@ == old(self)@,
            old(self)@.inner_faultless && old(self)@.inner_transparent ==> r is Ok,
            r matches Ok(n) ==> (old(self)@.inner_faultless && old(self)@.inner_transparent ==> n == full_count(
                slice_content(old(self)@).len() as int,
                old(self)@.pos as int,
                old(buf)@.len() as int,
            )),
            r matches Ok(n) ==> (old(self)@.inner_faultless && old(self)@.inner_transparent && n == 0 && old(buf)@.len()
                > 0 ==> old(self)@.pos >= slice_content(old(self)@).len()),
            old(self)@.pos >= old(self)@.end - old(self)@.start ==> (r matches Ok(n) && n == 0),
            r matches Ok(n) ==> n <= clamped_len(
                old(self)@.end - old(self)@.start,
                old(self)@.pos as int,
                old(buf)@.len() as int,
            ),
            r matches Ok(n) ==> final(buf)@.subrange(
                clamped_len(old(self)@.end - old(self)@.start, old(self)@.pos as int, old(buf)@.len() as int),
                old(buf)@.len() as int,
            ) == old(buf)@.subrange(
                clamped_len(old(self)@.end - old(self)@.start, old(self)@.pos as int, old(buf)@.len() as int),
                old(buf)@.len() as int,
            ),
    {
        proof {
            use_type_invariant(&*self);
        }
        let n = match read_in_range(self.inner, self.range.start, self.range.end, self.pos, buf) {
            Ok(n) => n,
            Err(e) => {
                return Err(e);
            },
        };
        self.pos = self.pos + n as u64;
        Ok(n)
    }

    /// Moves the cursor within `[0, len]`; other positions are refused and leave
    /// the cursor where it was.
    pub fn seek(&mut self, pos: SeekFrom) -> (r: Result<u64, std::io::Error>)
        ensures
            ({
                let target = crate::seek::seek_target(pos, old(self)@.pos as int, old(self)@.end - old(self)@.start);
                &&& r matches Ok(p) ==> p == target && final(self)@ == (SliceView { pos: p, ..old(self)@ })
                &&& r is Err <==> !(0 <= target <= old(self)@.end - old(self)@.start)
                &&& r is Err ==> final(self)@ == old(self)@
            }),
    {
        proof {
            use_type_invariant(&*self);
        }
        match resolve_seek(pos, self.pos, self.range.end - self.range.start) {
            Some(p) => {
                self.pos = p;
                Ok(p)
            },
            None => Err(io_error(IoErrorKind::InvalidInput, "seek out of bounds")),
        }
    }
}

impl<'a, D: ReadAt> ReadAt for Slice<'a, D> {
    open spec fn content(&self) -> Seq<u8> {
        slice_content(self@)
    }

    open spec fn faultless(&self) -> bool {
        self@.inner_faultless && self@.inner_transparent
    }

    open spec fn transparent(&self) -> bool {
        self@.inner_transparent
    }

    fn read_at(&self, pos: u64, buf: &mut [u8]) -> (r: Result<usize, std::io::Error>) {
        proof {
            use_type_invariant(self);
        }
        read_in_range(self.inner, self.range.start, self.range.end, pos, buf)
    }
}

/// An owning view of `[range.start, range.end)` of `inner`, with a cursor.
pub struct OwnedSlice<D: ReadAt> {
    inner: D,
    range: std::ops::Range<u64>,
    pos: u64,
}

impl<D: ReadAt> View for OwnedSlice<D> {
    type V = SliceView;

    closed spec fn view(&self) -> SliceView {
        SliceView {
            inner: self.inner.content(),
            inner_faultless: self.inner.faultless(),
            inner_transparent: self.inner.transparent(),
            start: self.range.start,
            end: self.range.end,
            pos: self.pos,
        }
    }
}

impl<D: ReadAt> OwnedSlice<D> {
    #[verifier::type_invariant]
    spec fn inv(&self) -> bool {
        self.range.start <= self.range.end
    }

    pub fn new(inner: D, range: std::ops::Range<u64>) -> (r: Result<Self, std::io::Error>)
        requires
            range.start <= range.end,
        ensures
            r matches Ok(s) && s@.inner == inner.content() && s@.inner_faultless == inner.faultless()
                && s@.inner_transparent == inner.transparent()
                && s@.start == range.start && s@.end == range.end && s@.pos == 0,
    {
        Ok(Self { inner, range, pos: 0 })
    }

    /// Gives the underlying reader back.
    pub fn into_inner(self) -> (d: D)
        ensures
            d.content() == self@.inner,
            d.faultless() == self@.inner_faultless,
            d.transparent() == self@.inner_transparent,
    {
        self.inner
    }

    /// The length of the range.
    #[allow(clippy::len_without_is_empty)]
    pub fn len(&self) -> (n: usize)
        ensures
            self@.start <= self@.end,
            n == (self@.end - self@.start) as usize,
    {
        proof {
            use_type_invariant(self);
        }
        (self.range.end - self.range.start) as usize
    }

    /// Reads at the cursor and advances it by the count read.
    pub fn read(&mut self, buf: &mut [u8]) -> (r: Result<usize, std::io::Error>)
        ensures
            final(buf)@.len() == old(buf)@.len(),
            r matches Ok(n) ==> (old(self)@.inner_transparent ==> crate::read_at::read_filled(
                slice_content(old(self)@),
                old(self)@.pos as int,
                old(buf)@,
                final(buf)@,
                n as int,
            )) && final(self)@ == (SliceView { pos: (old(self)@.pos + n) as u64, ..old(self)@ }),
            r is Err ==> final(self)@ == old(self)@,
            old(self)@.inner_faultless && old(self)@.inner_transparent ==> r is Ok,
            r matches Ok(n) ==> (old(self)@.inner_faultless && old(self)@.inner_transparent ==> n == full_count(
                slice_content(old(self)@).len() as int,
                old(self)@.pos as int,
                old(buf)@.len() as int,
            )),
            r matches Ok(n) ==> (old(self)@.inner_faultless && old(self)@.inner_transparent && n == 0 && old(buf)@.len()
                > 0 ==> old(self)@.pos >= slice_content(old(self)@).len()),
            old(self)@.pos >= old(self)@.end - old(self)@.start ==> (r matches Ok(n) && n == 0),
            r matches Ok(n) ==> n <= clamped_len(
                old(self)@.end - old(self)@.start,
                old(self)@.pos as int,
                old(buf)@.len() as int,
            ),
            r matches Ok(n) ==> final(buf)@.subrange(
                clamped_len(old(self)@.end - old(self)@.start, old(self)@.pos as int, old(buf)@.len() as int),
                old(buf)@.len() as int,
            ) == old(buf)@.subrange(
                clamped_len(old(self)@.end - old(self)@.start, old(self)@.pos as int, old(buf)@.len() as int),
                old(buf)@.len() as int,
            ),
    {
        proof {
            use_type_invariant(&*self);
        }
        let n = match read_in_range(&self.inner, self.range.start, self.range.end, self.pos, buf) {
            Ok(n) => n,
            Err(e) => {
                return Err(e);
            },
        };
        self.pos = self.pos + n as u64;
        Ok(n)
    }

    /// Moves the cursor within `[0, len]`; other positions are refused and leave
    /// the cursor where it was.
    pub fn seek(&mut self, pos: SeekFrom) -> (r: Result<u64, std::io::Error>)
        ensures
            ({
                let target = crate::seek::seek_target(pos, old(self)@.pos as int, old(self)@.end - old(self)@.start);
                &&& r matches Ok(p) ==> p == target && final(self)@ == (SliceView { pos: p, ..old(self)@ })
                &&& r is Err <==> !(0 <= target <= old(self)@.end - old(self)@.start)
                &&& r is Err ==> final(self)@ == old(self)@
            }),
    {
        proof {
            use_type_invariant(&*self);
        }
        match resolve_seek(pos, self.pos, self.range.end - self.range.start) {
            Some(p) => {
                self.pos = p;
                Ok(p)
            },
            None => Err(io_error(IoErrorKind::InvalidInput, "seek out of bounds")),
        }
    }
}

impl<D: ReadAt> ReadAt for OwnedSlice<D> {
    open spec fn content(&self) -> Seq<u8> {
        slice_content(self@)
    }

    open spec fn faultless(&self) -> bool {
        self@.inner_faultless && self@.inner_transparent
    }

    open spec fn transparent(&self) -> bool {
        self@.inner_transparent
    }

    fn read_at(&self, pos: u64, buf: &mut [u8]) -> (r: Result<usize, std::io::Error>) {
        proof {
            use_type_invariant(self);
        }
        read_in_range(&self.inner, self.range.start, self.range.end, pos, buf)
    }
}

} // verus!
