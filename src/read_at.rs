//! The positioned-read capability: "read N bytes at absolute offset O".
use vstd::prelude::*;

verus! {

#[verifier::external_type_specification]
#[verifier::external_body]
pub struct ExIoError(std::io::Error);

/// The kinds of I/O error that the library raises itself.
#[derive(Clone, Copy, Debug, PartialEq, Eq)]
pub enum IoErrorKind {
    UnexpectedEof,
    InvalidInput,
    OutOfMemory,
    Unsupported,
}

/// Relies on `std::io::Error::new`: an error of the given kind that carries
/// the text `msg`.
#[verifier::external_body]
pub(crate) fn io_error(kind: IoErrorKind, msg: &str) -> std::io::Error {
    let kind = match kind {
        IoErrorKind::UnexpectedEof => std::io::ErrorKind::UnexpectedEof,
        IoErrorKind::InvalidInput => std::io::ErrorKind::InvalidInput,
        IoErrorKind::OutOfMemory => std::io::ErrorKind::OutOfMemory,
        IoErrorKind::Unsupported => std::io::ErrorKind::Unsupported,
    };
    std::io::Error::new(kind, msg)
}

/// What a successful positioned read of `n` bytes at `pos` leaves in a buffer
/// that held `before` and now holds `after`: the first `n` bytes come from
/// `content` at `pos`, the rest of the buffer is untouched.
pub open spec fn read_filled(content: Seq<u8>, pos: int, before: Seq<u8>, after: Seq<u8>, n: int) -> bool {
    &&& 0 <= n <= before.len()
    &&& after.len() == before.len()
    &&& n > 0 ==> pos + n <= content.len()
    &&& n > 0 ==> after.subrange(0, n) == content.subrange(pos, pos + n)
    &&& after.subrange(n, after.len() as int) == before.subrange(n, before.len() as int)
}

/// How many bytes a full read of a `buf_len`-byte buffer at `pos` yields from
/// `len` bytes of content: up to the end of the buffer or of the content.
pub open spec fn full_count(len: int, pos: int, buf_len: int) -> int {
    if pos >= len {
        0
    } else {
        vstd::math::min(buf_len, len - pos)
    }
}

/// A source of bytes that can be read at any offset without a cursor.
pub trait ReadAt {
    /// The bytes of the source, from offset 0 up to its end.
    spec fn content(&self) -> Seq<u8>;

    /// The source never fails, and every read is full: it yields as many bytes
    /// as the buffer and the content allow.
    spec fn faultless(&self) -> bool;

    /// What the source yields is known: every successful read agrees with
    /// `content`. A file on disk is not transparent: its bytes are outside the
    /// model.
    spec fn transparent(&self) -> bool;

    /// Fills a prefix of `buf` with the bytes at `pos` and returns its length.
    /// Short reads are allowed; `Ok(0)` signals the end of the source.
    fn read_at(&self, pos: u64, buf: &mut [u8]) -> (r: Result<usize, std::io::Error>)
        ensures
            final(buf)@.len() == old(buf)@.len(),
            self.content().len() <= u64::MAX,
            r matches Ok(n) ==> n <= old(buf)@.len(),
            r matches Ok(n) ==> (self.transparent() ==> read_filled(
                self.content(),
                pos as int,
                old(buf)@,
                final(buf)@,
                n as int,
            )),
            self.faultless() ==> self.transparent() && r is Ok,
            r matches Ok(n) ==> (self.faultless() && n == 0 && old(buf)@.len() > 0 ==> pos >= self.content().len()),
            r matches Ok(n) ==> (self.faultless() ==> n == full_count(
                self.content().len() as int,
                pos as int,
                old(buf)@.len() as int,
            )),
    ;
}

/// Reads exactly `buf.len()` bytes at `pos`, failing if the source ends first.
pub fn read_exact_at<R: ReadAt>(src: &R, pos: u64, buf: &mut [u8]) -> (r: Result<(), std::io::Error>)
    ensures
        final(buf)@.len() == old(buf)@.len(),
        src.transparent() && r is Ok && old(buf)@.len() > 0 ==> pos + old(buf)@.len() <= src.content().len()
            <= u64::MAX && final(buf)@ == src.content().subrange(pos as int, pos + old(buf)@.len()),
        src.faultless() ==> (r is Ok <==> old(buf)@.len() == 0 || pos + old(buf)@.len()
            <= src.content().len()),
{
    let len = buf.len();
    let mut filled: usize = 0;
    while filled < len
        invariant
            buf@.len() == len,
            len == old(buf)@.len(),
            filled <= len,
            filled > 0 ==> src.content().len() <= u64::MAX,
            filled > 0 && src.faultless() ==> src.transparent(),
            filled > 0 && src.transparent() ==> pos + filled <= src.content().len(),
            filled > 0 && src.transparent() ==> buf@.subrange(0, filled as int) == src.content().subrange(
                pos as int,
                pos + filled,
            ),
        decreases len - filled,
    {
        let want: usize = len - filled;
        let mut tmp = vec![0u8; want];
        let at = match pos.checked_add(filled as u64) {
            Some(a) => a,
            None => {
                return Err(io_error(IoErrorKind::UnexpectedEof, "failed to fill whole buffer"));
            },
        };
        let n = match src.read_at(at, tmp.as_mut_slice()) {
            Ok(n) => n,
            Err(e) => {
                return Err(e);
            },
        };
        if n == 0 {
            return Err(io_error(IoErrorKind::UnexpectedEof, "failed to fill whole buffer"));
        }
        let ghost before = buf@;
        copy_into(buf, filled, tmp.as_slice(), n);
        proof {
            if src.transparent() {
                assert(tmp@.subrange(0, n as int) == src.content().subrange(at as int, at + n));
                assert forall|j: int| 0 <= j < filled + n implies buf@[j] == src.content()[pos + j] by {
                    if j < filled {
                        assert(before.subrange(0, filled as int)[j] == src.content().subrange(pos as int, pos + filled)[j]);
                    } else {
                        assert(tmp@.subrange(0, n as int)[j - filled] == src.content().subrange(at as int, at + n)[j
                            - filled]);
                    }
                }
                assert(buf@.subrange(0, filled + n) =~= src.content().subrange(pos as int, pos + filled + n));
            }
        }
        filled = filled + n;
    }
    assert(buf@ =~= buf@.subrange(0, len as int));
    Ok(())
}

/// An in-memory image is a faultless source whose content is the vector itself.
impl ReadAt for Vec<u8> {
    open spec fn content(&self) -> Seq<u8> {
        self@
    }

    open spec fn faultless(&self) -> bool {
        true
    }

    open spec fn transparent(&self) -> bool {
        true
    }

    fn read_at(&self, pos: u64, buf: &mut [u8]) -> (r: Result<usize, std::io::Error>) {
        let len = self.len();
        assert(self@.len() <= u64::MAX) by {
            assert(len as int == self@.len());
        }
        vec_read_at(self, pos, buf)
    }
}

#[verifier::external_type_specification]
#[verifier::external_body]
pub struct ExRandomAccessFile(positioned_io2::RandomAccessFile);

/// A file read with the operating system's positioned reads. Its bytes lie
/// outside the model: reads may fail, and what they yield is not known.
impl ReadAt for positioned_io2::RandomAccessFile {
    open spec fn content(&self) -> Seq<u8> {
        Seq::empty()
    }

    open spec fn faultless(&self) -> bool {
        false
    }

    open spec fn transparent(&self) -> bool {
        false
    }

    fn read_at(&self, pos: u64, buf: &mut [u8]) -> (r: Result<usize, std::io::Error>) {
        file_read_at(self, pos, buf)
    }
}

/// Relies on `positioned_io2`'s `ReadAt` for `RandomAccessFile`, a positioned
/// read of the file (`pread`): it returns how many bytes it put at the front
/// of `buf`, never more than `buf.len()`.
#[verifier::external_body]
fn file_read_at(f: &positioned_io2::RandomAccessFile, pos: u64, buf: &mut [u8]) -> (r: Result<usize, std::io::Error>)
    ensures
        final(buf)@.len() == old(buf)@.len(),
        r matches Ok(n) ==> n <= old(buf)@.len(),
{
    positioned_io2::ReadAt::read_at(f, pos, buf)
}

/// Relies on `positioned_io2`'s `ReadAt` for `Vec<u8>`: it copies
/// `min(buf.len(), len - pos)` bytes from `pos` (none when `pos >= len`) into
/// the front of `buf` and always returns `Ok` with that count.
#[verifier::external_body]
fn vec_read_at(v: &Vec<u8>, pos: u64, buf: &mut [u8]) -> (r: Result<usize, std::io::Error>)
    ensures
        final(buf)@.len() == old(buf)@.len(),
        r is Ok,
        r matches Ok(n) ==> n == (if pos >= v@.len() { 0 } else { vstd::math::min(
            old(buf)@.len() as int,
            v@.len() - pos,
        ) }) && read_filled(v@, pos as int, old(buf)@, final(buf)@, n as int),
{
    positioned_io2::ReadAt::read_at(v, pos, buf)
}

} // verus!

verus! {

/// Copies the first `n` bytes of `src` into `dst` at `at`.
pub fn copy_into(dst: &mut [u8], at: usize, src: &[u8], n: usize)
    requires
        at + n <= old(dst)@.len(),
        n <= src@.len(),
    ensures
        final(dst)@.len() == old(dst)@.len(),
        forall|j: int| 0 <= j < at ==> final(dst)@[j] == old(dst)@[j],
        forall|j: int| at <= j < at + n ==> final(dst)@[j] == src@[j - at],
        forall|j: int| at + n <= j < old(dst)@.len() ==> final(dst)@[j] == old(dst)@[j],
{
    let dl = dst.len();
    assert(dl as int == old(dst)@.len());
    let mut i: usize = 0;
    while i < n
        invariant
            i <= n,
            at + n <= old(dst)@.len() <= usize::MAX,
            n <= src@.len(),
            dst@.len() == old(dst)@.len(),
            forall|j: int| 0 <= j < at ==> dst@[j] == old(dst)@[j],
            forall|j: int| at <= j < at + i ==> dst@[j] == src@[j - at],
            forall|j: int| at + i <= j < dst@.len() ==> dst@[j] == old(dst)@[j],
        decreases n - i,
    {
        dst[at + i] = src[i];
        i = i + 1;
    }
}

/// Sets `n` bytes of `dst` at `at` to zero.
pub fn zero_fill(dst: &mut [u8], at: usize, n: usize)
    requires
        at + n <= old(dst)@.len(),
    ensures
        final(dst)@.len() == old(dst)@.len(),
        forall|j: int| 0 <= j < at ==> final(dst)@[j] == old(dst)@[j],
        forall|j: int| at <= j < at + n ==> final(dst)@[j] == 0u8,
        forall|j: int| at + n <= j < old(dst)@.len() ==> final(dst)@[j] == old(dst)@[j],
{
    let dl = dst.len();
    assert(dl as int == old(dst)@.len());
    let mut i: usize = 0;
    while i < n
        invariant
            i <= n,
            at + n <= old(dst)@.len() <= usize::MAX,
            dst@.len() == old(dst)@.len(),
            forall|j: int| 0 <= j < at ==> dst@[j] == old(dst)@[j],
            forall|j: int| at <= j < at + i ==> dst@[j] == 0u8,
            forall|j: int| at + i <= j < dst@.len() ==> dst@[j] == old(dst)@[j],
        decreases n - i,
    {
        dst[at + i] = 0;
        i = i + 1;
    }
}

} // verus!

verus! {

/// Offsets inside one block share its index and keep their distance.
pub proof fn lemma_in_block(p: int, bs: int, k: int)
    requires
        bs > 0,
        p >= 0,
        0 <= k,
        p % bs + k < bs,
    ensures
        (p + k) / bs == p / bs,
        (p + k) % bs == p % bs + k,
{
    vstd::arithmetic::div_mod::lemma_fundamental_div_mod(p, bs);
    assert(0 <= p % bs) by (nonlinear_arith)
        requires bs > 0;
    assert(p + k == (p / bs) * bs + (p % bs + k)) by (nonlinear_arith)
        requires p == bs * (p / bs) + p % bs;
    vstd::arithmetic::div_mod::lemma_fundamental_div_mod_converse(p + k, bs, p / bs, p % bs + k);
}

} // verus!

verus! {

/// A read that starts inside a block and fits in what is left of it ends at
/// or before the block's end.
pub proof fn lemma_block_span(p: int, bs: int, n: int)
    requires
        bs > 0,
        p >= 0,
        0 <= n,
        p % bs + n <= bs,
    ensures
        p + n <= (p / bs + 1) * bs,
        p % bs + n == bs ==> p + n == (p / bs + 1) * bs,
{
    vstd::arithmetic::div_mod::lemma_fundamental_div_mod(p, bs);
    assert((p / bs + 1) * bs == bs * (p / bs) + bs) by (nonlinear_arith);
}

} // verus!

verus! {

/// An offset lies before block `n` exactly when its block index is below `n`.
pub proof fn lemma_index_bound(p: int, bs: int, n: int)
    requires
        bs > 0,
        p >= 0,
    ensures
        p / bs < n <==> p < n * bs,
{
    vstd::arithmetic::div_mod::lemma_fundamental_div_mod(p, bs);
    assert(0 <= p % bs < bs) by (nonlinear_arith)
        requires bs > 0;
    if p / bs < n {
        assert(p < n * bs) by (nonlinear_arith)
            requires p == bs * (p / bs) + p % bs, p % bs < bs, p / bs < n, bs > 0;
    } else {
        assert(p >= n * bs) by (nonlinear_arith)
            requires p == bs * (p / bs) + p % bs, p % bs >= 0, p / bs >= n, bs > 0;
    }
}

} // verus!
