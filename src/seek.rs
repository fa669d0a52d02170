//! Cursor positioning shared by the cursored readers.
use vstd::prelude::*;

verus! {

/// Where a seek is measured from, as in `std::io::SeekFrom`.
#[derive(Clone, Copy, Debug, PartialEq, Eq)]
pub enum SeekFrom {
    Start(u64),
    End(i64),
    Current(i64),
}

/// The position a seek asks for, before any bound is applied.
pub open spec fn seek_target(from: SeekFrom, current: int, end: int) -> int {
    match from {
        SeekFrom::Start(o) => o as int,
        SeekFrom::End(o) => end + o,
        SeekFrom::Current(o) => current + o,
    }
}

/// Resolves a seek against a cursor at `current` in a stream of length `end`:
/// the new position, when it lies within `[0, end]`.
pub fn resolve_seek(from: SeekFrom, current: u64, end: u64) -> (r: Option<u64>)
    ensures
        r matches Some(p) ==> p == seek_target(from, current as int, end as int),
        r is None <==> !(0 <= seek_target(from, current as int, end as int) <= end),
{
    let (base, offset): (u64, i64) = match from {
        SeekFrom::Start(o) => {
            if o <= end {
                return Some(o);
            } else {
                return None;
            }
        },
        SeekFrom::End(o) => (end, o),
        SeekFrom::Current(o) => (current, o),
    };
    if offset >= 0 {
        let forward = offset as u64;
        if base <= end && forward <= end - base {
            Some(base + forward)
        } else {
            None
        }
    } else {
        let back: u64 = (-(offset + 1)) as u64 + 1;
        if back <= base && base - back <= end {
            Some(base - back)
        } else {
            None
        }
    }
}

} // verus!
