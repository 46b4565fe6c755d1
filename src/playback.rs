use vstd::prelude::*;

verus! {

/// Where a cursor over `len` samples goes after one tick at `speed` tenths: forward by
/// one plus the speed in tenths (negative speeds count as zero), held at the last sample.
pub open spec fn advanced(cursor: int, len: int, speed: int) -> int {
    let step = 1 + if speed > 0 { speed } else { 0 };
    if cursor + step < len {
        cursor + step
    } else {
        len - 1
    }
}

/// Moves a playback cursor over `len` samples one tick forward.
pub fn advance_cursor(cursor: usize, len: usize, speed: i64) -> (r: usize)
    requires
        len > 0,
    ensures
        r == advanced(cursor as int, len as int, speed as int),
        r < len,
{
    let step: u64 = if speed > 0 { speed as u64 } else { 0 };
    let room = (len - 1) as u64;
    if cursor as u64 <= room && step < room - cursor as u64 {
        cursor + 1 + step as usize
    } else {
        len - 1
    }
}

} // verus!
