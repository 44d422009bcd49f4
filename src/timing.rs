use vstd::prelude::*;

verus! {

/// Whole milliseconds in a duration of `secs` seconds and `subsec_nanos`
/// nanoseconds.
pub fn get_millis(secs: u64, subsec_nanos: u32) -> (r: u64)
    requires
        subsec_nanos < 1_000_000_000,
        secs * 1000 + subsec_nanos / 1_000_000 <= u64::MAX,
    ensures
        r == secs * 1000 + subsec_nanos / 1_000_000,
{
    secs * 1000u64 + (subsec_nanos / 1_000_000) as u64
}

} // verus!
