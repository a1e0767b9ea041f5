//! Timestamp arithmetic on the TSF clock, the Wi-Fi driver's 64-bit
//! microsecond counter. The caller reads the counter's 8 bytes from the
//! driver; wire headers carry only the low 32 bits, pacing uses all 64.

use vstd::prelude::*;

verus! {

/// Value of 8 little-endian bytes.
pub open spec fn le64_of(bytes: Seq<u8>) -> int {
    bytes[0] + bytes[1] * 0x100 + bytes[2] * 0x10000 + bytes[3] * 0x1000000 + bytes[4]
        * 0x100000000 + bytes[5] * 0x10000000000 + bytes[6] * 0x1000000000000 + bytes[7]
        * 0x100000000000000
}

/// The counter value held in the TSF file's 8 little-endian bytes.
pub fn tsf_from_bytes(bytes: &[u8]) -> (r: u64)
    requires
        bytes@.len() == 8,
    ensures
        r == le64_of(bytes@),
{
    let mut r: u64 = 0;
    r = r + bytes[0] as u64;
    r = r + (bytes[1] as u64) * 0x100;
    r = r + (bytes[2] as u64) * 0x10000;
    r = r + (bytes[3] as u64) * 0x1000000;
    r = r + (bytes[4] as u64) * 0x100000000;
    r = r + (bytes[5] as u64) * 0x10000000000;
    r = r + (bytes[6] as u64) * 0x1000000000000;
    r = r + (bytes[7] as u64) * 0x100000000000000;
    r
}

/// The low 32 bits of a TSF sample, as wire headers carry them.
pub fn timestamp(tsf: u64) -> (r: u32)
    ensures
        r == tsf as int % 0x100000000,
{
    (tsf % 0x100000000) as u32
}

} // verus!
