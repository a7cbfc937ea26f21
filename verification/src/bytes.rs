//! Bounds-checked little-endian byte readers.
//!
//! The native tables and structures the backends decode are flat byte
//! buffers at documented offsets; nothing here trusts alignment.

use vstd::prelude::*;

use crate::model::IpAddress;

verus! {

/// The little-endian 32-bit value at byte offset `o` of `b`.
pub open spec fn spec_le_u32(b: Seq<u8>, o: int) -> u32 {
    (b[o] + b[o + 1] * 0x100 + b[o + 2] * 0x10000 + b[o + 3] * 0x1000000) as u32
}

/// Read the little-endian 32-bit value at byte offset `o`.
pub fn le_u32_at(b: &Vec<u8>, o: usize) -> (r: u32)
    requires
        o + 4 <= b@.len(),
    ensures
        r == spec_le_u32(b@, o as int),
{
    let n = b.len();
    (b[o] as u32) + (b[o + 1] as u32) * 0x100 + (b[o + 2] as u32) * 0x10000 + (b[o + 3] as u32)
        * 0x1000000
}

/// The port stored in network order in the low half of the 32-bit field at
/// offset `o`: high byte first.
pub open spec fn spec_port_at(b: Seq<u8>, o: int) -> u16 {
    (b[o] * 0x100 + b[o + 1]) as u16
}

pub fn port_at(b: &Vec<u8>, o: usize) -> (r: u16)
    requires
        o + 2 <= b@.len(),
    ensures
        r == spec_port_at(b@, o as int),
{
    let n = b.len();
    (b[o] as u16) * 0x100 + (b[o + 1] as u16)
}

/// The four address octets at offset `o`, in network (memory) order.
pub open spec fn spec_v4_at(b: Seq<u8>, o: int) -> IpAddress {
    IpAddress::V4([b[o], b[o + 1], b[o + 2], b[o + 3]])
}

pub fn v4_at(b: &Vec<u8>, o: usize) -> (r: IpAddress)
    requires
        o + 4 <= b@.len(),
    ensures
        r == spec_v4_at(b@, o as int),
{
    let n = b.len();
    IpAddress::V4([b[o], b[o + 1], b[o + 2], b[o + 3]])
}

/// The sixteen address octets at offset `o`.
pub open spec fn spec_v6_at(b: Seq<u8>, o: int) -> IpAddress {
    IpAddress::V6(
        [
            b[o],
            b[o + 1],
            b[o + 2],
            b[o + 3],
            b[o + 4],
            b[o + 5],
            b[o + 6],
            b[o + 7],
            b[o + 8],
            b[o + 9],
            b[o + 10],
            b[o + 11],
            b[o + 12],
            b[o + 13],
            b[o + 14],
            b[o + 15],
        ],
    )
}

pub fn v6_at(b: &Vec<u8>, o: usize) -> (r: IpAddress)
    requires
        o + 16 <= b@.len(),
    ensures
        r == spec_v6_at(b@, o as int),
{
    let n = b.len();
    IpAddress::V6(
        [
            b[o],
            b[o + 1],
            b[o + 2],
            b[o + 3],
            b[o + 4],
            b[o + 5],
            b[o + 6],
            b[o + 7],
            b[o + 8],
            b[o + 9],
            b[o + 10],
            b[o + 11],
            b[o + 12],
            b[o + 13],
            b[o + 14],
            b[o + 15],
        ],
    )
}


/// The little-endian 64-bit value at byte offset `o` of `b`.
pub open spec fn spec_le_u64(b: Seq<u8>, o: int) -> u64 {
    (spec_le_u32(b, o) + spec_le_u32(b, o + 4) * 0x100000000) as u64
}

/// Read the little-endian 64-bit value at byte offset `o`.
pub fn le_u64_at(b: &Vec<u8>, o: usize) -> (r: u64)
    requires
        o + 8 <= b@.len(),
    ensures
        r == spec_le_u64(b@, o as int),
{
    let n = b.len();
    let lo = le_u32_at(b, o);
    let hi = le_u32_at(b, o + 4);
    (lo as u64) + (hi as u64) * 0x100000000u64
}

/// The 32-bit value at byte offset `o`, reinterpreted as signed.
pub open spec fn spec_le_i32(b: Seq<u8>, o: int) -> i32 {
    spec_le_u32(b, o) as i32
}

/// Read the little-endian signed 32-bit value at byte offset `o`.
pub fn le_i32_at(b: &Vec<u8>, o: usize) -> (r: i32)
    requires
        o + 4 <= b@.len(),
    ensures
        r == spec_le_i32(b@, o as int),
{
    le_u32_at(b, o) as i32
}

/// Copy the bytes of `v` in `[from, to)`.
pub fn subvec_bytes(v: &Vec<u8>, from: usize, to: usize) -> (r: Vec<u8>)
    requires
        from <= to <= v@.len(),
    ensures
        r@ == v@.subrange(from as int, to as int),
{
    let mut out: Vec<u8> = Vec::new();
    let mut m = from;
    while m < to
        invariant
            from <= m <= to <= v@.len(),
            out@ == v@.subrange(from as int, m as int),
        decreases to - m,
    {
        out.push(v[m]);
        proof {
            assert(out@ =~= v@.subrange(from as int, m as int + 1));
        }
        m += 1;
    }
    out
}

} // verus!
