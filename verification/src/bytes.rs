//! Integers as bytes in the host's byte order (netlink speaks native order).
use vstd::endian::{endianness, Endian};
use vstd::prelude::*;

verus! {

/// Byte order of multi-byte integers.
#[derive(Clone, Copy, PartialEq, Eq, Debug, Structural)]
pub enum ByteOrder {
    Little,
    Big,
}

/// Calls `u16::to_ne_bytes` on 1: the memory representation of 1 in the
/// native byte order of the executing hardware (vstd's `endianness()`), which
/// is `[1, 0]` on little-endian and `[0, 1]` on big-endian hosts.
#[verifier::external_body]
fn one_in_native_order() -> (r: [u8; 2])
    ensures
        native_order() == ByteOrder::Little ==> r@ == seq![1u8, 0u8],
        native_order() == ByteOrder::Big ==> r@ == seq![0u8, 1u8],
{
    1u16.to_ne_bytes()
}

/// The byte order of the executing hardware, as vstd names it.
pub open spec fn native_order() -> ByteOrder {
    match endianness() {
        Endian::Little => ByteOrder::Little,
        Endian::Big => ByteOrder::Big,
    }
}

/// The byte order of this host.
pub fn host_byte_order() -> (r: ByteOrder)
    ensures
        r == native_order(),
{
    let b = one_in_native_order();
    if b[0] == 1 {
        ByteOrder::Little
    } else {
        ByteOrder::Big
    }
}

pub open spec fn u16_bytes(o: ByteOrder, x: u16) -> Seq<u8> {
    let lo = (x % 256) as u8;
    let hi = (x / 256) as u8;
    match o {
        ByteOrder::Little => seq![lo, hi],
        ByteOrder::Big => seq![hi, lo],
    }
}

pub open spec fn u32_bytes(o: ByteOrder, x: u32) -> Seq<u8> {
    let b0 = (x % 256) as u8;
    let b1 = ((x / 256) % 256) as u8;
    let b2 = ((x / 65536) % 256) as u8;
    let b3 = (x / 16777216) as u8;
    match o {
        ByteOrder::Little => seq![b0, b1, b2, b3],
        ByteOrder::Big => seq![b3, b2, b1, b0],
    }
}

pub open spec fn u16_of(o: ByteOrder, a: u8, b: u8) -> u16 {
    match o {
        ByteOrder::Little => (a as int + 256 * (b as int)) as u16,
        ByteOrder::Big => (256 * (a as int) + b as int) as u16,
    }
}

pub open spec fn u32_of(o: ByteOrder, a: u8, b: u8, c: u8, d: u8) -> u32 {
    match o {
        ByteOrder::Little => (a as int + 256 * (b as int) + 65536 * (c as int) + 16777216 * (d as int)) as u32,
        ByteOrder::Big => (d as int + 256 * (c as int) + 65536 * (b as int) + 16777216 * (a as int)) as u32,
    }
}

/// Appends `x` in byte order `o`.
pub fn push_u16(buf: &mut Vec<u8>, o: ByteOrder, x: u16)
    ensures
        final(buf)@ == old(buf)@ + u16_bytes(o, x),
{
    let lo = (x % 256) as u8;
    let hi = (x / 256) as u8;
    match o {
        ByteOrder::Little => {
            buf.push(lo);
            buf.push(hi);
        },
        ByteOrder::Big => {
            buf.push(hi);
            buf.push(lo);
        },
    }
    proof {
        assert(buf@ =~= old(buf)@ + u16_bytes(o, x));
    }
}

/// Appends `x` in byte order `o`.
pub fn push_u32(buf: &mut Vec<u8>, o: ByteOrder, x: u32)
    ensures
        final(buf)@ == old(buf)@ + u32_bytes(o, x),
{
    let b0 = (x % 256) as u8;
    let b1 = ((x / 256) % 256) as u8;
    let b2 = ((x / 65536) % 256) as u8;
    let b3 = (x / 16777216) as u8;
    match o {
        ByteOrder::Little => {
            buf.push(b0);
            buf.push(b1);
            buf.push(b2);
            buf.push(b3);
        },
        ByteOrder::Big => {
            buf.push(b3);
            buf.push(b2);
            buf.push(b1);
            buf.push(b0);
        },
    }
    proof {
        assert(buf@ =~= old(buf)@ + u32_bytes(o, x));
    }
}

/// `x` in byte order `o`.
pub fn u32_to_bytes(o: ByteOrder, x: u32) -> (r: Vec<u8>)
    ensures
        r@ == u32_bytes(o, x),
{
    let mut r: Vec<u8> = Vec::new();
    push_u32(&mut r, o, x);
    proof {
        assert(r@ =~= u32_bytes(o, x));
    }
    r
}

/// Reads a 16-bit integer from two bytes.
pub fn read_u16(o: ByteOrder, a: u8, b: u8) -> (r: u16)
    ensures
        r == u16_of(o, a, b),
{
    match o {
        ByteOrder::Little => (a as u16) + 256 * (b as u16),
        ByteOrder::Big => 256 * (a as u16) + (b as u16),
    }
}

/// Reads a 32-bit integer from four bytes.
pub fn read_u32(o: ByteOrder, a: u8, b: u8, c: u8, d: u8) -> (r: u32)
    ensures
        r == u32_of(o, a, b, c, d),
{
    match o {
        ByteOrder::Little => (a as u32) + 256 * (b as u32) + 65536 * (c as u32) + 16777216 * (d as u32),
        ByteOrder::Big => (d as u32) + 256 * (c as u32) + 65536 * (b as u32) + 16777216 * (a as u32),
    }
}

/// Reading back the bytes of a 32-bit integer gives the integer.
pub proof fn lemma_u32_roundtrip(o: ByteOrder, x: u32)
    ensures
        u32_of(o, u32_bytes(o, x)[0], u32_bytes(o, x)[1], u32_bytes(o, x)[2], u32_bytes(o, x)[3]) == x,
{
    let b0 = x % 256;
    let b1 = (x / 256) % 256;
    let b2 = (x / 65536) % 256;
    let b3 = x / 16777216;
    assert(b0 + 256 * b1 + 65536 * b2 + 16777216 * b3 == x) by (nonlinear_arith)
        requires
            b0 == x % 256,
            b1 == (x / 256) % 256,
            b2 == (x / 65536) % 256,
            b3 == x / 16777216,
            x <= 0xffff_ffff,
    {
        assert(x == 256 * (x / 256) + x % 256);
        assert(x / 256 == 256 * ((x / 256) / 256) + (x / 256) % 256);
        assert((x / 256) / 256 == x / 65536);
        assert(x / 65536 == 256 * ((x / 65536) / 256) + (x / 65536) % 256);
        assert((x / 65536) / 256 == x / 16777216);
    }
    assert(b3 < 256);
}

/// Reading back the bytes of a 16-bit integer gives the integer.
pub proof fn lemma_u16_roundtrip(o: ByteOrder, x: u16)
    ensures
        u16_of(o, u16_bytes(o, x)[0], u16_bytes(o, x)[1]) == x,
{
    assert(x == 256 * (x / 256) + x % 256);
}

} // verus!
