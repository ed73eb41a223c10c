//! Big-endian byte encoding shared by the packet builders.
use vstd::prelude::*;
use byteorder::{BigEndian, WriteBytesExt};

verus! {

/// The two bytes of `v`, most significant first.
pub open spec fn be_u16(v: u16) -> Seq<u8> {
    seq![(v / 256) as u8, (v % 256) as u8]
}

/// The four bytes of `v`, most significant first.
pub open spec fn be_u32(v: u32) -> Seq<u8> {
    seq![
        (v / 0x100_0000) as u8,
        ((v / 0x1_0000) % 256) as u8,
        ((v / 256) % 256) as u8,
        (v % 256) as u8,
    ]
}

/// The two's-complement value of `v` read as an unsigned 32-bit integer.
pub open spec fn i32_bits(v: i32) -> u32 {
    if v >= 0 { v as u32 } else { (v + 0x1_0000_0000) as u32 }
}

/// The two's-complement value of `v` read as an unsigned byte.
pub open spec fn i8_bits(v: i8) -> u8 {
    if v >= 0 { v as u8 } else { (v + 256) as u8 }
}

/// Appends one byte through `byteorder::WriteBytesExt::write_u8`.
/// Claimed: on a `Vec<u8>` the call succeeds and appends `n`
/// (byteorder forwards to `Write::write_all`, which for `Vec<u8>` appends and grows as needed).
#[verifier::external_body]
pub(crate) fn put_u8(buf: &mut Vec<u8>, n: u8) -> (r: Result<(), ()>)
    ensures
        r is Ok,
        final(buf)@ == old(buf)@.push(n),
{
    match buf.write_u8(n) {
        Ok(()) => Ok(()),
        Err(_) => Err(()),
    }
}

/// Appends one byte through `byteorder::WriteBytesExt::write_i8`.
/// Claimed: on a `Vec<u8>` the call succeeds and appends the two's-complement byte of `n`.
#[verifier::external_body]
pub(crate) fn put_i8(buf: &mut Vec<u8>, n: i8) -> (r: Result<(), ()>)
    ensures
        r is Ok,
        final(buf)@ == old(buf)@.push(i8_bits(n)),
{
    match buf.write_i8(n) {
        Ok(()) => Ok(()),
        Err(_) => Err(()),
    }
}

/// Appends two bytes through `byteorder::WriteBytesExt::write_u16::<BigEndian>`.
/// Claimed: on a `Vec<u8>` the call succeeds and appends `n` most significant byte first.
#[verifier::external_body]
pub(crate) fn put_u16_be(buf: &mut Vec<u8>, n: u16) -> (r: Result<(), ()>)
    ensures
        r is Ok,
        final(buf)@ == old(buf)@ + be_u16(n),
{
    match buf.write_u16::<BigEndian>(n) {
        Ok(()) => Ok(()),
        Err(_) => Err(()),
    }
}

/// Appends four bytes through `byteorder::WriteBytesExt::write_i32::<BigEndian>`.
/// Claimed: on a `Vec<u8>` the call succeeds and appends the two's-complement
/// bits of `n` most significant byte first.
#[verifier::external_body]
pub(crate) fn put_i32_be(buf: &mut Vec<u8>, n: i32) -> (r: Result<(), ()>)
    ensures
        r is Ok,
        final(buf)@ == old(buf)@ + be_u32(i32_bits(n)),
{
    match buf.write_i32::<BigEndian>(n) {
        Ok(()) => Ok(()),
        Err(_) => Err(()),
    }
}

/// Appends every byte of `data` to `buf`.
pub(crate) fn put_all(buf: &mut Vec<u8>, data: &[u8])
    ensures
        final(buf)@ == old(buf)@ + data@,
{
    let ghost before = buf@;
    let mut i: usize = 0;
    while i < data.len()
        invariant
            i <= data@.len(),
            buf@ == before + data@.subrange(0, i as int),
        decreases data@.len() - i,
    {
        buf.push(data[i]);
        i = i + 1;
        assert(data@.subrange(0, i as int) =~= data@.subrange(0, (i - 1) as int).push(data@[i - 1]));
    }
    assert(data@.subrange(0, data@.len() as int) =~= data@);
}

} // verus!

verus! {

/// A copy of `data[from..to]`.
pub(crate) fn copy_range(data: &[u8], from: usize, to: usize) -> (r: Vec<u8>)
    requires
        from <= to <= data@.len(),
    ensures
        r@ == data@.subrange(from as int, to as int),
{
    let mut out: Vec<u8> = Vec::new();
    let mut i: usize = from;
    while i < to
        invariant
            from <= i <= to <= data@.len(),
            out@ == data@.subrange(from as int, i as int),
        decreases to - i,
    {
        out.push(data[i]);
        i = i + 1;
        assert(data@.subrange(from as int, i as int) =~= data@.subrange(from as int, (i - 1) as int).push(
            data@[i - 1],
        ));
    }
    out
}

} // verus!
