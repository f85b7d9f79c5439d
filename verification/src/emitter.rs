use vstd::prelude::*;
use byteorder::ByteOrder;
use crate::signal::Signal;

verus! {

/// The unsigned value a signed 32-bit signal identifier is carried as on the
/// wire (its two's-complement image).
pub open spec fn wire_image(n: i32) -> int {
    if n >= 0 {
        n as int
    } else {
        n + 0x1_0000_0000
    }
}

/// The four little-endian bytes of an unsigned 32-bit value.
pub open spec fn le_bytes_of(v: int) -> Seq<u8>
    recommends
        0 <= v < 0x1_0000_0000,
{
    seq![
        (v % 256) as u8,
        ((v / 256) % 256) as u8,
        ((v / 65536) % 256) as u8,
        ((v / 16777216) % 256) as u8,
    ]
}

/// The unsigned 32-bit value spelled by four little-endian bytes.
pub open spec fn le_value_of(b: Seq<u8>) -> int
    recommends
        b.len() >= 4,
{
    b[0] + b[1] * 256 + b[2] * 65536 + b[3] * 16777216
}

/// The four bytes a signal identifier is emitted as: the little-endian
/// encoding of its two's-complement image.
pub open spec fn encoding_of(n: i32) -> Seq<u8> {
    le_bytes_of(wire_image(n))
}

/// The signal identifier spelled by four little-endian bytes.
pub open spec fn decoding_of(b: Seq<u8>) -> i32
    recommends
        b.len() >= 4,
{
    if le_value_of(b) < 0x8000_0000 {
        le_value_of(b) as i32
    } else {
        (le_value_of(b) - 0x1_0000_0000) as i32
    }
}

/// Relies on byteorder's `LittleEndian::write_i32`: it writes the four
/// little-endian bytes of `n` in two's complement into the first four bytes
/// of the buffer.
#[verifier::external_body]
pub(crate) fn encode_signal_id(n: Signal) -> (r: Vec<u8>)
    ensures
        r@ == encoding_of(n),
{
    let mut buf = vec![0u8; 4];
    byteorder::LittleEndian::write_i32(&mut buf, n);
    buf
}

/// Relies on byteorder's `LittleEndian::read_i32`: it reads a signed 32-bit
/// value from the first four bytes of the buffer in little-endian two's
/// complement. Panics on a shorter buffer, so that case is excluded.
#[verifier::external_body]
pub(crate) fn decode_signal_id(b: &Vec<u8>) -> (r: Signal)
    requires
        b@.len() >= 4,
    ensures
        r == decoding_of(b@),
{
    byteorder::LittleEndian::read_i32(&b[..])
}

/// Decoding the four bytes a signal identifier was encoded as yields that
/// identifier again: the wire format round-trips every signal exactly.
pub proof fn lemma_codec_round_trip(n: i32)
    ensures
        decoding_of(encoding_of(n)) == n,
{
    let v = wire_image(n);
    assert(0 <= v < 0x1_0000_0000);
    let b = le_bytes_of(v);
    assert(le_value_of(b) == v % 256 + ((v / 256) % 256) * 256 + ((v / 65536) % 256) * 65536
        + ((v / 16777216) % 256) * 16777216);
    assert(v % 256 + ((v / 256) % 256) * 256 + ((v / 65536) % 256) * 65536
        + ((v / 16777216) % 256) * 16777216 == v) by (nonlinear_arith)
        requires
            0 <= v < 0x1_0000_0000,
    ;
}

} // verus!
