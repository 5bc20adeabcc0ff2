use vstd::prelude::*;

use crate::bytes::append_bytes;

verus! {

/// The kinds of open bitstream unit this encoder emits.
#[derive(Clone, Copy, PartialEq, Eq, Debug, Structural)]
pub enum ObuType {
    SequenceHeader,
    TemporalDelimiter,
    Metadata,
    Frame,
}

/// The numeric `obu_type` of each kind.
pub open spec fn obu_type_value(t: ObuType) -> u8 {
    match t {
        ObuType::SequenceHeader => 1,
        ObuType::TemporalDelimiter => 2,
        ObuType::Metadata => 5,
        ObuType::Frame => 6,
    }
}

/// The numeric `obu_type` of each kind.
pub fn obu_type_code(t: ObuType) -> (r: u8)
    ensures
        r == obu_type_value(t),
{
    match t {
        ObuType::SequenceHeader => 1,
        ObuType::TemporalDelimiter => 2,
        ObuType::Metadata => 5,
        ObuType::Frame => 6,
    }
}

/// Unsigned LEB128: seven value bits per byte, least significant group first,
/// the high bit set on every byte but the last.
pub open spec fn leb128_spec(v: u64) -> Seq<u8>
    decreases v,
{
    if v < 128 {
        seq![v as u8]
    } else {
        proof {
            assert(v >= 128 ==> (v >> 7) < v) by (bit_vector);
        }
        seq![((v & 0x7f) | 0x80) as u8] + leb128_spec(v >> 7)
    }
}

/// The value that a LEB128 byte string denotes, read up to its first byte
/// without the continuation bit.
pub open spec fn leb128_value(s: Seq<u8>) -> int
    decreases s.len(),
{
    if s.len() == 0 {
        0
    } else if s[0] & 0x80 == 0 {
        s[0] as int
    } else {
        (s[0] & 0x7f) as int + 128 * leb128_value(s.drop_first())
    }
}

proof fn lemma_shr7_decreases(v: u64)
    requires
        v >= 128,
    ensures
        (v >> 7) < v,
        v as int == (v & 0x7f) as int + 128 * ((v >> 7) as int),
        (((v & 0x7f) | 0x80) as u8) & 0x80 != 0,
        ((((v & 0x7f) | 0x80) as u8) & 0x7f) as int == (v & 0x7f) as int,
{
    assert(v >= 128 ==> (v >> 7) < v) by (bit_vector);
    assert((v & 0x7f) + 128 * (v >> 7) == v) by (bit_vector);
    assert(((((v & 0x7f) | 0x80) as u8) & 0x80) != 0) by (bit_vector);
    assert(((((v & 0x7f) | 0x80) as u8) & 0x7f) == (v & 0x7f) as u8) by (bit_vector);
    assert((v & 0x7f) < 128) by (bit_vector);
}

/// Decoding the LEB128 encoding of a value gives the value back, and the
/// encoding's only byte without the continuation bit is its last.
pub proof fn lemma_leb128_roundtrip(v: u64)
    ensures
        leb128_value(leb128_spec(v)) == v as int,
        leb128_spec(v).len() >= 1,
        leb128_spec(v).last() & 0x80 == 0,
        forall|i: int| 0 <= i < leb128_spec(v).len() - 1 ==> #[trigger] leb128_spec(v)[i] & 0x80
            != 0,
    decreases v,
{
    if v < 128 {
        assert((v as u8) & 0x80 == 0) by (bit_vector)
            requires
                v < 128,
        ;
    } else {
        lemma_shr7_decreases(v);
        lemma_leb128_roundtrip(v >> 7);
        let head = ((v & 0x7f) | 0x80) as u8;
        let s = leb128_spec(v);
        assert(s.drop_first() =~= leb128_spec(v >> 7));
        assert(s[0] == head);
    }
}

/// Encodes `value` as unsigned LEB128.
pub fn leb128_encode(value: u64) -> (out: Vec<u8>)
    ensures
        out@ == leb128_spec(value),
{
    let mut result: Vec<u8> = Vec::new();
    let mut v = value;
    loop
        invariant
            result@ + leb128_spec(v) == leb128_spec(value),
        decreases v,
    {
        let mut byte: u8 = (v & 0x7F) as u8;
        let rest = v >> 7;
        if rest != 0 {
            proof {
                assert(rest != 0 ==> v >= 128) by (bit_vector)
                    requires
                        rest == v >> 7,
                ;
                lemma_shr7_decreases(v);
                assert(((v & 0x7f) as u8 | 0x80) == ((v & 0x7f) | 0x80) as u8) by (bit_vector);
            }
            byte = byte | 0x80;
            let ghost old_result = result@;
            result.push(byte);
            proof {
                assert(leb128_spec(v) == seq![byte] + leb128_spec(rest));
                assert(result@ + leb128_spec(rest) =~= old_result + leb128_spec(v));
            }
            v = rest;
        } else {
            proof {
                assert(rest == 0 ==> v < 128) by (bit_vector)
                    requires
                        rest == v >> 7,
                ;
                assert(v < 128 ==> (v & 0x7f) as u8 == v as u8) by (bit_vector);
            }
            let ghost old_result = result@;
            result.push(byte);
            proof {
                assert(result@ =~= old_result + leb128_spec(v));
            }
            return result;
        }
    }
}

/// The header byte of an OBU of type `t` with `obu_has_size_field` set.
pub open spec fn obu_header_byte(t: ObuType) -> u8 {
    ((obu_type_value(t) as int) * 8 + 2) as u8
}

/// An OBU: header byte, LEB128 payload size, payload.
pub open spec fn obu_spec(t: ObuType, payload: Seq<u8>) -> Seq<u8> {
    seq![obu_header_byte(t)] + leb128_spec(payload.len() as u64) + payload
}

/// Wraps `payload` in an OBU of type `obu_type` with an explicit size field.
pub fn obu_wrap(obu_type: ObuType, payload: &[u8]) -> (out: Vec<u8>)
    ensures
        out@ == obu_spec(obu_type, payload@),
{
    let code = obu_type_code(obu_type);
    let header_byte: u8 = (code << 3u8) | 2u8;
    proof {
        assert(code <= 6 ==> (code << 3u8) | 2u8 == code * 8 + 2) by (bit_vector);
    }
    let size_bytes = leb128_encode(payload.len() as u64);
    let mut result: Vec<u8> = Vec::new();
    result.push(header_byte);
    append_bytes(&mut result, size_bytes.as_slice());
    append_bytes(&mut result, payload);
    proof {
        assert(result@ =~= obu_spec(obu_type, payload@));
    }
    result
}

} // verus!
