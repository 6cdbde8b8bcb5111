use vstd::prelude::*;
use vstd::bytes::{lemma_auto_spec_u16_to_from_le_bytes, lemma_auto_spec_u32_to_from_le_bytes,
    lemma_auto_spec_u64_to_from_le_bytes};
use crate::types::{spec_comparable_bytes, spec_dec_bytes, spec_decode_comparable,
    spec_encode_comparable, spec_encode_plain, spec_read_from, is_bytes_type, is_int_type,
    DataType, ValueView};

verus! {

/// The pairs of value and declared type whose compact encoding reads back
/// unchanged: the value must fit the width of its declared type. `NULL`
/// writes no payload and `Float` has no compact decoder, so neither round
/// trips.
pub open spec fn plain_round_trip_ok(v: ValueView, t: DataType) -> bool {
    match v {
        ValueView::Int(x) => (t is SmallInt && -0x8000 <= x <= 0x7fff) || (t is Int && -0x80000000
            <= x <= 0x7fffffff) || t is BigInt,
        ValueView::Bytes(b) => is_bytes_type(t) && b.len() <= u32::MAX,
        ValueView::Double(_) => t is Double,
        ValueView::Date(..) => t is Date,
        ValueView::Time(..) => t is Time,
        _ => false,
    }
}

/// Decoding a compact encoding returns the encoded value, wherever the
/// encoding sits inside a larger buffer. This is the round-trip law for
/// the row payload form.
pub proof fn lemma_plain_round_trip(v: ValueView, t: DataType, prefix: Seq<u8>, rest: Seq<u8>)
    requires
        plain_round_trip_ok(v, t),
    ensures
        ({
            let enc = spec_encode_plain(v, t);
            spec_read_from(prefix + enc + rest, prefix.len() as int, t) == Some(
                (v, (prefix.len() + enc.len()) as int),
            )
        }),
{
    lemma_auto_spec_u16_to_from_le_bytes();
    lemma_auto_spec_u32_to_from_le_bytes();
    lemma_auto_spec_u64_to_from_le_bytes();
    let enc = spec_encode_plain(v, t);
    let input = prefix + enc + rest;
    let pos = prefix.len() as int;
    match v {
        ValueView::Int(x) => {
            if t is SmallInt {
                assert(input.subrange(pos, pos + 2) =~= spec_u16_to_le(x as u16));
                assert(x as u16 as i16 as i64 == x) by (bit_vector)
                    requires
                        -0x8000 <= x <= 0x7fff,
                ;
            } else if t is Int {
                assert(input.subrange(pos, pos + 4) =~= spec_u32_to_le(x as u32));
                assert(x as u32 as i32 as i64 == x) by (bit_vector)
                    requires
                        -0x80000000 <= x <= 0x7fffffff,
                ;
            } else {
                assert(input.subrange(pos, pos + 8) =~= spec_u64_to_le(x as u64));
                assert(x as u64 as i64 == x) by (bit_vector);
            }
        },
        ValueView::Bytes(b) => {
            assert(input.subrange(pos, pos + 4) =~= spec_u32_to_le(b.len() as u32));
            assert(input.subrange(pos + 4, pos + 4 + b.len()) =~= b);
        },
        ValueView::Double(bits) => {
            assert(input.subrange(pos, pos + 8) =~= spec_u64_to_le(bits));
        },
        ValueView::Date(y, mo, d, h, mi, s, us) => {
            let p1 = pos + 1;
            if us > 0 {
                assert(input[pos] == 11u8);
                assert(input.subrange(p1, p1 + 2) =~= spec_u16_to_le(y));
                assert(input[p1 + 2] == mo);
                assert(input[p1 + 3] == d);
                assert(input[p1 + 4] == h);
                assert(input[p1 + 5] == mi);
                assert(input[p1 + 6] == s);
                assert(input.subrange(p1 + 7, p1 + 11) =~= spec_u32_to_le(us));
            } else {
                assert(input[pos] == 7u8);
                assert(input.subrange(p1, p1 + 2) =~= spec_u16_to_le(y));
                assert(input[p1 + 2] == mo);
                assert(input[p1 + 3] == d);
                assert(input[p1 + 4] == h);
                assert(input[p1 + 5] == mi);
                assert(input[p1 + 6] == s);
            }
        },
        ValueView::Time(neg, d, h, mi, s, us) => {
            let p1 = pos + 1;
            assert(input[pos] == 12u8);
            assert(input[p1] == if neg { 1u8 } else { 0u8 });
            assert(input.subrange(p1 + 1, p1 + 5) =~= spec_u32_to_le(d));
            assert(input[p1 + 5] == h);
            assert(input[p1 + 6] == mi);
            assert(input[p1 + 7] == s);
            assert(input.subrange(p1 + 8, p1 + 12) =~= spec_u32_to_le(us));
        },
        _ => {},
    }
}

/// Short aliases for the vstd little-endian spec functions, so the law
/// statements above stay readable.
pub open spec fn spec_u16_to_le(x: u16) -> Seq<u8> {
    vstd::bytes::spec_u16_to_le_bytes(x)
}

pub open spec fn spec_u32_to_le(x: u32) -> Seq<u8> {
    vstd::bytes::spec_u32_to_le_bytes(x)
}

pub open spec fn spec_u64_to_le(x: u64) -> Seq<u8> {
    vstd::bytes::spec_u64_to_le_bytes(x)
}

/// A `NULL` key encodes as the single all-zero padded group: exactly the
/// encoding of the empty byte string. Key columns therefore cannot tell a
/// stored `NULL` from an empty string, which is why the comparable round
/// trip excludes `NULL`.
pub proof fn lemma_null_key_aliases_empty_bytes(t: DataType)
    ensures
        spec_encode_comparable(ValueView::NULL, t) == spec_encode_comparable(
            ValueView::Bytes(Seq::empty()),
            t,
        ),
{
    assert(spec_encode_comparable(ValueView::NULL, t) =~= spec_comparable_bytes(Seq::empty()));
}

/// The group encoding of a byte string always decodes back to that string,
/// wherever it sits inside a larger buffer.
pub proof fn lemma_dec_enc_bytes(s: Seq<u8>, prefix: Seq<u8>, rest: Seq<u8>)
    ensures
        ({
            let enc = spec_comparable_bytes(s);
            spec_dec_bytes(prefix + enc + rest, prefix.len() as int) == Some(
                (s, (prefix.len() + enc.len()) as int),
            )
        }),
    decreases s.len(),
{
    let enc = spec_comparable_bytes(s);
    let input = prefix + enc + rest;
    let pos = prefix.len() as int;
    if s.len() >= 8 {
        let head = s.subrange(0, 8);
        let tail = s.subrange(8, s.len() as int);
        let enc_tail = spec_comparable_bytes(tail);
        let prefix2 = prefix + head + seq![255u8];
        lemma_dec_enc_bytes(tail, prefix2, rest);
        assert(prefix2 + enc_tail + rest =~= input);
        assert(input[pos + 8] == 255u8);
        assert(input.subrange(pos, pos + 8) =~= head);
        assert(head + tail =~= s);
        assert(enc.len() == 9 + enc_tail.len());
    } else {
        assert(input[pos + 8] == (247 + s.len()) as u8);
        assert(input.subrange(pos, pos + s.len() as int) =~= s);
        assert(enc.len() == 9);
    }
}

/// The pairs of value and declared type whose comparable encoding reads
/// back unchanged. `NULL` keys decode as the zero value of the declared
/// type and `Float` has no comparable decoder, so neither round trips.
pub open spec fn comparable_round_trip_ok(v: ValueView, t: DataType) -> bool {
    match v {
        ValueView::Int(_) => is_int_type(t),
        ValueView::Bytes(_) => is_bytes_type(t),
        ValueView::Double(_) => t is Double,
        ValueView::Date(..) => t is Date,
        ValueView::Time(..) => t is Time,
        _ => false,
    }
}

/// Decoding a comparable encoding returns the encoded value, wherever the
/// encoding sits inside a larger buffer. This is the round-trip law for
/// the key form, and the placement inside an arbitrary buffer is what lets
/// concatenated key columns be decoded one after another.
pub proof fn lemma_comparable_round_trip(v: ValueView, t: DataType, prefix: Seq<u8>, rest: Seq<u8>)
    requires
        comparable_round_trip_ok(v, t),
    ensures
        ({
            let enc = spec_encode_comparable(v, t);
            spec_decode_comparable(prefix + enc + rest, prefix.len() as int, t) == Some(
                (v, (prefix.len() + enc.len()) as int),
            )
        }),
{
    lemma_auto_spec_u32_to_from_le_bytes();
    lemma_auto_spec_u64_to_from_le_bytes();
    let enc = spec_encode_comparable(v, t);
    let input = prefix + enc + rest;
    let pos = prefix.len() as int;
    match v {
        ValueView::Int(x) => {
            assert(input[pos + 16] == 247u8);
            assert(input.subrange(pos, pos + 8) =~= spec_u64_to_le(x as u64));
            assert(x as u64 as i64 == x) by (bit_vector);
        },
        ValueView::Double(bits) => {
            assert(input[pos + 16] == 247u8);
            assert(input.subrange(pos, pos + 8) =~= spec_u64_to_le(bits));
        },
        ValueView::Bytes(b) => {
            lemma_dec_enc_bytes(b, prefix, rest);
        },
        ValueView::Date(y, mo, d, h, mi, s, us) => {
            assert(input[pos + 17] == 252u8);
            assert(input.subrange(pos, pos + 4) =~= spec_u32_to_le(y as u32));
            assert(y as u32 as u16 == y) by (bit_vector);
            assert(input[pos + 4] == mo);
            assert(input[pos + 5] == d);
            assert(input[pos + 6] == h);
            assert(input[pos + 7] == mi);
            assert(input[pos + 9] == s);
            assert(input.subrange(pos + 10, pos + 14) =~= spec_u32_to_le(us));
        },
        ValueView::Time(neg, d, h, mi, s, us) => {
            assert(input[pos + 17] == 251u8);
            assert(input[pos] == if neg { 1u8 } else { 0u8 });
            assert(input.subrange(pos + 1, pos + 5) =~= spec_u32_to_le(d));
            assert(input[pos + 5] == h);
            assert(input[pos + 6] == mi);
            assert(input[pos + 7] == s);
            assert(input.subrange(pos + 9, pos + 13) =~= spec_u32_to_le(us));
        },
        _ => {},
    }
}

} // verus!
