use vstd::prelude::*;
use vstd::bytes::{spec_u16_to_le_bytes, spec_u32_to_le_bytes, spec_u64_to_le_bytes};
use vstd::bytes::{spec_u16_from_le_bytes, spec_u32_from_le_bytes, spec_u64_from_le_bytes};
use vstd::bytes::{u16_to_le_bytes, u32_to_le_bytes, u64_to_le_bytes};
use vstd::bytes::{u16_from_le_bytes, u32_from_le_bytes, u64_from_le_bytes};
use vstd::slice::{slice_index_get, slice_subrange};
use crate::errors::{MySQLError, MySQLResult};

verus! {

/// Declared SQL column types. `Char`, `Varchar`, `Text` and `VarString`
/// carry byte-string payloads; the declared length of a character type is
/// not part of the storage format, so it is not represented here.
#[derive(Debug, Clone, Copy, PartialEq, Eq, Structural)]
pub enum DataType {
    SmallInt,
    Int,
    BigInt,
    Float,
    Double,
    Char,
    Varchar,
    Text,
    VarString,
    Decimal,
    Boolean,
    Date,
    Time,
}

/// A typed scalar value as it travels between the SQL layer and the codec.
///
/// Floating-point payloads are carried as their IEEE 754 bit patterns
/// (`Float` single precision, `Double` double precision): the codec only
/// ever moves those bits to and from little-endian bytes, never computes
/// with them, and the surrounding program converts at its edge.
#[derive(Debug)]
pub enum EncodeValue {
    NULL,
    Bytes(Vec<u8>),
    Int(i64),
    /// IEEE 754 single-precision bit pattern.
    Float(u32),
    /// IEEE 754 double-precision bit pattern.
    Double(u64),
    /// year, month, day, hour, minute, second, microseconds
    Date(u16, u8, u8, u8, u8, u8, u32),
    /// is negative, days, hours, minutes, seconds, microseconds
    Time(bool, u32, u8, u8, u8, u32),
}

/// The mathematical model of an `EncodeValue`: the same shape, with the
/// byte string abstracted to a sequence.
#[verifier::ext_equal]
pub enum ValueView {
    NULL,
    Bytes(Seq<u8>),
    Int(i64),
    Float(u32),
    Double(u64),
    Date(u16, u8, u8, u8, u8, u8, u32),
    Time(bool, u32, u8, u8, u8, u32),
}

impl View for EncodeValue {
    type V = ValueView;

    open spec fn view(&self) -> ValueView {
        match *self {
            EncodeValue::NULL => ValueView::NULL,
            EncodeValue::Bytes(b) => ValueView::Bytes(b@),
            EncodeValue::Int(x) => ValueView::Int(x),
            EncodeValue::Float(x) => ValueView::Float(x),
            EncodeValue::Double(x) => ValueView::Double(x),
            EncodeValue::Date(y, mo, d, h, mi, s, us) => ValueView::Date(y, mo, d, h, mi, s, us),
            EncodeValue::Time(neg, d, h, mi, s, us) => ValueView::Time(neg, d, h, mi, s, us),
        }
    }
}

impl Clone for EncodeValue {
    fn clone(&self) -> (r: Self)
        ensures
            r@ == self@,
    {
        match self {
            EncodeValue::NULL => EncodeValue::NULL,
            EncodeValue::Bytes(b) => {
                let c = b.clone();
                proof {
                    assert(c@ =~= b@);
                }
                EncodeValue::Bytes(c)
            },
            EncodeValue::Int(x) => EncodeValue::Int(*x),
            EncodeValue::Float(x) => EncodeValue::Float(*x),
            EncodeValue::Double(x) => EncodeValue::Double(*x),
            EncodeValue::Date(y, mo, d, h, mi, s, us) => EncodeValue::Date(
                *y,
                *mo,
                *d,
                *h,
                *mi,
                *s,
                *us,
            ),
            EncodeValue::Time(neg, d, h, mi, s, us) => EncodeValue::Time(
                *neg,
                *d,
                *h,
                *mi,
                *s,
                *us,
            ),
        }
    }
}

/// Equality on stored values is defined for `NULL`, `Int` and `Bytes`
/// alone; every other pairing compares unequal, including two identical
/// floats, dates or times. This mirrors the engine's comparison rules.
pub open spec fn value_eq_spec(a: ValueView, b: ValueView) -> bool {
    match (a, b) {
        (ValueView::NULL, ValueView::NULL) => true,
        (ValueView::Int(x), ValueView::Int(y)) => x == y,
        (ValueView::Bytes(x), ValueView::Bytes(y)) => x == y,
        _ => false,
    }
}

/// Compare two byte vectors for element-wise equality.
fn bytes_vec_eq(x: &Vec<u8>, y: &Vec<u8>) -> (r: bool)
    ensures
        r == (x@ == y@),
{
    if x.len() != y.len() {
        proof {
            assert(x@ != y@);
        }
        return false;
    }
    let n = x.len();
    let mut i: usize = 0;
    while i < n
        invariant
            n == x@.len(),
            n == y@.len(),
            i <= n,
            forall|j: int| 0 <= j < i ==> x@[j] == y@[j],
        decreases n - i,
    {
        if x[i] != y[i] {
            proof {
                assert(x@ != y@);
            }
            return false;
        }
        i += 1;
    }
    proof {
        assert(x@ =~= y@);
    }
    true
}

impl PartialEq for EncodeValue {
    fn eq(&self, other: &Self) -> (r: bool) {
        match (self, other) {
            (EncodeValue::NULL, EncodeValue::NULL) => true,
            (EncodeValue::Int(x), EncodeValue::Int(y)) => *x == *y,
            (EncodeValue::Bytes(x), EncodeValue::Bytes(y)) => bytes_vec_eq(x, y),
            _ => false,
        }
    }
}

impl vstd::std_specs::cmp::PartialEqSpecImpl for EncodeValue {
    open spec fn obeys_eq_spec() -> bool {
        true
    }

    open spec fn eq_spec(&self, other: &Self) -> bool {
        value_eq_spec(self@, other@)
    }
}

/// A sequence of `n` zero bytes, used to pad partial encoding groups.
pub open spec fn zero_bytes(n: nat) -> Seq<u8> {
    Seq::new(n, |i: int| 0u8)
}

/// The order-preserving encoding of a byte string: each full 8-byte group
/// is followed by the marker 255; the final partial group (possibly empty)
/// is right-padded with zeros and followed by the marker 247 + length.
pub open spec fn spec_comparable_bytes(s: Seq<u8>) -> Seq<u8>
    decreases s.len(),
{
    if s.len() >= 8 {
        s.subrange(0, 8) + seq![255u8] + spec_comparable_bytes(s.subrange(8, s.len() as int))
    } else {
        s + zero_bytes((8 - s.len()) as nat) + seq![(247 + s.len()) as u8]
    }
}

/// Whether a value's variant is accepted by the comparable encoder at the
/// declared type: only `Int` is checked, and it must sit in an integer
/// column.
pub open spec fn comparable_ok(v: ValueView, t: DataType) -> bool {
    match v {
        ValueView::Int(_) => t is SmallInt || t is Int || t is BigInt,
        _ => true,
    }
}

/// The bytes that `encode_comparable` appends for a value. Fixed-width
/// values occupy one raw group followed by the empty group `[0; 8] ++
/// [247]`; a single-precision float uses a 4-byte partial group; dates and
/// times pack their fields into two groups.
pub open spec fn spec_encode_comparable(v: ValueView, t: DataType) -> Seq<u8> {
    match v {
        ValueView::NULL => zero_bytes(8) + seq![247u8],
        ValueView::Bytes(b) => spec_comparable_bytes(b),
        ValueView::Int(x) => spec_u64_to_le_bytes(x as u64) + zero_bytes(8) + seq![247u8],
        ValueView::Float(bits) => spec_u32_to_le_bytes(bits) + zero_bytes(4) + seq![251u8],
        ValueView::Double(bits) => spec_u64_to_le_bytes(bits) + zero_bytes(8) + seq![247u8],
        ValueView::Date(y, mo, d, h, mi, s, us) => spec_u32_to_le_bytes(y as u32) + seq![mo, d, h, mi]
            + seq![255u8] + seq![s] + spec_u32_to_le_bytes(us) + zero_bytes(3) + seq![252u8],
        ValueView::Time(neg, d, h, mi, s, us) => seq![if neg { 1u8 } else { 0u8 }]
            + spec_u32_to_le_bytes(d) + seq![h, mi, s] + seq![255u8] + spec_u32_to_le_bytes(us)
            + zero_bytes(4) + seq![251u8],
    }
}

/// The byte-string column types: their payloads are raw bytes.
pub open spec fn is_bytes_type(t: DataType) -> bool {
    t is Char || t is Varchar || t is Text || t is VarString
}

/// The integer column types.
pub open spec fn is_int_type(t: DataType) -> bool {
    t is SmallInt || t is Int || t is BigInt
}

/// Whether the compact (plain) encoder accepts a value at a declared type:
/// an `Int` must sit in an integer column, and a byte string must fit the
/// 32-bit length prefix of the format.
pub open spec fn plain_ok(v: ValueView, t: DataType) -> bool {
    match v {
        ValueView::Int(_) => is_int_type(t),
        ValueView::Bytes(b) => b.len() <= u32::MAX,
        _ => true,
    }
}

/// The bytes that the compact (plain) encoder writes for a value: the row
/// payload form. `NULL` writes nothing (the row header records it);
/// integers take the width of their declared type; byte strings carry a
/// 32-bit length prefix; dates write 7 or 11 bytes after a length byte
/// depending on the microsecond field; times always write 12 bytes after
/// the length byte.
pub open spec fn spec_encode_plain(v: ValueView, t: DataType) -> Seq<u8> {
    match v {
        ValueView::NULL => Seq::empty(),
        ValueView::Bytes(b) => spec_u32_to_le_bytes(b.len() as u32) + b,
        ValueView::Float(bits) => spec_u32_to_le_bytes(bits),
        ValueView::Double(bits) => spec_u64_to_le_bytes(bits),
        ValueView::Int(x) => match t {
            DataType::SmallInt => spec_u16_to_le_bytes(x as u16),
            DataType::Int => spec_u32_to_le_bytes(x as u32),
            DataType::BigInt => spec_u64_to_le_bytes(x as u64),
            _ => Seq::empty(),
        },
        ValueView::Date(y, mo, d, h, mi, s, us) => if us > 0 {
            seq![11u8] + spec_u16_to_le_bytes(y) + seq![mo, d, h, mi, s] + spec_u32_to_le_bytes(us)
        } else {
            seq![7u8] + spec_u16_to_le_bytes(y) + seq![mo, d, h, mi, s]
        },
        ValueView::Time(neg, d, h, mi, s, us) => seq![12u8, if neg { 1u8 } else { 0u8 }]
            + spec_u32_to_le_bytes(d) + seq![h, mi, s] + spec_u32_to_le_bytes(us),
    }
}

/// Append `n` zero bytes.
fn push_zero_bytes(output: &mut Vec<u8>, n: usize)
    ensures
        final(output)@ == old(output)@ + zero_bytes(n as nat),
{
    let ghost out0 = output@;
    let mut i: usize = 0;
    while i < n
        invariant
            i <= n,
            output@ == out0 + zero_bytes(i as nat),
        decreases n - i,
    {
        output.push(0);
        proof {
            assert(out0 + zero_bytes((i + 1) as nat) =~= (out0 + zero_bytes(i as nat)).push(0u8));
        }
        i += 1;
    }
}

/// Append the order-preserving group encoding of `v`.
fn append_comparable_bytes(output: &mut Vec<u8>, v: &[u8])
    ensures
        final(output)@ == old(output)@ + spec_comparable_bytes(v@),
{
    let ghost out0 = output@;
    let vlen = v.len();
    proof {
        assert(v@.subrange(0, v@.len() as int) =~= v@);
    }
    let mut pos: usize = 0;
    while vlen - pos >= 8
        invariant
            vlen == v@.len(),
            pos <= vlen,
            out0 + spec_comparable_bytes(v@) == output@ + spec_comparable_bytes(
                v@.subrange(pos as int, v@.len() as int),
            ),
        decreases vlen - pos,
    {
        let ghost tail0 = v@.subrange(pos as int, v@.len() as int);
        let ghost out_grp = output@;
        let mut j: usize = 0;
        while j < 8
            invariant
                j <= 8,
                vlen == v@.len(),
                pos + 8 <= vlen,
                output@ == out_grp + v@.subrange(pos as int, pos + j),
            decreases 8 - j,
        {
            output.push(*vstd::slice::slice_index_get(v, pos + j));
            proof {
                assert(out_grp + v@.subrange(pos as int, pos + j + 1) =~= (out_grp + v@.subrange(
                    pos as int,
                    pos + j,
                )).push(v@[pos + j]));
            }
            j += 1;
        }
        output.push(255);
        proof {
            assert(tail0.len() >= 8);
            assert(spec_comparable_bytes(tail0) == tail0.subrange(0, 8) + seq![255u8]
                + spec_comparable_bytes(tail0.subrange(8, tail0.len() as int)));
            assert(tail0.subrange(0, 8) =~= v@.subrange(pos as int, pos + 8));
            assert(tail0.subrange(8, tail0.len() as int) =~= v@.subrange(
                pos + 8,
                v@.len() as int,
            ));
            assert(output@ =~= out_grp + v@.subrange(pos as int, pos + 8) + seq![255u8]);
            assert(output@ + spec_comparable_bytes(v@.subrange(pos + 8, v@.len() as int))
                =~= out_grp + spec_comparable_bytes(tail0));
        }
        pos += 8;
    }
    let ghost tail0 = v@.subrange(pos as int, v@.len() as int);
    let rem = vlen - pos;
    let ghost out1 = output@;
    let mut j: usize = 0;
    while j < rem
        invariant
            j <= rem,
            vlen == v@.len(),
            rem == vlen - pos,
            pos + rem <= vlen,
            output@ == out1 + v@.subrange(pos as int, pos + j),
        decreases rem - j,
    {
        output.push(*vstd::slice::slice_index_get(v, pos + j));
        proof {
            assert(out1 + v@.subrange(pos as int, pos + j + 1) =~= (out1 + v@.subrange(
                pos as int,
                pos + j,
            )).push(v@[pos + j]));
        }
        j += 1;
    }
    push_zero_bytes(output, 8 - rem);
    output.push(247 + rem as u8);
    proof {
        assert(tail0.len() < 8);
        assert(tail0 =~= v@.subrange(pos as int, pos + rem));
        assert(output@ =~= out1 + tail0 + zero_bytes((8 - rem) as nat) + seq![(247 + tail0.len())
            as u8]);
        assert(output@ =~= out1 + spec_comparable_bytes(tail0));
        assert(output@ =~= out0 + spec_comparable_bytes(v@));
    }
}

impl EncodeValue {
    pub fn null() -> (r: EncodeValue)
        ensures
            r@ == ValueView::NULL,
    {
        EncodeValue::NULL
    }

    pub fn is_null(&self) -> (r: bool)
        ensures
            r == (self@ is NULL),
    {
        match self {
            EncodeValue::NULL => true,
            _ => false,
        }
    }

    /// Append the order-preserving encoding of this value; all key bytes go
    /// through here. Fails with `InvalidType` exactly when an `Int` value
    /// is declared at a non-integer column type, leaving `output` unchanged.
    pub fn encode_comparable(&self, output: &mut Vec<u8>, column_type: &DataType) -> (r:
        MySQLResult<()>)
        ensures
            match r {
                Ok(_) => comparable_ok(self@, *column_type) && final(output)@ == old(output)@
                    + spec_encode_comparable(self@, *column_type),
                Err(e) => !comparable_ok(self@, *column_type) && e == MySQLError::InvalidType
                    && final(output)@ == old(output)@,
            },
    {
        let ghost out0 = output@;
        match self {
            EncodeValue::NULL => {
                push_zero_bytes(output, 8);
                output.push(247);
                proof {
                    assert(output@ =~= out0 + spec_encode_comparable(self@, *column_type));
                }
            },
            EncodeValue::Bytes(v) => {
                append_comparable_bytes(output, v.as_slice());
            },
            EncodeValue::Float(bits) => {
                let mut b = u32_to_le_bytes(*bits);
                output.append(&mut b);
                push_zero_bytes(output, 4);
                output.push(251);
                proof {
                    assert(output@ =~= out0 + spec_encode_comparable(self@, *column_type));
                }
            },
            EncodeValue::Double(bits) => {
                let mut b = u64_to_le_bytes(*bits);
                output.append(&mut b);
                push_zero_bytes(output, 8);
                output.push(247);
                proof {
                    assert(output@ =~= out0 + spec_encode_comparable(self@, *column_type));
                }
            },
            EncodeValue::Int(x) => {
                match column_type {
                    DataType::SmallInt | DataType::Int | DataType::BigInt => {},
                    _ => {
                        return Err(MySQLError::InvalidType);
                    },
                }
                let mut b = u64_to_le_bytes(#[verifier::truncate] (*x as u64));
                output.append(&mut b);
                push_zero_bytes(output, 8);
                output.push(247);
                proof {
                    assert(output@ =~= out0 + spec_encode_comparable(self@, *column_type));
                }
            },
            EncodeValue::Date(year, month, day, hour, minute, second, micro) => {
                let mut b = u32_to_le_bytes(*year as u32);
                output.append(&mut b);
                output.push(*month);
                output.push(*day);
                output.push(*hour);
                output.push(*minute);
                output.push(255);
                output.push(*second);
                let mut m = u32_to_le_bytes(*micro);
                output.append(&mut m);
                push_zero_bytes(output, 3);
                output.push(252);
                proof {
                    assert(output@ =~= out0 + spec_encode_comparable(self@, *column_type));
                }
            },
            EncodeValue::Time(negative, day, hour, minute, second, micro) => {
                if *negative {
                    output.push(1);
                } else {
                    output.push(0);
                }
                let mut b = u32_to_le_bytes(*day);
                output.append(&mut b);
                output.push(*hour);
                output.push(*minute);
                output.push(*second);
                output.push(255);
                let mut m = u32_to_le_bytes(*micro);
                output.append(&mut m);
                push_zero_bytes(output, 4);
                output.push(251);
                proof {
                    assert(output@ =~= out0 + spec_encode_comparable(self@, *column_type));
                }
            },
        }
        Ok(())
    }

    /// Append the compact encoding of this value: the form stored inside a
    /// row payload or as the value side of an index entry. Fails with
    /// `InvalidType` exactly when `plain_ok` refuses the pair, leaving
    /// `output` unchanged.
    pub fn encode(&self, output: &mut Vec<u8>, column_type: &DataType) -> (r: MySQLResult<()>)
        ensures
            match r {
                Ok(_) => plain_ok(self@, *column_type) && final(output)@ == old(output)@
                    + spec_encode_plain(self@, *column_type),
                Err(e) => !plain_ok(self@, *column_type) && e == MySQLError::InvalidType
                    && final(output)@ == old(output)@,
            },
    {
        let ghost out0 = output@;
        match self {
            EncodeValue::NULL => {
                proof {
                    assert(output@ =~= out0 + spec_encode_plain(self@, *column_type));
                }
            },
            EncodeValue::Bytes(v) => {
                if v.len() > u32::MAX as usize {
                    return Err(MySQLError::InvalidType);
                }
                let mut b = u32_to_le_bytes(v.len() as u32);
                output.append(&mut b);
                let ghost out1 = output@;
                let n = v.len();
                let mut i: usize = 0;
                while i < n
                    invariant
                        i <= n,
                        n == v@.len(),
                        output@ == out1 + v@.subrange(0, i as int),
                    decreases n - i,
                {
                    output.push(*vec_index_ref(v, i));
                    proof {
                        assert(out1 + v@.subrange(0, i + 1) =~= (out1 + v@.subrange(
                            0,
                            i as int,
                        )).push(v@[i as int]));
                    }
                    i += 1;
                }
                proof {
                    assert(v@.subrange(0, v@.len() as int) =~= v@);
                    assert(output@ =~= out0 + spec_encode_plain(self@, *column_type));
                }
            },
            EncodeValue::Float(bits) => {
                let mut b = u32_to_le_bytes(*bits);
                output.append(&mut b);
                proof {
                    assert(output@ =~= out0 + spec_encode_plain(self@, *column_type));
                }
            },
            EncodeValue::Double(bits) => {
                let mut b = u64_to_le_bytes(*bits);
                output.append(&mut b);
                proof {
                    assert(output@ =~= out0 + spec_encode_plain(self@, *column_type));
                }
            },
            EncodeValue::Int(x) => {
                match column_type {
                    DataType::SmallInt => {
                        let mut b = u16_to_le_bytes(#[verifier::truncate] (*x as u16));
                        output.append(&mut b);
                    },
                    DataType::Int => {
                        let mut b = u32_to_le_bytes(#[verifier::truncate] (*x as u32));
                        output.append(&mut b);
                    },
                    DataType::BigInt => {
                        let mut b = u64_to_le_bytes(#[verifier::truncate] (*x as u64));
                        output.append(&mut b);
                    },
                    _ => {
                        return Err(MySQLError::InvalidType);
                    },
                }
                proof {
                    assert(output@ =~= out0 + spec_encode_plain(self@, *column_type));
                }
            },
            EncodeValue::Date(year, month, day, hour, minute, second, micro) => {
                if *micro > 0 {
                    output.push(11);
                } else {
                    output.push(7);
                }
                let mut b = u16_to_le_bytes(*year);
                output.append(&mut b);
                output.push(*month);
                output.push(*day);
                output.push(*hour);
                output.push(*minute);
                output.push(*second);
                if *micro > 0 {
                    let mut m = u32_to_le_bytes(*micro);
                    output.append(&mut m);
                }
                proof {
                    assert(output@ =~= out0 + spec_encode_plain(self@, *column_type));
                }
            },
            EncodeValue::Time(negative, day, hour, minute, second, micro) => {
                output.push(12);
                if *negative {
                    output.push(1);
                } else {
                    output.push(0);
                }
                let mut b = u32_to_le_bytes(*day);
                output.append(&mut b);
                output.push(*hour);
                output.push(*minute);
                output.push(*second);
                let mut m = u32_to_le_bytes(*micro);
                output.append(&mut m);
                proof {
                    assert(output@ =~= out0 + spec_encode_plain(self@, *column_type));
                }
            },
        }
        Ok(())
    }
}

/// Borrow one element of a vector.
fn vec_index_ref(v: &Vec<u8>, i: usize) -> (r: &u8)
    requires
        i < v@.len(),
    ensures
        *r == v@[i as int],
{
    &v[i]
}

/// The mathematical decoder for the group encoding of a byte string,
/// reading at `pos`: `None` when the bytes at `pos` are not a well-formed
/// encoding (truncated, or a marker below 247), otherwise the decoded
/// string and the position just past its final marker.
pub open spec fn spec_dec_bytes(input: Seq<u8>, pos: int) -> Option<(Seq<u8>, int)>
    decreases input.len() - pos,
{
    if pos + 9 <= input.len() && pos >= 0 {
        let marker = input[pos + 8];
        if marker == 255 {
            match spec_dec_bytes(input, pos + 9) {
                Some(sp) => Some((input.subrange(pos, pos + 8) + sp.0, sp.1)),
                None => None,
            }
        } else if marker >= 247 {
            Some((input.subrange(pos, pos + (marker - 247)), pos + 9))
        } else {
            None
        }
    } else {
        None
    }
}

/// The mathematical decoder for one comparable value of declared type `t`
/// at `pos`. Fixed-width values check their trailing empty-group marker;
/// the pad bytes themselves are skipped unread.
pub open spec fn spec_decode_comparable(input: Seq<u8>, pos: int, t: DataType) -> Option<
    (ValueView, int),
> {
    if t is SmallInt || t is Int || t is BigInt {
        if pos >= 0 && pos + 17 <= input.len() && input[pos + 16] == 247 {
            Some(
                (ValueView::Int(spec_u64_from_le_bytes(input.subrange(pos, pos + 8)) as i64), pos
                    + 17),
            )
        } else {
            None
        }
    } else if t is Double {
        if pos >= 0 && pos + 17 <= input.len() && input[pos + 16] == 247 {
            Some(
                (ValueView::Double(spec_u64_from_le_bytes(input.subrange(pos, pos + 8))), pos + 17),
            )
        } else {
            None
        }
    } else if is_bytes_type(t) {
        match spec_dec_bytes(input, pos) {
            Some(sp) => Some((ValueView::Bytes(sp.0), sp.1)),
            None => None,
        }
    } else if t is Date {
        if pos >= 0 && pos + 18 <= input.len() && input[pos + 17] == 252 {
            Some(
                (
                    ValueView::Date(
                        spec_u32_from_le_bytes(input.subrange(pos, pos + 4)) as u16,
                        input[pos + 4],
                        input[pos + 5],
                        input[pos + 6],
                        input[pos + 7],
                        input[pos + 9],
                        spec_u32_from_le_bytes(input.subrange(pos + 10, pos + 14)),
                    ),
                    pos + 18,
                ),
            )
        } else {
            None
        }
    } else if t is Time {
        if pos >= 0 && pos + 18 <= input.len() && input[pos + 17] == 251 {
            Some(
                (
                    ValueView::Time(
                        input[pos] == 1,
                        spec_u32_from_le_bytes(input.subrange(pos + 1, pos + 5)),
                        input[pos + 5],
                        input[pos + 6],
                        input[pos + 7],
                        spec_u32_from_le_bytes(input.subrange(pos + 9, pos + 13)),
                    ),
                    pos + 18,
                ),
            )
        } else {
            None
        }
    } else {
        None
    }
}

/// The column types that the comparable decoder handles. `Float` has no
/// decoder arm: single-precision keys cannot be read back.
pub open spec fn comparable_decodable_type(t: DataType) -> bool {
    is_int_type(t) || t is Double || is_bytes_type(t) || t is Date || t is Time
}

/// Skip the eight pad bytes and the final marker that close a fixed-width
/// comparable value, checking the marker byte.
pub fn check_and_skip_empty_padding(input: &[u8], pos: usize) -> (r: MySQLResult<usize>)
    ensures
        match r {
            Ok(np) => pos + 9 <= input@.len() && input@[pos + 8] == 247 && np == pos + 9,
            Err(e) => e == MySQLError::Corruption && !(pos + 9 <= input@.len() && input@[pos + 8]
                == 247),
        },
{
    if input.len() < 9 || pos > input.len() - 9 {
        return Err(MySQLError::Corruption);
    }
    if *slice_index_get(input, pos + 8) != 247 {
        return Err(MySQLError::Corruption);
    }
    Ok(pos + 9)
}

/// Decode the group encoding of a byte string at `pos`, appending the
/// decoded bytes to `output` and returning the position just past the
/// final marker. Fails with `Corruption` exactly when the bytes at `pos`
/// are not a well-formed group encoding, leaving `output` unchanged.
pub fn decode_comparable_bytes(input: &[u8], pos: usize, output: &mut Vec<u8>) -> (r: MySQLResult<
    usize,
>)
    ensures
        match r {
            Ok(np) => {
                &&& spec_dec_bytes(input@, pos as int) matches Some(sp)
                &&& final(output)@ == old(output)@ + sp.0
                &&& np == sp.1
                &&& pos < np <= input@.len()
            },
            Err(e) => e == MySQLError::Corruption && spec_dec_bytes(input@, pos as int) is None
                && final(output)@ == old(output)@,
        },
{
    let ilen = input.len();
    let mut cur: usize = pos;
    let mut acc: Vec<u8> = Vec::new();
    proof {
        if let Some(sp) = spec_dec_bytes(input@, pos as int) {
            assert(Seq::<u8>::empty() + sp.0 =~= sp.0);
        }
    }
    loop
        invariant
            ilen == input@.len(),
            pos <= cur,
            output@ == old(output)@,
            match spec_dec_bytes(input@, cur as int) {
                Some(sp) => spec_dec_bytes(input@, pos as int) == Some((acc@ + sp.0, sp.1)),
                None => spec_dec_bytes(input@, pos as int) is None,
            },
        decreases input@.len() - cur,
    {
        if ilen < 9 || cur > ilen - 9 {
            return Err(MySQLError::Corruption);
        }
        let marker = *slice_index_get(input, cur + 8);
        if marker == 255 {
            let ghost acc0 = acc@;
            let mut j: usize = 0;
            while j < 8
                invariant
                    j <= 8,
                    ilen == input@.len(),
                    cur + 9 <= ilen,
                    acc@ == acc0 + input@.subrange(cur as int, cur + j),
                decreases 8 - j,
            {
                acc.push(*slice_index_get(input, cur + j));
                proof {
                    assert(acc0 + input@.subrange(cur as int, cur + j + 1) =~= (acc0
                        + input@.subrange(cur as int, cur + j)).push(input@[cur + j]));
                }
                j += 1;
            }
            proof {
                if let Some(tail) = spec_dec_bytes(input@, cur + 9) {
                    assert(acc@ + tail.0 =~= acc0 + (input@.subrange(cur as int, cur + 8)
                        + tail.0));
                }
            }
            cur = cur + 9;
        } else if marker >= 247 {
            let take = (marker - 247) as usize;
            let ghost acc0 = acc@;
            let mut j: usize = 0;
            while j < take
                invariant
                    j <= take,
                    take < 8,
                    ilen == input@.len(),
                    cur + 9 <= ilen,
                    acc@ == acc0 + input@.subrange(cur as int, cur + j),
                decreases take - j,
            {
                acc.push(*slice_index_get(input, cur + j));
                proof {
                    assert(acc0 + input@.subrange(cur as int, cur + j + 1) =~= (acc0
                        + input@.subrange(cur as int, cur + j)).push(input@[cur + j]));
                }
                j += 1;
            }
            output.append(&mut acc);
            proof {
                let sp = spec_dec_bytes(input@, cur as int)->Some_0;
                assert(output@ =~= old(output)@ + (acc0 + sp.0));
            }
            return Ok(cur + 9);
        } else {
            return Err(MySQLError::Corruption);
        }
    }
}

/// The mathematical decoder for one compact (plain) value of declared type
/// `t` at `pos`: the row payload form. Mirrors the width rules of
/// `spec_encode_plain`; the date and time forms read the leading length
/// byte and fill absent fields with zero.
pub open spec fn spec_read_from(input: Seq<u8>, pos: int, t: DataType) -> Option<(ValueView, int)> {
    if pos < 0 {
        None
    } else if t is SmallInt {
        if pos + 2 <= input.len() {
            Some(
                (
                    ValueView::Int(
                        spec_u16_from_le_bytes(input.subrange(pos, pos + 2)) as i16 as i64,
                    ),
                    pos + 2,
                ),
            )
        } else {
            None
        }
    } else if t is Int {
        if pos + 4 <= input.len() {
            Some(
                (
                    ValueView::Int(
                        spec_u32_from_le_bytes(input.subrange(pos, pos + 4)) as i32 as i64,
                    ),
                    pos + 4,
                ),
            )
        } else {
            None
        }
    } else if t is BigInt {
        if pos + 8 <= input.len() {
            Some(
                (
                    ValueView::Int(spec_u64_from_le_bytes(input.subrange(pos, pos + 8)) as i64),
                    pos + 8,
                ),
            )
        } else {
            None
        }
    } else if t is Double {
        if pos + 8 <= input.len() {
            Some(
                (ValueView::Double(spec_u64_from_le_bytes(input.subrange(pos, pos + 8))), pos + 8),
            )
        } else {
            None
        }
    } else if is_bytes_type(t) {
        if pos + 4 <= input.len() {
            let l = spec_u32_from_le_bytes(input.subrange(pos, pos + 4)) as int;
            if pos + 4 + l <= input.len() {
                Some((ValueView::Bytes(input.subrange(pos + 4, pos + 4 + l)), pos + 4 + l))
            } else {
                None
            }
        } else {
            None
        }
    } else if t is Date {
        if pos + 1 <= input.len() {
            let len = input[pos];
            let p1 = pos + 1;
            if len >= 4 {
                if p1 + 4 <= input.len() {
                    let y = spec_u16_from_le_bytes(input.subrange(p1, p1 + 2));
                    let mo = input[p1 + 2];
                    let d = input[p1 + 3];
                    if len >= 7 {
                        if p1 + 7 <= input.len() {
                            let h = input[p1 + 4];
                            let mi = input[p1 + 5];
                            let s = input[p1 + 6];
                            if len == 11 {
                                if p1 + 11 <= input.len() {
                                    let us = spec_u32_from_le_bytes(
                                        input.subrange(p1 + 7, p1 + 11),
                                    );
                                    Some((ValueView::Date(y, mo, d, h, mi, s, us), p1 + 11))
                                } else {
                                    None
                                }
                            } else {
                                Some((ValueView::Date(y, mo, d, h, mi, s, 0), p1 + 7))
                            }
                        } else {
                            None
                        }
                    } else if len == 11 {
                        if p1 + 8 <= input.len() {
                            let us = spec_u32_from_le_bytes(input.subrange(p1 + 4, p1 + 8));
                            Some((ValueView::Date(y, mo, d, 0, 0, 0, us), p1 + 8))
                        } else {
                            None
                        }
                    } else {
                        Some((ValueView::Date(y, mo, d, 0, 0, 0, 0), p1 + 4))
                    }
                } else {
                    None
                }
            } else if len >= 7 {
                if p1 + 3 <= input.len() {
                    let h = input[p1];
                    let mi = input[p1 + 1];
                    let s = input[p1 + 2];
                    if len == 11 {
                        None
                    } else {
                        Some((ValueView::Date(0, 0, 0, h, mi, s, 0), p1 + 3))
                    }
                } else {
                    None
                }
            } else if len == 11 {
                None
            } else {
                Some((ValueView::Date(0, 0, 0, 0, 0, 0, 0), p1))
            }
        } else {
            None
        }
    } else if t is Time {
        if pos + 1 <= input.len() {
            let len = input[pos];
            let p1 = pos + 1;
            if len >= 8 {
                if p1 + 8 <= input.len() {
                    let neg = input[p1] == 1;
                    let d = spec_u32_from_le_bytes(input.subrange(p1 + 1, p1 + 5));
                    let h = input[p1 + 5];
                    let mi = input[p1 + 6];
                    let s = input[p1 + 7];
                    if len == 12 {
                        if p1 + 12 <= input.len() {
                            let us = spec_u32_from_le_bytes(input.subrange(p1 + 8, p1 + 12));
                            Some((ValueView::Time(neg, d, h, mi, s, us), p1 + 12))
                        } else {
                            None
                        }
                    } else {
                        Some((ValueView::Time(neg, d, h, mi, s, 0), p1 + 8))
                    }
                } else {
                    None
                }
            } else if len == 12 {
                None
            } else {
                Some((ValueView::Time(false, 0, 0, 0, 0, 0), p1))
            }
        } else {
            None
        }
    } else {
        None
    }
}

/// The column types that the compact decoder handles. `Float` and the
/// remaining declared types have no decoder arm.
pub open spec fn plain_decodable_type(t: DataType) -> bool {
    is_int_type(t) || t is Double || is_bytes_type(t) || t is Date || t is Time
}

impl EncodeValue {
    /// Decode one comparable value of declared type `t` at `pos`,
    /// returning the value and the position just past it. `InvalidType`
    /// when `t` has no comparable decoder; `Corruption` when the bytes are
    /// truncated or a closing marker is wrong.
    pub fn decode_comparable(input: &[u8], pos: usize, column_type: &DataType) -> (r: MySQLResult<
        (EncodeValue, usize),
    >)
        ensures
            match r {
                Ok((v, np)) => spec_decode_comparable(input@, pos as int, *column_type) == Some(
                    (v@, np as int),
                ) && pos < np <= input@.len(),
                Err(e) => {
                    &&& spec_decode_comparable(input@, pos as int, *column_type) is None
                    &&& e == if comparable_decodable_type(*column_type) {
                        MySQLError::Corruption
                    } else {
                        MySQLError::InvalidType
                    }
                },
            },
    {
        match column_type {
            DataType::SmallInt | DataType::Int | DataType::BigInt => {
                if input.len() < 17 || pos > input.len() - 17 {
                    return Err(MySQLError::Corruption);
                }
                let x = u64_from_le_bytes(slice_subrange(input, pos, pos + 8));
                if *slice_index_get(input, pos + 16) != 247 {
                    return Err(MySQLError::Corruption);
                }
                Ok((EncodeValue::Int(#[verifier::truncate] (x as i64)), pos + 17))
            },
            DataType::Double => {
                if input.len() < 17 || pos > input.len() - 17 {
                    return Err(MySQLError::Corruption);
                }
                let x = u64_from_le_bytes(slice_subrange(input, pos, pos + 8));
                if *slice_index_get(input, pos + 16) != 247 {
                    return Err(MySQLError::Corruption);
                }
                Ok((EncodeValue::Double(x), pos + 17))
            },
            DataType::Char | DataType::Varchar | DataType::Text | DataType::VarString => {
                let mut output: Vec<u8> = Vec::new();
                let np = decode_comparable_bytes(input, pos, &mut output)?;
                Ok((EncodeValue::Bytes(output), np))
            },
            DataType::Date => {
                if input.len() < 18 || pos > input.len() - 18 {
                    return Err(MySQLError::Corruption);
                }
                if *slice_index_get(input, pos + 17) != 252 {
                    return Err(MySQLError::Corruption);
                }
                let y = u32_from_le_bytes(slice_subrange(input, pos, pos + 4));
                let month = *slice_index_get(input, pos + 4);
                let day = *slice_index_get(input, pos + 5);
                let hour = *slice_index_get(input, pos + 6);
                let minute = *slice_index_get(input, pos + 7);
                let second = *slice_index_get(input, pos + 9);
                let micro = u32_from_le_bytes(slice_subrange(input, pos + 10, pos + 14));
                Ok(
                    (
                        EncodeValue::Date(
                            #[verifier::truncate] (y as u16),
                            month,
                            day,
                            hour,
                            minute,
                            second,
                            micro,
                        ),
                        pos + 18,
                    ),
                )
            },
            DataType::Time => {
                if input.len() < 18 || pos > input.len() - 18 {
                    return Err(MySQLError::Corruption);
                }
                if *slice_index_get(input, pos + 17) != 251 {
                    return Err(MySQLError::Corruption);
                }
                let neg = *slice_index_get(input, pos) == 1;
                let days = u32_from_le_bytes(slice_subrange(input, pos + 1, pos + 5));
                let hours = *slice_index_get(input, pos + 5);
                let minutes = *slice_index_get(input, pos + 6);
                let seconds = *slice_index_get(input, pos + 7);
                let micro = u32_from_le_bytes(slice_subrange(input, pos + 9, pos + 13));
                Ok((EncodeValue::Time(neg, days, hours, minutes, seconds, micro), pos + 18))
            },
            _ => Err(MySQLError::InvalidType),
        }
    }

    /// Decode one compact (plain) value of declared type `t` at `pos`: the
    /// inverse of `encode` on well-formed payloads. `InvalidType` when `t`
    /// has no compact decoder; `Corruption` when the bytes are truncated.
    pub fn read_from(input: &[u8], pos: usize, column_type: &DataType) -> (r: MySQLResult<
        (EncodeValue, usize),
    >)
        ensures
            match r {
                Ok((v, np)) => spec_read_from(input@, pos as int, *column_type) == Some(
                    (v@, np as int),
                ) && pos <= np <= input@.len(),
                Err(e) => {
                    &&& spec_read_from(input@, pos as int, *column_type) is None
                    &&& e == if plain_decodable_type(*column_type) {
                        MySQLError::Corruption
                    } else {
                        MySQLError::InvalidType
                    }
                },
            },
    {
        match column_type {
            DataType::SmallInt => {
                if input.len() < 2 || pos > input.len() - 2 {
                    return Err(MySQLError::Corruption);
                }
                let x = u16_from_le_bytes(slice_subrange(input, pos, pos + 2));
                Ok(
                    (
                        EncodeValue::Int(#[verifier::truncate] (x as i16) as i64),
                        pos + 2,
                    ),
                )
            },
            DataType::Int => {
                if input.len() < 4 || pos > input.len() - 4 {
                    return Err(MySQLError::Corruption);
                }
                let x = u32_from_le_bytes(slice_subrange(input, pos, pos + 4));
                Ok(
                    (
                        EncodeValue::Int(#[verifier::truncate] (x as i32) as i64),
                        pos + 4,
                    ),
                )
            },
            DataType::BigInt => {
                if input.len() < 8 || pos > input.len() - 8 {
                    return Err(MySQLError::Corruption);
                }
                let x = u64_from_le_bytes(slice_subrange(input, pos, pos + 8));
                Ok((EncodeValue::Int(#[verifier::truncate] (x as i64)), pos + 8))
            },
            DataType::Double => {
                if input.len() < 8 || pos > input.len() - 8 {
                    return Err(MySQLError::Corruption);
                }
                let x = u64_from_le_bytes(slice_subrange(input, pos, pos + 8));
                Ok((EncodeValue::Double(x), pos + 8))
            },
            DataType::Char | DataType::Varchar | DataType::Text | DataType::VarString => {
                if input.len() < 4 || pos > input.len() - 4 {
                    return Err(MySQLError::Corruption);
                }
                let l = u32_from_le_bytes(slice_subrange(input, pos, pos + 4));
                if l as usize > input.len() - (pos + 4) {
                    return Err(MySQLError::Corruption);
                }
                let mut v: Vec<u8> = Vec::new();
                let start = pos + 4;
                let end = start + l as usize;
                let mut i: usize = start;
                while i < end
                    invariant
                        start <= i <= end,
                        end <= input@.len(),
                        v@ == input@.subrange(start as int, i as int),
                    decreases end - i,
                {
                    v.push(*slice_index_get(input, i));
                    proof {
                        assert(input@.subrange(start as int, i + 1) =~= input@.subrange(
                            start as int,
                            i as int,
                        ).push(input@[i as int]));
                    }
                    i += 1;
                }
                Ok((EncodeValue::Bytes(v), end))
            },
            DataType::Date => {
                if input.len() < 1 || pos > input.len() - 1 {
                    return Err(MySQLError::Corruption);
                }
                let len = *slice_index_get(input, pos);
                let p1 = pos + 1;
                let mut year: u16 = 0;
                let mut month: u8 = 0;
                let mut day: u8 = 0;
                let mut hour: u8 = 0;
                let mut minute: u8 = 0;
                let mut second: u8 = 0;
                let mut micro: u32 = 0;
                let mut cur = p1;
                if len >= 4 {
                    if input.len() < 4 || cur > input.len() - 4 {
                        return Err(MySQLError::Corruption);
                    }
                    year = u16_from_le_bytes(slice_subrange(input, cur, cur + 2));
                    month = *slice_index_get(input, cur + 2);
                    day = *slice_index_get(input, cur + 3);
                    cur = cur + 4;
                }
                if len >= 7 {
                    if input.len() < 3 || cur > input.len() - 3 {
                        return Err(MySQLError::Corruption);
                    }
                    hour = *slice_index_get(input, cur);
                    minute = *slice_index_get(input, cur + 1);
                    second = *slice_index_get(input, cur + 2);
                    cur = cur + 3;
                }
                if len == 11 {
                    if input.len() < 4 || cur > input.len() - 4 {
                        return Err(MySQLError::Corruption);
                    }
                    micro = u32_from_le_bytes(slice_subrange(input, cur, cur + 4));
                    cur = cur + 4;
                }
                Ok((EncodeValue::Date(year, month, day, hour, minute, second, micro), cur))
            },
            DataType::Time => {
                if input.len() < 1 || pos > input.len() - 1 {
                    return Err(MySQLError::Corruption);
                }
                let len = *slice_index_get(input, pos);
                let p1 = pos + 1;
                let mut negative: bool = false;
                let mut days: u32 = 0;
                let mut hours: u8 = 0;
                let mut minutes: u8 = 0;
                let mut seconds: u8 = 0;
                let mut micro: u32 = 0;
                let mut cur = p1;
                if len >= 8 {
                    if input.len() < 8 || cur > input.len() - 8 {
                        return Err(MySQLError::Corruption);
                    }
                    negative = *slice_index_get(input, cur) == 1;
                    days = u32_from_le_bytes(slice_subrange(input, cur + 1, cur + 5));
                    hours = *slice_index_get(input, cur + 5);
                    minutes = *slice_index_get(input, cur + 6);
                    seconds = *slice_index_get(input, cur + 7);
                    cur = cur + 8;
                }
                if len == 12 {
                    if input.len() < 4 || cur > input.len() - 4 {
                        return Err(MySQLError::Corruption);
                    }
                    micro = u32_from_le_bytes(slice_subrange(input, cur, cur + 4));
                    cur = cur + 4;
                }
                Ok((EncodeValue::Time(negative, days, hours, minutes, seconds, micro), cur))
            },
            _ => Err(MySQLError::InvalidType),
        }
    }
}

} // verus!
