use vstd::prelude::*;
use crate::errors::{MySQLError, MySQLResult};

verus! {

pub open spec fn is_ascii_digit(c: u8) -> bool {
    48 <= c <= 57
}

/// The value of a digit string, most significant digit first.
pub open spec fn digits_value(s: Seq<u8>) -> int
    decreases s.len(),
{
    if s.len() == 0 {
        0
    } else {
        digits_value(s.subrange(0, s.len() - 1)) * 10 + (s[s.len() - 1] - 48)
    }
}

pub open spec fn all_digits(s: Seq<u8>) -> bool {
    s.len() > 0 && forall|i: int| 0 <= i < s.len() ==> is_ascii_digit(s[i])
}

/// The digits of an integer literal, after an optional sign byte.
pub open spec fn int_body(s: Seq<u8>) -> Seq<u8> {
    if s.len() > 0 && (s[0] == 43 || s[0] == 45) {
        s.subrange(1, s.len() as int)
    } else {
        s
    }
}

pub open spec fn int_negative(s: Seq<u8>) -> bool {
    s.len() > 0 && s[0] == 45
}

/// The signed value an integer literal denotes.
pub open spec fn int_text_value(s: Seq<u8>) -> int {
    if int_negative(s) {
        -digits_value(int_body(s))
    } else {
        digits_value(int_body(s))
    }
}

/// The texts that parse as a 64-bit integer: an optional sign, then
/// digits only, denoting a value in range.
pub open spec fn valid_i64_text(s: Seq<u8>) -> bool {
    &&& all_digits(int_body(s))
    &&& i64::MIN <= int_text_value(s) <= i64::MAX
}

/// A digit string's value is never negative.
pub proof fn lemma_digits_nonneg(s: Seq<u8>)
    requires
        forall|i: int| 0 <= i < s.len() ==> is_ascii_digit(s[i]),
    ensures
        digits_value(s) >= 0,
    decreases s.len(),
{
    if s.len() > 0 {
        lemma_digits_nonneg(s.subrange(0, s.len() - 1));
    }
}

/// Extending a digit string never shrinks its value.
pub proof fn lemma_digits_prefix_le(s: Seq<u8>, i: int)
    requires
        0 <= i <= s.len(),
        forall|k: int| 0 <= k < s.len() ==> is_ascii_digit(s[k]),
    ensures
        digits_value(s.subrange(0, i)) <= digits_value(s),
    decreases s.len() - i,
{
    if i < s.len() {
        lemma_digits_prefix_le(s, i + 1);
        let p = s.subrange(0, i + 1);
        assert(p.subrange(0, p.len() - 1) =~= s.subrange(0, i));
        lemma_digits_nonneg(s.subrange(0, i));
        assert(digits_value(s.subrange(0, i)) <= digits_value(p));
    } else {
        assert(s.subrange(0, i) =~= s);
    }
}

/// Parse a decimal 64-bit integer as the SQL layer writes one: an
/// optional `+` or `-` sign followed by digits. Succeeds exactly on
/// `valid_i64_text` inputs and returns the denoted value.
pub fn parse_i64(b: &[u8]) -> (r: MySQLResult<i64>)
    ensures
        match r {
            Ok(v) => valid_i64_text(b@) && v == int_text_value(b@),
            Err(e) => !valid_i64_text(b@) && e is ParseError,
        },
{
    let n = b.len();
    let mut i: usize = 0;
    let mut neg = false;
    if n > 0 {
        let c0 = *vstd::slice::slice_index_get(b, 0);
        if c0 == 43 || c0 == 45 {
            neg = c0 == 45;
            i = 1;
        }
    }
    let body_start = i;
    proof {
        assert(int_body(b@) =~= b@.subrange(body_start as int, n as int));
        assert(neg == int_negative(b@));
    }
    if i >= n {
        return Err(MySQLError::ParseError("empty integer literal".to_owned()));
    }
    let limit: u64 = if neg {
        9223372036854775808
    } else {
        9223372036854775807
    };
    let mut acc: u64 = 0;
    while i < n
        invariant
            body_start <= i <= n,
            n == b@.len(),
            body_start < n,
            neg == int_negative(b@),
            int_body(b@) == b@.subrange(body_start as int, n as int),
            limit == if neg {
                9223372036854775808u64
            } else {
                9223372036854775807u64
            },
            forall|k: int| body_start <= k < i ==> is_ascii_digit(b@[k]),
            acc == digits_value(b@.subrange(body_start as int, i as int)),
            acc <= limit,
        decreases n - i,
    {
        let c = *vstd::slice::slice_index_get(b, i);
        if c < 48 || c > 57 {
            proof {
                assert(int_body(b@)[i - body_start] == b@[i as int]);
                assert(!all_digits(int_body(b@)));
            }
            return Err(MySQLError::ParseError("not a digit".to_owned()));
        }
        let d = (c - 48) as u64;
        let ghost pre = b@.subrange(body_start as int, i as int);
        let ghost cur = b@.subrange(body_start as int, i + 1);
        proof {
            assert(cur.subrange(0, cur.len() - 1) =~= pre);
            assert(cur[cur.len() - 1] == b@[i as int]);
            assert(digits_value(cur) == acc * 10 + d);
        }
        if acc > (limit - d) / 10 {
            proof {
                assert(acc * 10 + d > limit);
                lemma_digits_nonneg(pre);
                if all_digits(int_body(b@)) {
                    lemma_digits_prefix_le(int_body(b@), i + 1 - body_start);
                    assert(int_body(b@).subrange(0, i + 1 - body_start) =~= cur);
                    assert(digits_value(int_body(b@)) > limit);
                    if neg {
                        assert(int_text_value(b@) < i64::MIN);
                    } else {
                        assert(int_text_value(b@) > i64::MAX);
                    }
                }
            }
            return Err(MySQLError::ParseError("integer literal out of range".to_owned()));
        }
        acc = acc * 10 + d;
        i += 1;
    }
    proof {
        assert(b@.subrange(body_start as int, n as int) =~= int_body(b@));
        assert(acc == digits_value(int_body(b@)));
        assert(all_digits(int_body(b@)));
    }
    if neg {
        if acc == 9223372036854775808 {
            Ok(i64::MIN)
        } else {
            Ok(-(acc as i64))
        }
    } else {
        Ok(acc as i64)
    }
}

} // verus!
