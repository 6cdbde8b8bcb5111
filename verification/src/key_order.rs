use vstd::prelude::*;
use crate::types::spec_comparable_bytes;

verus! {

/// Strict lexicographic order on byte sequences: the order in which the
/// key-value backends compare raw keys.
pub open spec fn seq_lt(a: Seq<u8>, b: Seq<u8>) -> bool
    decreases a.len(),
{
    if b.len() == 0 {
        false
    } else if a.len() == 0 {
        true
    } else {
        a[0] < b[0] || (a[0] == b[0] && seq_lt(
            a.subrange(1, a.len() as int),
            b.subrange(1, b.len() as int),
        ))
    }
}

/// `a` and `b` agree before `i` and differ at `i` with `a[i] < b[i]`:
/// their order is decided strictly inside both sequences.
pub open spec fn lt_at(a: Seq<u8>, b: Seq<u8>, i: int) -> bool {
    &&& 0 <= i < a.len()
    &&& i < b.len()
    &&& forall|k: int| 0 <= k < i ==> a[k] == b[k]
    &&& a[i] < b[i]
}

/// `a` is a proper prefix of `b`.
pub open spec fn is_strict_prefix(a: Seq<u8>, b: Seq<u8>) -> bool {
    a.len() < b.len() && forall|k: int| 0 <= k < a.len() ==> a[k] == b[k]
}

/// Lexicographic order holds exactly when the sequences differ strictly at
/// some index, or the first is a proper prefix of the second.
pub proof fn lemma_seq_lt_char(a: Seq<u8>, b: Seq<u8>)
    ensures
        seq_lt(a, b) <==> ((exists|i: int| lt_at(a, b, i)) || is_strict_prefix(a, b)),
    decreases a.len(),
{
    if b.len() == 0 {
    } else if a.len() == 0 {
        assert(is_strict_prefix(a, b));
    } else {
        let ta = a.subrange(1, a.len() as int);
        let tb = b.subrange(1, b.len() as int);
        lemma_seq_lt_char(ta, tb);
        assert(forall|k: int| 0 <= k < ta.len() ==> ta[k] == a[k + 1]);
        assert(forall|k: int| 0 <= k < tb.len() ==> tb[k] == b[k + 1]);
        if a[0] < b[0] {
            assert(lt_at(a, b, 0));
        } else if a[0] == b[0] {
            if seq_lt(a, b) {
                if exists|i: int| lt_at(ta, tb, i) {
                    let i = choose|i: int| lt_at(ta, tb, i);
                    assert forall|k: int| 1 <= k < i + 1 implies a[k] == b[k] by {
                        assert(ta[k - 1] == tb[k - 1]);
                        assert(a[k] == ta[k - 1]);
                        assert(b[k] == tb[k - 1]);
                    }
                    assert(lt_at(a, b, i + 1));
                } else {
                    assert(is_strict_prefix(ta, tb));
                    assert forall|k: int| 1 <= k < a.len() implies a[k] == b[k] by {
                        assert(ta[k - 1] == tb[k - 1]);
                        assert(a[k] == ta[k - 1]);
                        assert(b[k] == tb[k - 1]);
                    }
                    assert(is_strict_prefix(a, b));
                }
            }
            if (exists|i: int| lt_at(a, b, i)) || is_strict_prefix(a, b) {
                if exists|i: int| lt_at(a, b, i) {
                    let i = choose|i: int| lt_at(a, b, i);
                    assert(i != 0);
                    assert(lt_at(ta, tb, i - 1));
                } else {
                    assert(is_strict_prefix(ta, tb));
                }
                assert(seq_lt(a, b));
            }
        } else {
            if exists|i: int| lt_at(a, b, i) {
                let i = choose|i: int| lt_at(a, b, i);
                if i > 0 {
                    assert(a[0] == b[0]);
                }
                assert(false);
            }
            assert(!is_strict_prefix(a, b));
        }
    }
}

/// Two unequal sequences of one length differ first at some index.
pub proof fn lemma_first_diff(x: Seq<u8>, y: Seq<u8>) -> (i: int)
    requires
        x.len() == y.len(),
        x != y,
    ensures
        0 <= i < x.len(),
        forall|k: int| 0 <= k < i ==> x[k] == y[k],
        x[i] != y[i],
    decreases x.len(),
{
    assert(x.len() > 0) by {
        if x.len() == 0 {
            assert(x =~= y);
        }
    }
    if x[0] != y[0] {
        0
    } else {
        let tx = x.subrange(1, x.len() as int);
        let ty = y.subrange(1, y.len() as int);
        assert(forall|k: int| 0 <= k < tx.len() ==> tx[k] == x[k + 1]);
        assert(forall|k: int| 0 <= k < ty.len() ==> ty[k] == y[k + 1]);
        assert(tx != ty) by {
            if tx == ty {
                assert forall|k: int| 1 <= k < x.len() implies x[k] == y[k] by {
                    assert(tx[k - 1] == ty[k - 1]);
                    assert(x[k] == tx[k - 1]);
                    assert(y[k] == ty[k - 1]);
                }
                assert(x =~= y);
            }
        }
        let j = lemma_first_diff(tx, ty);
        assert forall|k: int| 0 <= k < j + 1 implies x[k] == y[k] by {
            if k >= 1 {
                assert(tx[k - 1] == ty[k - 1]);
                assert(x[k] == tx[k - 1]);
                assert(y[k] == ty[k - 1]);
            }
        }
        j + 1
    }
}

/// A strict in-range difference survives appending anything to both sides.
pub proof fn lemma_lt_at_concat(a: Seq<u8>, b: Seq<u8>, u: Seq<u8>, v: Seq<u8>, i: int)
    requires
        lt_at(a, b, i),
    ensures
        lt_at(a + u, b + v, i),
{
    assert(forall|k: int| 0 <= k < a.len() ==> (a + u)[k] == a[k]);
    assert(forall|k: int| 0 <= k < b.len() ==> (b + v)[k] == b[k]);
}

/// A strict difference shifts under a common prefix.
pub proof fn lemma_lt_at_lift(p: Seq<u8>, x: Seq<u8>, y: Seq<u8>, i: int)
    requires
        lt_at(x, y, i),
    ensures
        lt_at(p + x, p + y, p.len() + i),
{
    assert(forall|k: int| 0 <= k < p.len() ==> (p + x)[k] == p[k] && (p + y)[k] == p[k]);
    assert(forall|k: int|
        p.len() <= k < p.len() + x.len() ==> (p + x)[k] == x[k - p.len()]);
    assert(forall|k: int|
        p.len() <= k < p.len() + y.len() ==> (p + y)[k] == y[k - p.len()]);
}

/// Lexicographic order is asymmetric.
pub proof fn lemma_seq_lt_asym(a: Seq<u8>, b: Seq<u8>)
    requires
        seq_lt(a, b),
    ensures
        !seq_lt(b, a),
    decreases a.len(),
{
    if a.len() > 0 && b.len() > 0 && a[0] == b[0] {
        lemma_seq_lt_asym(a.subrange(1, a.len() as int), b.subrange(1, b.len() as int));
    }
}

/// Lexicographic order is total: two sequences are ordered or equal.
pub proof fn lemma_seq_lt_total(a: Seq<u8>, b: Seq<u8>)
    ensures
        seq_lt(a, b) || seq_lt(b, a) || a == b,
    decreases a.len(),
{
    if a.len() == 0 && b.len() == 0 {
        assert(a =~= b);
    } else if a.len() > 0 && b.len() > 0 && a[0] == b[0] {
        let ta = a.subrange(1, a.len() as int);
        let tb = b.subrange(1, b.len() as int);
        lemma_seq_lt_total(ta, tb);
        if ta == tb {
            assert forall|k: int| 0 <= k < a.len() implies a[k] == b[k] by {
                if k >= 1 {
                    assert(ta[k - 1] == tb[k - 1]);
                    assert(a[k] == ta[k - 1]);
                    assert(b[k] == tb[k - 1]);
                }
            }
            assert(a =~= b);
        }
    }
}

/// Stripping a common prefix preserves strict order.
pub proof fn lemma_seq_lt_strip(p: Seq<u8>, x: Seq<u8>, y: Seq<u8>)
    requires
        seq_lt(p + x, p + y),
    ensures
        seq_lt(x, y),
{
    lemma_seq_lt_char(p + x, p + y);
    lemma_seq_lt_char(x, y);
    assert(forall|k: int| 0 <= k < p.len() ==> (p + x)[k] == p[k] && (p + y)[k] == p[k]);
    assert(forall|k: int|
        p.len() <= k < p.len() + x.len() ==> (p + x)[k] == x[k - p.len()]);
    assert(forall|k: int|
        p.len() <= k < p.len() + y.len() ==> (p + y)[k] == y[k - p.len()]);
    if exists|i: int| lt_at(p + x, p + y, i) {
        let i = choose|i: int| lt_at(p + x, p + y, i);
        assert(i >= p.len());
        assert forall|k: int| 0 <= k < i - p.len() implies x[k] == y[k] by {
            assert((p + x)[k + p.len()] == (p + y)[k + p.len()]);
        }
        assert(lt_at(x, y, i - p.len()));
    } else {
        assert forall|k: int| 0 <= k < x.len() implies x[k] == y[k] by {
            assert((p + x)[k + p.len()] == (p + y)[k + p.len()]);
        }
        assert(is_strict_prefix(x, y));
    }
}

/// The bytes a partial final group occupies: the string padded to eight
/// bytes with zeros.
pub open spec fn padded8(s: Seq<u8>) -> Seq<u8> {
    s + crate::types::zero_bytes((8 - s.len()) as nat)
}

/// The heart of order preservation: when `a` sorts strictly before `b`,
/// their group encodings differ strictly at some index inside both, so no
/// encoding is a prefix of the other's.
pub proof fn lemma_comparable_bytes_order_at(a: Seq<u8>, b: Seq<u8>) -> (i: int)
    requires
        seq_lt(a, b),
    ensures
        lt_at(spec_comparable_bytes(a), spec_comparable_bytes(b), i),
    decreases a.len(),
{
    let ea = spec_comparable_bytes(a);
    let eb = spec_comparable_bytes(b);
    lemma_seq_lt_char(a, b);
    if a.len() >= 8 && b.len() >= 8 {
        let ha = a.subrange(0, 8);
        let hb = b.subrange(0, 8);
        let ta = a.subrange(8, a.len() as int);
        let tb = b.subrange(8, b.len() as int);
        let eta = spec_comparable_bytes(ta);
        let etb = spec_comparable_bytes(tb);
        assert(ea =~= (ha + seq![255u8]) + eta);
        assert(eb =~= (hb + seq![255u8]) + etb);
        if ha == hb {
            assert(a =~= ha + ta);
            assert(b =~= ha + tb);
            lemma_seq_lt_strip(ha, ta, tb);
            let j = lemma_comparable_bytes_order_at(ta, tb);
            lemma_lt_at_lift(ha + seq![255u8], eta, etb, j);
            9 + j
        } else {
            if is_strict_prefix(a, b) {
                assert(ha =~= hb);
            }
            let i = choose|i: int| lt_at(a, b, i);
            if i >= 8 {
                assert forall|k: int| 0 <= k < 8 implies ha[k] == hb[k] by {
                    assert(a[k] == b[k]);
                }
                assert(ha =~= hb);
            }
            assert(forall|k: int| 0 <= k < 8 ==> ea[k] == a[k] && eb[k] == b[k]);
            assert(lt_at(ea, eb, i));
            i
        }
    } else if a.len() < 8 && b.len() >= 8 {
        let pa = padded8(a);
        let hb = b.subrange(0, 8);
        let tb = b.subrange(8, b.len() as int);
        let etb = spec_comparable_bytes(tb);
        assert(ea =~= pa + seq![(247 + a.len()) as u8]);
        assert(eb =~= (hb + seq![255u8]) + etb);
        assert(forall|k: int| 0 <= k < 8 ==> eb[k] == b[k]);
        assert(forall|k: int| 0 <= k < 8 ==> ea[k] == pa[k]);
        assert(forall|k: int| 0 <= k < a.len() ==> pa[k] == a[k]);
        assert(forall|k: int| a.len() <= k < 8 ==> pa[k] == 0);
        if is_strict_prefix(a, b) {
            if pa == hb {
                assert(ea[8] == (247 + a.len()) as u8);
                assert(eb[8] == 255u8);
                assert(lt_at(ea, eb, 8));
                8
            } else {
                assert(forall|k: int| 0 <= k < 8 ==> hb[k] == b[k]);
                let i = lemma_first_diff(pa, hb);
                assert(i >= a.len());
                assert(lt_at(ea, eb, i));
                i
            }
        } else {
            let i = choose|i: int| lt_at(a, b, i);
            assert(lt_at(ea, eb, i));
            i
        }
    } else if a.len() >= 8 {
        let ha = a.subrange(0, 8);
        let ta = a.subrange(8, a.len() as int);
        let eta = spec_comparable_bytes(ta);
        let pb = padded8(b);
        assert(ea =~= (ha + seq![255u8]) + eta);
        assert(eb =~= pb + seq![(247 + b.len()) as u8]);
        assert(forall|k: int| 0 <= k < 8 ==> ea[k] == a[k]);
        assert(forall|k: int| 0 <= k < b.len() ==> eb[k] == b[k]);
        assert(!is_strict_prefix(a, b));
        let i = choose|i: int| lt_at(a, b, i);
        assert(lt_at(ea, eb, i));
        i
    } else {
        let pa = padded8(a);
        let pb = padded8(b);
        assert(ea =~= pa + seq![(247 + a.len()) as u8]);
        assert(eb =~= pb + seq![(247 + b.len()) as u8]);
        assert(forall|k: int| 0 <= k < 8 ==> ea[k] == pa[k] && eb[k] == pb[k]);
        assert(forall|k: int| 0 <= k < a.len() ==> pa[k] == a[k]);
        assert(forall|k: int| a.len() <= k < 8 ==> pa[k] == 0);
        assert(forall|k: int| 0 <= k < b.len() ==> pb[k] == b[k]);
        assert(forall|k: int| b.len() <= k < 8 ==> pb[k] == 0);
        if is_strict_prefix(a, b) {
            if pa == pb {
                assert(ea[8] == (247 + a.len()) as u8);
                assert(eb[8] == (247 + b.len()) as u8);
                assert(lt_at(ea, eb, 8));
                8
            } else {
                let i = lemma_first_diff(pa, pb);
                assert(i >= a.len());
                assert(i < b.len());
                assert(lt_at(ea, eb, i));
                i
            }
        } else {
            let i = choose|i: int| lt_at(a, b, i);
            assert(lt_at(ea, eb, i));
            i
        }
    }
}

/// Order preservation for byte-string keys: the group encoding of a
/// lexicographically smaller string is itself lexicographically smaller.
/// (The fixed-width numeric encodings are little-endian and do not enjoy
/// this property.)
pub proof fn lemma_comparable_bytes_order(a: Seq<u8>, b: Seq<u8>)
    requires
        seq_lt(a, b),
    ensures
        seq_lt(spec_comparable_bytes(a), spec_comparable_bytes(b)),
{
    let i = lemma_comparable_bytes_order_at(a, b);
    lemma_seq_lt_char(spec_comparable_bytes(a), spec_comparable_bytes(b));
}

/// Lexicographic order on pairs of byte strings.
pub open spec fn pair_lt(a1: Seq<u8>, a2: Seq<u8>, b1: Seq<u8>, b2: Seq<u8>) -> bool {
    seq_lt(a1, b1) || (a1 == b1 && seq_lt(a2, b2))
}

/// Prefix composability: concatenated encodings of two byte strings
/// compare exactly as the pairs themselves compare lexicographically, so
/// multi-column keys built by concatenation sort componentwise.
pub proof fn lemma_comparable_concat_order(a1: Seq<u8>, a2: Seq<u8>, b1: Seq<u8>, b2: Seq<u8>)
    ensures
        seq_lt(
            spec_comparable_bytes(a1) + spec_comparable_bytes(a2),
            spec_comparable_bytes(b1) + spec_comparable_bytes(b2),
        ) <==> pair_lt(a1, a2, b1, b2),
{
    let cat1 = spec_comparable_bytes(a1) + spec_comparable_bytes(a2);
    let cat2 = spec_comparable_bytes(b1) + spec_comparable_bytes(b2);
    if pair_lt(a1, a2, b1, b2) {
        lemma_pair_implies_concat(a1, a2, b1, b2);
    }
    if seq_lt(cat1, cat2) && !pair_lt(a1, a2, b1, b2) {
        lemma_seq_lt_total(a1, b1);
        if seq_lt(b1, a1) {
            lemma_pair_implies_concat(b1, b2, a1, a2);
            lemma_seq_lt_asym(cat2, cat1);
        } else {
            lemma_seq_lt_total(a2, b2);
            if seq_lt(b2, a2) {
                lemma_pair_implies_concat(b1, b2, a1, a2);
                lemma_seq_lt_asym(cat2, cat1);
            } else {
                assert(cat1 == cat2);
                lemma_seq_lt_asym(cat1, cat2);
            }
        }
    }
}

/// One direction of prefix composability.
proof fn lemma_pair_implies_concat(a1: Seq<u8>, a2: Seq<u8>, b1: Seq<u8>, b2: Seq<u8>)
    requires
        pair_lt(a1, a2, b1, b2),
    ensures
        seq_lt(
            spec_comparable_bytes(a1) + spec_comparable_bytes(a2),
            spec_comparable_bytes(b1) + spec_comparable_bytes(b2),
        ),
{
    let ea1 = spec_comparable_bytes(a1);
    let ea2 = spec_comparable_bytes(a2);
    let eb1 = spec_comparable_bytes(b1);
    let eb2 = spec_comparable_bytes(b2);
    if seq_lt(a1, b1) {
        let i = lemma_comparable_bytes_order_at(a1, b1);
        lemma_lt_at_concat(ea1, eb1, ea2, eb2, i);
        lemma_seq_lt_char(ea1 + ea2, eb1 + eb2);
    } else {
        let j = lemma_comparable_bytes_order_at(a2, b2);
        lemma_lt_at_lift(ea1, ea2, eb2, j);
        lemma_seq_lt_char(ea1 + ea2, eb1 + eb2);
    }
}

} // verus!
