use vstd::prelude::*;
use vstd::bytes::{spec_u16_from_le_bytes, spec_u16_to_le_bytes, spec_u32_from_le_bytes,
    spec_u32_to_le_bytes};
use vstd::bytes::{u16_from_le_bytes, u16_to_le_bytes, u32_from_le_bytes, u32_to_le_bytes};
use vstd::slice::{slice_index_get, slice_subrange};
use crate::errors::{MySQLError, MySQLResult};
use crate::types::{plain_ok, spec_encode_plain, DataType, EncodeValue};

verus! {

/// The concatenated little-endian encodings of a list of 32-bit values:
/// the shape of the id and offset sections of a row blob.
pub open spec fn le32_concat(s: Seq<u32>) -> Seq<u8>
    decreases s.len(),
{
    if s.len() == 0 {
        Seq::empty()
    } else {
        spec_u32_to_le_bytes(s[0]) + le32_concat(s.subrange(1, s.len() as int))
    }
}

/// Strictly increasing: the sort order the row format demands of each id
/// group, which also makes ids unique.
pub open spec fn strictly_sorted(s: Seq<u32>) -> bool {
    forall|i: int, j: int| 0 <= i < j < s.len() ==> s[i] < s[j]
}

/// Accumulates one row: column ids and compact payloads for the non-null
/// columns, ids alone for the null columns. `to_bytes` then lays the row
/// out as header, counts, both id groups, end offsets, and payload bytes.
pub struct EncoderRow {
    pub cols: Vec<u32>,
    pub null_cols: Vec<u32>,
    pub offset: Vec<u32>,
    pub values: Vec<u8>,
}

impl EncoderRow {
    /// The internal shape every operation preserves: one end offset per
    /// non-null column, offsets non-decreasing and ending at the payload
    /// length, and each id group strictly sorted.
    pub open spec fn wf(&self) -> bool {
        &&& self.offset@.len() == self.cols@.len()
        &&& forall|i: int, j: int|
            0 <= i <= j < self.offset@.len() ==> self.offset@[i] <= self.offset@[j]
        &&& (self.offset@.len() > 0 ==> self.offset@.last() == self.values@.len())
        &&& (self.offset@.len() == 0 ==> self.values@.len() == 0)
        &&& strictly_sorted(self.cols@)
        &&& strictly_sorted(self.null_cols@)
    }

    /// The payload of the `j`-th non-null column: the bytes between its
    /// predecessor's end offset and its own.
    pub open spec fn payload_at(&self, j: int) -> Seq<u8> {
        let start: int = if j == 0 {
            0
        } else {
            self.offset@[j - 1] as int
        };
        self.values@.subrange(start, self.offset@[j] as int)
    }

    /// What this row records for a column id: present with a payload,
    /// present and null, or absent.
    pub open spec fn row_has(&self, id: u32) -> Option<Option<Seq<u8>>> {
        if exists|j: int| 0 <= j < self.cols@.len() && self.cols@[j] == id {
            let j = choose|j: int| 0 <= j < self.cols@.len() && self.cols@[j] == id;
            Some(Some(self.payload_at(j)))
        } else if exists|j: int| 0 <= j < self.null_cols@.len() && self.null_cols@[j] == id {
            Some(None)
        } else {
            None
        }
    }

    /// An id strictly above every id this row holds, so it may be
    /// appended next.
    pub open spec fn id_above(&self, col: u32) -> bool {
        &&& forall|i: int| 0 <= i < self.cols@.len() ==> self.cols@[i] < col
        &&& forall|i: int| 0 <= i < self.null_cols@.len() ==> self.null_cols@[i] < col
    }

    pub fn new() -> (r: EncoderRow)
        ensures
            r.wf(),
            r.cols@.len() == 0,
            r.null_cols@.len() == 0,
            r.values@.len() == 0,
    {
        EncoderRow { cols: Vec::new(), null_cols: Vec::new(), offset: Vec::new(), values: Vec::new() }
    }

    /// Whether recording this value succeeds: a null always does; any
    /// other value must encode at the declared type and keep the payload
    /// section within its 32-bit offsets.
    pub open spec fn append_ok(&self, v: crate::types::ValueView, t: DataType) -> bool {
        v is NULL || (plain_ok(v, t) && self.values@.len() + spec_encode_plain(v, t).len()
            <= u32::MAX)
    }

    /// Record one column. Ids must arrive in increasing order; the table
    /// engine feeds columns in declaration order, whose ids increase. A
    /// null value only records its id; any other value appends its compact
    /// payload. Fails without changing the row exactly when the value does
    /// not fit its declared type or the payload section would outgrow its
    /// 32-bit offsets.
    pub fn append_column(&mut self, col: u32, value: &EncodeValue, data_type: &DataType) -> (r:
        MySQLResult<()>)
        requires
            old(self).wf(),
            old(self).id_above(col),
        ensures
            final(self).wf(),
            r is Ok <==> old(self).append_ok(value@, *data_type),
            match r {
                Ok(_) => {
                    &&& if value@ is NULL {
                        &&& final(self).null_cols@ == old(self).null_cols@.push(col)
                        &&& final(self).cols@ == old(self).cols@
                        &&& final(self).offset@ == old(self).offset@
                        &&& final(self).values@ == old(self).values@
                    } else {
                        &&& final(self).cols@ == old(self).cols@.push(col)
                        &&& final(self).null_cols@ == old(self).null_cols@
                        &&& final(self).values@ == old(self).values@ + spec_encode_plain(
                            value@,
                            *data_type,
                        )
                        &&& final(self).offset@ == old(self).offset@.push(
                            final(self).values@.len() as u32,
                        )
                    }
                    &&& plain_ok(value@, *data_type)
                },
                Err(e) => {
                    &&& e == MySQLError::InvalidType
                    &&& final(self).cols@ == old(self).cols@
                    &&& final(self).null_cols@ == old(self).null_cols@
                    &&& final(self).offset@ == old(self).offset@
                    &&& final(self).values@ == old(self).values@
                },
            },
    {
        if value.is_null() {
            self.null_cols.push(col);
            proof {
                assert(final(self).wf());
            }
            Ok(())
        } else {
            let old_len = self.values.len();
            let ghost vals0 = self.values@;
            match value.encode(&mut self.values, data_type) {
                Ok(_) => {},
                Err(e) => {
                    return Err(e);
                },
            }
            if self.values.len() > u32::MAX as usize {
                self.values.truncate(old_len);
                proof {
                    assert(self.values@ =~= vals0);
                }
                return Err(MySQLError::InvalidType);
            }
            self.cols.push(col);
            self.offset.push(self.values.len() as u32);
            proof {
                assert(final(self).wf());
            }
            Ok(())
        }
    }

    /// Forget everything recorded, so the next row starts clean.
    pub fn clear(&mut self)
        ensures
            final(self).wf(),
            final(self).cols@.len() == 0,
            final(self).null_cols@.len() == 0,
            final(self).values@.len() == 0,
    {
        self.offset.clear();
        self.cols.clear();
        self.null_cols.clear();
        self.values.clear();
    }

    /// The full row blob this encoder produces: header bytes 128 and 0,
    /// the two group counts as 16-bit values, both id groups, the end
    /// offsets, then the payload bytes.
    pub open spec fn spec_row_bytes(&self) -> Seq<u8> {
        seq![128u8, 0u8] + spec_u16_to_le_bytes(self.cols@.len() as u16) + spec_u16_to_le_bytes(
            self.null_cols@.len() as u16,
        ) + le32_concat(self.cols@) + le32_concat(self.null_cols@) + le32_concat(self.offset@)
            + self.values@
    }

    /// Serialize the row. Fails only when a group holds more columns than
    /// the 16-bit counts can record.
    pub fn to_bytes(&self) -> (r: MySQLResult<Vec<u8>>)
        requires
            self.wf(),
        ensures
            match r {
                Ok(bytes) => {
                    &&& bytes@ == self.spec_row_bytes()
                    &&& self.cols@.len() <= u16::MAX
                    &&& self.null_cols@.len() <= u16::MAX
                },
                Err(e) => {
                    &&& e == MySQLError::InvalidType
                    &&& (self.cols@.len() > u16::MAX || self.null_cols@.len() > u16::MAX)
                },
            },
    {
        if self.cols.len() > u16::MAX as usize || self.null_cols.len() > u16::MAX as usize {
            return Err(MySQLError::InvalidType);
        }
        let mut buf: Vec<u8> = Vec::new();
        buf.push(128);
        buf.push(0);
        let mut b = u16_to_le_bytes(self.cols.len() as u16);
        buf.append(&mut b);
        let mut b2 = u16_to_le_bytes(self.null_cols.len() as u16);
        buf.append(&mut b2);
        let ghost mark1 = buf@;
        append_le32s(&mut buf, &self.cols);
        let ghost mark2 = buf@;
        append_le32s(&mut buf, &self.null_cols);
        append_le32s(&mut buf, &self.offset);
        let ghost mark3 = buf@;
        let n = self.values.len();
        let mut i: usize = 0;
        while i < n
            invariant
                i <= n,
                n == self.values@.len(),
                buf@ == mark3 + self.values@.subrange(0, i as int),
            decreases n - i,
        {
            let byte = *vstd::slice::slice_index_get(self.values.as_slice(), i);
            buf.push(byte);
            proof {
                assert(mark3 + self.values@.subrange(0, i + 1) =~= (mark3
                    + self.values@.subrange(0, i as int)).push(self.values@[i as int]));
            }
            i += 1;
        }
        proof {
            assert(self.values@.subrange(0, self.values@.len() as int) =~= self.values@);
            assert(buf@ =~= self.spec_row_bytes());
        }
        Ok(buf)
    }
}

/// Append the little-endian bytes of each value in order.
fn append_le32s(buf: &mut Vec<u8>, vals: &Vec<u32>)
    ensures
        final(buf)@ == old(buf)@ + le32_concat(vals@),
{
    proof {
        assert(vals@.subrange(0, vals@.len() as int) =~= vals@);
    }
    let n = vals.len();
    let mut i: usize = 0;
    while i < n
        invariant
            i <= n,
            n == vals@.len(),
            old(buf)@ + le32_concat(vals@) == buf@ + le32_concat(
                vals@.subrange(i as int, vals@.len() as int),
            ),
        decreases n - i,
    {
        let ghost tail0 = vals@.subrange(i as int, vals@.len() as int);
        let ghost bufold = buf@;
        let mut b = u32_to_le_bytes(vals[i]);
        buf.append(&mut b);
        proof {
            assert(tail0.subrange(1, tail0.len() as int) =~= vals@.subrange(
                i + 1,
                vals@.len() as int,
            ));
            assert(tail0[0] == vals@[i as int]);
            assert(le32_concat(tail0) == spec_u32_to_le_bytes(tail0[0]) + le32_concat(
                tail0.subrange(1, tail0.len() as int),
            ));
            assert(bufold + le32_concat(tail0) =~= buf@ + le32_concat(
                vals@.subrange(i + 1, vals@.len() as int),
            ));
        }
        i += 1;
    }
    proof {
        assert(le32_concat(vals@.subrange(vals@.len() as int, vals@.len() as int))
            =~= Seq::<u8>::empty());
        assert(old(buf)@ + le32_concat(vals@) =~= buf@);
    }
}

/// `n` 32-bit values read little-endian from `data` starting at `pos`.
pub open spec fn parse_u32s(data: Seq<u8>, pos: int, n: int) -> Seq<u32>
    decreases n,
{
    if n <= 0 {
        Seq::empty()
    } else {
        seq![spec_u32_from_le_bytes(data.subrange(pos, pos + 4))] + parse_u32s(data, pos + 4, n - 1)
    }
}

/// Reading one more value appends it at the end.
pub proof fn lemma_parse_u32s_snoc(data: Seq<u8>, pos: int, n: int)
    requires
        n >= 0,
    ensures
        parse_u32s(data, pos, n + 1) == parse_u32s(data, pos, n).push(
            spec_u32_from_le_bytes(data.subrange(pos + 4 * n, pos + 4 * n + 4)),
        ),
    decreases n,
{
    if n == 0 {
        assert(parse_u32s(data, pos + 4, 0) =~= Seq::<u32>::empty());
        assert(parse_u32s(data, pos, 1) =~= Seq::empty().push(
            spec_u32_from_le_bytes(data.subrange(pos, pos + 4)),
        ));
    } else {
        lemma_parse_u32s_snoc(data, pos + 4, n - 1);
        assert(parse_u32s(data, pos, n + 1) =~= parse_u32s(data, pos, n).push(
            spec_u32_from_le_bytes(data.subrange(pos + 4 * n, pos + 4 * n + 4)),
        ));
    }
}

/// The number of columns counted in a row blob's two groups, and where
/// its sections sit. These mirror the layout that `spec_row_bytes` emits.
pub open spec fn row_nnn(data: Seq<u8>) -> int {
    spec_u16_from_le_bytes(data.subrange(2, 4)) as int
}

pub open spec fn row_nnull(data: Seq<u8>) -> int {
    spec_u16_from_le_bytes(data.subrange(4, 6)) as int
}

pub open spec fn row_cursor(data: Seq<u8>) -> int {
    6 + 4 * (row_nnn(data) + row_nnull(data)) + 4 * row_nnn(data)
}

pub open spec fn row_ids(data: Seq<u8>) -> Seq<u32> {
    parse_u32s(data, 6, row_nnn(data) + row_nnull(data))
}

pub open spec fn row_offsets(data: Seq<u8>) -> Seq<u32> {
    parse_u32s(data, 6 + 4 * (row_nnn(data) + row_nnull(data)), row_nnn(data))
}

/// A row blob the decoder accepts: long enough for its declared counts,
/// offsets non-decreasing and inside the payload, both id groups strictly
/// sorted.
pub open spec fn spec_row_valid(data: Seq<u8>) -> bool {
    &&& data.len() >= 6
    &&& row_cursor(data) <= data.len()
    &&& ({
        let offs = row_offsets(data);
        let ids = row_ids(data);
        let nnn = row_nnn(data);
        &&& forall|i: int, j: int| 0 <= i <= j < offs.len() ==> offs[i] <= offs[j]
        &&& forall|i: int|
            0 <= i < offs.len() ==> row_cursor(data) + offs[i] <= data.len()
        &&& strictly_sorted(ids.subrange(0, nnn))
        &&& strictly_sorted(ids.subrange(nnn, ids.len() as int))
    })
}

/// A parsed row blob, ready for point lookups by column id.
#[derive(Debug)]
pub struct DecoderRow {
    pub cols: Vec<u32>,
    pub offsets: Vec<u32>,
    pub data: Vec<u8>,
    pub cursor: usize,
    pub num_not_null_cols: usize,
}

impl DecoderRow {
    /// The shape `from_bytes` establishes: counts and offsets consistent
    /// with the held bytes, each id group strictly sorted.
    pub open spec fn wf(&self) -> bool {
        &&& self.num_not_null_cols <= self.cols@.len()
        &&& self.offsets@.len() == self.num_not_null_cols
        &&& forall|i: int, j: int|
            0 <= i <= j < self.offsets@.len() ==> self.offsets@[i] <= self.offsets@[j]
        &&& forall|i: int|
            0 <= i < self.offsets@.len() ==> self.cursor + self.offsets@[i] <= self.data@.len()
        &&& strictly_sorted(self.cols@.subrange(0, self.num_not_null_cols as int))
        &&& strictly_sorted(
            self.cols@.subrange(self.num_not_null_cols as int, self.cols@.len() as int),
        )
    }

    /// What this row holds for a column id, reading payload bytes out of
    /// the stored blob.
    pub open spec fn spec_get_data(&self, i: u32) -> Option<Option<Seq<u8>>> {
        let nnn = self.num_not_null_cols as int;
        if exists|j: int| 0 <= j < nnn && self.cols@[j] == i {
            let j = choose|j: int| 0 <= j < nnn && self.cols@[j] == i;
            let start: int = if j == 0 {
                self.cursor as int
            } else {
                self.cursor + self.offsets@[j - 1]
            };
            Some(Some(self.data@.subrange(start, self.cursor + self.offsets@[j])))
        } else if exists|j: int| nnn <= j < self.cols@.len() && self.cols@[j] == i {
            Some(None)
        } else {
            None
        }
    }

    /// Parse a row blob. Fails with `Corruption` exactly when the bytes do
    /// not satisfy `spec_row_valid`.
    pub fn from_bytes(data: Vec<u8>) -> (r: MySQLResult<DecoderRow>)
        ensures
            match r {
                Ok(d) => {
                    &&& spec_row_valid(data@)
                    &&& d.wf()
                    &&& d.data@ == data@
                    &&& d.cols@ == row_ids(data@)
                    &&& d.offsets@ == row_offsets(data@)
                    &&& d.cursor == row_cursor(data@)
                    &&& d.num_not_null_cols == row_nnn(data@)
                },
                Err(e) => e == MySQLError::Corruption && !spec_row_valid(data@),
            },
    {
        let dlen = data.len();
        if dlen < 6 {
            return Err(MySQLError::Corruption);
        }
        let num_not_null_cols = u16_from_le_bytes(slice_subrange(data.as_slice(), 2, 4)) as usize;
        let num_null_cols = u16_from_le_bytes(slice_subrange(data.as_slice(), 4, 6)) as usize;
        let col_ids_len = num_not_null_cols + num_null_cols;
        let cursor = 6 + 4 * col_ids_len + 4 * num_not_null_cols;
        proof {
            assert(num_not_null_cols == row_nnn(data@));
            assert(num_null_cols == row_nnull(data@));
            assert(cursor == row_cursor(data@));
        }
        if cursor > dlen {
            return Err(MySQLError::Corruption);
        }
        let mut cols: Vec<u32> = Vec::new();
        let mut i: usize = 0;
        while i < col_ids_len
            invariant
                i <= col_ids_len,
                dlen == data@.len(),
                6 + 4 * col_ids_len <= dlen,
                cols@ == parse_u32s(data@, 6, i as int),
                cols@.len() == i,
            decreases col_ids_len - i,
        {
            let v = u32_from_le_bytes(slice_subrange(data.as_slice(), 6 + 4 * i, 6 + 4 * i + 4));
            cols.push(v);
            proof {
                lemma_parse_u32s_snoc(data@, 6, i as int);
            }
            i += 1;
        }
        let off_base = 6 + 4 * col_ids_len;
        let mut offsets: Vec<u32> = Vec::new();
        let mut j: usize = 0;
        while j < num_not_null_cols
            invariant
                j <= num_not_null_cols,
                dlen == data@.len(),
                off_base == 6 + 4 * col_ids_len,
                off_base + 4 * num_not_null_cols <= dlen,
                offsets@ == parse_u32s(data@, off_base as int, j as int),
                offsets@.len() == j,
            decreases num_not_null_cols - j,
        {
            let v = u32_from_le_bytes(
                slice_subrange(data.as_slice(), off_base + 4 * j, off_base + 4 * j + 4),
            );
            offsets.push(v);
            proof {
                lemma_parse_u32s_snoc(data@, off_base as int, j as int);
            }
            j += 1;
        }
        proof {
            assert(cols@ == row_ids(data@));
            assert(offsets@ == row_offsets(data@));
        }
        // Validate offsets: non-decreasing and inside the payload.
        let noffs = offsets.len();
        let mut k: usize = 0;
        while k < noffs
            invariant
                k <= noffs,
                noffs == offsets@.len(),
                dlen == data@.len(),
                cursor <= dlen,
                cursor == row_cursor(data@),
                offsets@ == row_offsets(data@),
                forall|a: int, b: int| 0 <= a <= b < k ==> offsets@[a] <= offsets@[b],
                forall|a: int| 0 <= a < k ==> cursor + offsets@[a] <= dlen,
            decreases noffs - k,
        {
            if offsets[k] as usize > dlen - cursor {
                proof {
                    assert(cursor + row_offsets(data@)[k as int] > dlen);
                }
                return Err(MySQLError::Corruption);
            }
            if k > 0 && offsets[k - 1] > offsets[k] {
                proof {
                    assert(row_offsets(data@)[k - 1] > row_offsets(data@)[k as int]);
                }
                return Err(MySQLError::Corruption);
            }
            proof {
                assert forall|a: int, b: int| 0 <= a <= b < k + 1 implies offsets@[a]
                    <= offsets@[b] by {
                    if b == k && a < k {
                        assert(offsets@[a] <= offsets@[k - 1]);
                    }
                }
            }
            k += 1;
        }
        // Validate sortedness of the two id groups.
        let mut s: usize = 1;
        while s < num_not_null_cols
            invariant
                1 <= s,
                num_not_null_cols <= cols@.len(),
                num_not_null_cols == row_nnn(data@),
                cols@ == row_ids(data@),
                forall|a: int, b: int|
                    0 <= a < b < s && b < num_not_null_cols ==> cols@[a] < cols@[b],
            decreases num_not_null_cols - s,
        {
            if cols[s - 1] >= cols[s] {
                proof {
                    let sub = row_ids(data@).subrange(0, row_nnn(data@));
                    assert(sub[s - 1] == cols@[s - 1]);
                    assert(sub[s as int] == cols@[s as int]);
                    assert(!strictly_sorted(sub));
                }
                return Err(MySQLError::Corruption);
            }
            proof {
                assert forall|a: int, b: int|
                    0 <= a < b < s + 1 && b < num_not_null_cols implies cols@[a] < cols@[b] by {
                    if b == s && a < s - 1 {
                        assert(cols@[a] < cols@[s - 1]);
                    }
                }
            }
            s += 1;
        }
        let mut t: usize = num_not_null_cols + 1;
        while t < col_ids_len
            invariant
                num_not_null_cols + 1 <= t,
                col_ids_len == cols@.len(),
                num_not_null_cols <= col_ids_len,
                num_not_null_cols == row_nnn(data@),
                col_ids_len == row_nnn(data@) + row_nnull(data@),
                cols@ == row_ids(data@),
                forall|a: int, b: int|
                    num_not_null_cols <= a < b < t && b < col_ids_len ==> cols@[a] < cols@[b],
            decreases col_ids_len - t,
        {
            if cols[t - 1] >= cols[t] {
                proof {
                    let nnn = row_nnn(data@);
                    let sub = row_ids(data@).subrange(nnn, row_ids(data@).len() as int);
                    assert(sub[t - 1 - nnn] == cols@[t - 1]);
                    assert(sub[t - nnn] == cols@[t as int]);
                    assert(!strictly_sorted(sub));
                }
                return Err(MySQLError::Corruption);
            }
            proof {
                assert forall|a: int, b: int|
                    num_not_null_cols <= a < b < t + 1 && b < col_ids_len implies cols@[a]
                    < cols@[b] by {
                    if b == t && a < t - 1 {
                        assert(cols@[a] < cols@[t - 1]);
                    }
                }
            }
            t += 1;
        }
        let d = DecoderRow { cols, offsets, data, cursor, num_not_null_cols };
        proof {
            let cs = d.cols@.subrange(0, d.num_not_null_cols as int);
            let ns = d.cols@.subrange(d.num_not_null_cols as int, d.cols@.len() as int);
            assert(forall|a: int| 0 <= a < cs.len() ==> cs[a] == d.cols@[a]);
            assert(forall|a: int|
                0 <= a < ns.len() ==> ns[a] == d.cols@[a + d.num_not_null_cols]);
            assert(strictly_sorted(cs));
            assert(strictly_sorted(ns));
            assert(spec_row_valid(d.data@));
        }
        Ok(d)
    }

    /// Look a column id up: `None` when the row does not hold the column,
    /// `Some(None)` when it holds it as null, `Some(Some(bytes))` with the
    /// compact payload otherwise. Binary search over each sorted id group.
    pub fn get_data(&self, i: u32) -> (r: Option<Option<&[u8]>>)
        requires
            self.wf(),
        ensures
            match r {
                Some(Some(s)) => self.spec_get_data(i) == Some(Some(s@)),
                Some(None) => self.spec_get_data(i) == Some(None::<Seq<u8>>),
                None => self.spec_get_data(i) is None,
            },
    {
        let dl = self.data.len();
        proof {
            let nnn = self.num_not_null_cols as int;
            let cs = self.cols@.subrange(0, nnn);
            let ns = self.cols@.subrange(nnn, self.cols@.len() as int);
            assert(forall|a: int| 0 <= a < cs.len() ==> cs[a] == self.cols@[a]);
            assert(forall|a: int| 0 <= a < ns.len() ==> ns[a] == self.cols@[a + nnn]);
            assert forall|a: int, b: int| 0 <= a < b < nnn implies self.cols@[a]
                < self.cols@[b] by {
                assert(cs[a] < cs[b]);
            }
            assert forall|a: int, b: int|
                nnn <= a < b < self.cols@.len() implies self.cols@[a] < self.cols@[b] by {
                assert(ns[a - nnn] < ns[b - nnn]);
            }
        }
        match bsearch(&self.cols, 0, self.num_not_null_cols, i) {
            Some(idx) => {
                proof {
                    assert(self.cursor + self.offsets@[idx as int] <= dl);
                }
                let end = self.cursor + self.offsets[idx] as usize;
                let start = if idx > 0 {
                    proof {
                        assert(self.offsets@[idx - 1] <= self.offsets@[idx as int]);
                    }
                    self.cursor + self.offsets[idx - 1] as usize
                } else {
                    self.cursor
                };
                proof {
                    let nnn = self.num_not_null_cols as int;
                    let j = choose|j: int| 0 <= j < nnn && self.cols@[j] == i;
                    assert(j == idx) by {
                        if j < idx {
                            assert(self.cols@[j] < self.cols@[idx as int]);
                        }
                        if j > idx {
                            assert(self.cols@[idx as int] < self.cols@[j]);
                        }
                    }
                }
                Some(Some(slice_subrange(self.data.as_slice(), start, end)))
            },
            None => {
                match bsearch(&self.cols, self.num_not_null_cols, self.cols.len(), i) {
                    Some(_) => Some(None),
                    None => None,
                }
            },
        }
    }
}

/// Append the key form of a value: comparable encoding at the column's
/// declared type. Every record and index key byte goes through here.
pub fn encode_value(buf: &mut Vec<u8>, val: &EncodeValue, col: &DataType) -> (r: MySQLResult<()>)
    ensures
        match r {
            Ok(_) => crate::types::comparable_ok(val@, *col) && final(buf)@ == old(buf)@
                + crate::types::spec_encode_comparable(val@, *col),
            Err(e) => !crate::types::comparable_ok(val@, *col) && e == MySQLError::InvalidType
                && final(buf)@ == old(buf)@,
        },
{
    val.encode_comparable(buf, col)
}

/// The handle of a record key: everything after the one-byte marker, the
/// eight-byte table id, and the one-byte record tag.
pub fn get_handle_from_record_key(key: &[u8]) -> (r: &[u8])
    requires
        key@.len() >= 10,
    ensures
        r@ == key@.subrange(10, key@.len() as int),
{
    slice_subrange(key, 10, key.len())
}

/// Each value occupies four bytes.
pub proof fn lemma_le32_concat_len(s: Seq<u32>)
    ensures
        le32_concat(s).len() == 4 * s.len(),
    decreases s.len(),
{
    vstd::bytes::lemma_auto_spec_u32_to_from_le_bytes();
    if s.len() > 0 {
        lemma_le32_concat_len(s.subrange(1, s.len() as int));
    }
}

/// Concatenation distributes over the section encoding.
pub proof fn lemma_le32_concat_app(a: Seq<u32>, b: Seq<u32>)
    ensures
        le32_concat(a + b) == le32_concat(a) + le32_concat(b),
    decreases a.len(),
{
    if a.len() == 0 {
        assert(a + b =~= b);
        assert(le32_concat(a) + le32_concat(b) =~= le32_concat(b));
    } else {
        let ta = a.subrange(1, a.len() as int);
        lemma_le32_concat_app(ta, b);
        assert((a + b).subrange(1, (a + b).len() as int) =~= ta + b);
        assert((a + b)[0] == a[0]);
        assert(le32_concat(a) + le32_concat(b) =~= spec_u32_to_le_bytes(a[0]) + (le32_concat(ta)
            + le32_concat(b)));
    }
}

/// Reading a section back yields the values that were written.
pub proof fn lemma_parse_le32(prefix: Seq<u8>, s: Seq<u32>, rest: Seq<u8>)
    ensures
        parse_u32s(prefix + le32_concat(s) + rest, prefix.len() as int, s.len() as int) == s,
    decreases s.len(),
{
    vstd::bytes::lemma_auto_spec_u32_to_from_le_bytes();
    let input = prefix + le32_concat(s) + rest;
    if s.len() == 0 {
        assert(parse_u32s(input, prefix.len() as int, 0) =~= s);
    } else {
        let ts = s.subrange(1, s.len() as int);
        let prefix2 = prefix + spec_u32_to_le_bytes(s[0]);
        lemma_parse_le32(prefix2, ts, rest);
        assert(prefix2 + le32_concat(ts) + rest =~= input);
        assert(input.subrange(prefix.len() as int, prefix.len() as int + 4) =~= spec_u32_to_le_bytes(
            s[0],
        ));
        assert(parse_u32s(input, prefix.len() as int, s.len() as int) =~= s);
    }
}

/// The serialized form of a well-formed encoder row is a valid row blob,
/// and its sections read back as the encoder's own lists.
pub proof fn lemma_row_bytes_parse(e: &EncoderRow)
    requires
        e.wf(),
        e.cols@.len() <= u16::MAX,
        e.null_cols@.len() <= u16::MAX,
    ensures
        ({
            let bytes = e.spec_row_bytes();
            &&& spec_row_valid(bytes)
            &&& row_nnn(bytes) == e.cols@.len()
            &&& row_nnull(bytes) == e.null_cols@.len()
            &&& row_ids(bytes) == e.cols@ + e.null_cols@
            &&& row_offsets(bytes) == e.offset@
            &&& row_cursor(bytes) + e.values@.len() == bytes.len()
            &&& forall|k: int|
                0 <= k < e.values@.len() ==> bytes[row_cursor(bytes) + k] == e.values@[k]
        }),
{
    vstd::bytes::lemma_auto_spec_u16_to_from_le_bytes();
    vstd::bytes::lemma_auto_spec_u32_to_from_le_bytes();
    let bytes = e.spec_row_bytes();
    let n1 = e.cols@.len() as int;
    let n2 = e.null_cols@.len() as int;
    let head = seq![128u8, 0u8] + spec_u16_to_le_bytes(n1 as u16) + spec_u16_to_le_bytes(
        n2 as u16,
    );
    lemma_le32_concat_len(e.cols@);
    lemma_le32_concat_len(e.null_cols@);
    lemma_le32_concat_len(e.offset@);
    lemma_le32_concat_app(e.cols@, e.null_cols@);
    assert(bytes.subrange(2, 4) =~= spec_u16_to_le_bytes(n1 as u16));
    assert(bytes.subrange(4, 6) =~= spec_u16_to_le_bytes(n2 as u16));
    assert(row_nnn(bytes) == n1);
    assert(row_nnull(bytes) == n2);
    let ids = e.cols@ + e.null_cols@;
    lemma_le32_concat_len(ids);
    assert(bytes =~= head + le32_concat(ids) + (le32_concat(e.offset@) + e.values@));
    lemma_parse_le32(head, ids, le32_concat(e.offset@) + e.values@);
    assert(row_ids(bytes) == ids);
    let head2 = head + le32_concat(ids);
    assert(bytes =~= head2 + le32_concat(e.offset@) + e.values@);
    lemma_parse_le32(head2, e.offset@, e.values@);
    assert(head2.len() == 6 + 4 * (n1 + n2));
    assert(row_offsets(bytes) == e.offset@);
    assert(row_cursor(bytes) == 6 + 4 * (n1 + n2) + 4 * n1);
    assert(bytes.len() == row_cursor(bytes) + e.values@.len());
    assert(ids.subrange(0, n1) =~= e.cols@);
    assert(ids.subrange(n1, ids.len() as int) =~= e.null_cols@);
    assert(forall|i: int|
        0 <= i < e.offset@.len() ==> #[trigger] e.offset@[i] <= e.offset@[e.offset@.len() - 1]);
    assert(spec_row_valid(bytes));
    assert(forall|k: int|
        0 <= k < e.values@.len() ==> bytes[row_cursor(bytes) + k] == e.values@[k]) by {
        assert(bytes =~= (head2 + le32_concat(e.offset@)) + e.values@);
        assert((head2 + le32_concat(e.offset@)).len() == row_cursor(bytes));
    }
}

/// What a row blob holds for a column id, phrased over the blob alone:
/// the payload for a non-null column, a null marker for a null column,
/// absence otherwise.
pub open spec fn spec_row_lookup(data: Seq<u8>, i: u32) -> Option<Option<Seq<u8>>> {
    let nnn = row_nnn(data);
    let ids = row_ids(data);
    let offs = row_offsets(data);
    let cur = row_cursor(data);
    if exists|j: int| 0 <= j < nnn && ids[j] == i {
        let j = choose|j: int| 0 <= j < nnn && ids[j] == i;
        let start: int = if j == 0 {
            cur
        } else {
            cur + offs[j - 1]
        };
        Some(Some(data.subrange(start, cur + offs[j])))
    } else if exists|j: int| nnn <= j < ids.len() && ids[j] == i {
        Some(None)
    } else {
        None
    }
}

/// A parsed decoder answers lookups exactly as the blob-level lookup does.
pub proof fn lemma_row_lookup_matches(d: &DecoderRow, id: u32)
    requires
        d.wf(),
        d.cols@ == row_ids(d.data@),
        d.offsets@ == row_offsets(d.data@),
        d.cursor == row_cursor(d.data@),
        d.num_not_null_cols == row_nnn(d.data@),
    ensures
        d.spec_get_data(id) == spec_row_lookup(d.data@, id),
{
    let nnn = d.num_not_null_cols as int;
    if exists|j: int| 0 <= j < nnn && d.cols@[j] == id {
        let j1 = choose|j: int| 0 <= j < nnn && d.cols@[j] == id;
        let j2 = choose|j: int| 0 <= j < row_nnn(d.data@) && row_ids(d.data@)[j] == id;
        assert(row_ids(d.data@)[j1] == id);
        assert(j1 == j2) by {
            let cs = d.cols@.subrange(0, nnn);
            if j1 < j2 {
                assert(cs[j1] < cs[j2]);
            }
            if j2 < j1 {
                assert(cs[j2] < cs[j1]);
            }
        }
    }
}

/// The row codec round trip, phrased over the blob: the serialized form
/// of a well-formed encoder row answers every column id exactly as the
/// encoder recorded it.
pub proof fn lemma_row_bytes_lookup(e: &EncoderRow, id: u32)
    requires
        e.wf(),
        e.cols@.len() <= u16::MAX,
        e.null_cols@.len() <= u16::MAX,
    ensures
        spec_row_lookup(e.spec_row_bytes(), id) == e.row_has(id),
{
    lemma_row_bytes_parse(e);
    let bytes = e.spec_row_bytes();
    let n1 = e.cols@.len() as int;
    let nnn = row_nnn(bytes);
    let ids = row_ids(bytes);
    let offs = row_offsets(bytes);
    let cur = row_cursor(bytes);
    assert(nnn == n1);
    assert(forall|j: int| 0 <= j < n1 ==> ids[j] == e.cols@[j]);
    assert(forall|j: int| n1 <= j < ids.len() ==> ids[j] == e.null_cols@[j - n1]);
    if exists|j: int| 0 <= j < n1 && e.cols@[j] == id {
        let j1 = choose|j: int| 0 <= j < e.cols@.len() && e.cols@[j] == id;
        let j2 = choose|j: int| 0 <= j < nnn && ids[j] == id;
        assert(ids[j1] == id);
        assert(j1 == j2) by {
            if j1 < j2 {
                assert(e.cols@[j1] < e.cols@[j2]);
            }
            if j2 < j1 {
                assert(e.cols@[j2] < e.cols@[j1]);
            }
        }
        let start: int = if j1 == 0 {
            0
        } else {
            e.offset@[j1 - 1] as int
        };
        let end = e.offset@[j1] as int;
        assert(end <= e.values@.len()) by {
            assert(e.offset@[j1] <= e.offset@[e.offset@.len() - 1]);
        }
        assert(start <= end);
        assert(bytes.subrange(cur + start, cur + end) =~= e.values@.subrange(start, end)) by {
            assert(forall|k: int|
                0 <= k < e.values@.len() ==> bytes[row_cursor(bytes) + k] == e.values@[k]);
        }
        assert(spec_row_lookup(bytes, id) == Some(Some(e.payload_at(j1))));
        assert(e.row_has(id) == Some(Some(e.payload_at(j1))));
    } else if exists|j: int| 0 <= j < e.null_cols@.len() && e.null_cols@[j] == id {
        let j = choose|j: int| 0 <= j < e.null_cols@.len() && e.null_cols@[j] == id;
        assert(ids[n1 + j] == id);
        assert(!(exists|j2: int| 0 <= j2 < nnn && ids[j2] == id));
        assert(spec_row_lookup(bytes, id) == Some(None::<Seq<u8>>));
    } else {
        assert(forall|j: int| 0 <= j < ids.len() ==> ids[j] != id);
        assert(spec_row_lookup(bytes, id) is None);
        assert(e.row_has(id) is None);
    }
}

/// The row codec round trip: parsing the bytes of a well-formed encoder
/// row gives a decoder that answers every column id exactly as the encoder
/// recorded it — the payload for a non-null column, a null marker for a
/// null column, absence otherwise.
pub proof fn lemma_row_round_trip(e: &EncoderRow, d: &DecoderRow, id: u32)
    requires
        e.wf(),
        e.cols@.len() <= u16::MAX,
        e.null_cols@.len() <= u16::MAX,
        d.data@ == e.spec_row_bytes(),
        d.cols@ == row_ids(d.data@),
        d.offsets@ == row_offsets(d.data@),
        d.cursor == row_cursor(d.data@),
        d.num_not_null_cols == row_nnn(d.data@),
    ensures
        d.spec_get_data(id) == e.row_has(id),
{
    lemma_row_bytes_parse(e);
    let bytes = e.spec_row_bytes();
    let n1 = e.cols@.len() as int;
    let nnn = d.num_not_null_cols as int;
    assert(nnn == n1);
    assert(forall|j: int| 0 <= j < n1 ==> d.cols@[j] == e.cols@[j]);
    assert(forall|j: int|
        n1 <= j < d.cols@.len() ==> d.cols@[j] == e.null_cols@[j - n1]);
    if exists|j: int| 0 <= j < n1 && e.cols@[j] == id {
        let j1 = choose|j: int| 0 <= j < e.cols@.len() && e.cols@[j] == id;
        let j2 = choose|j: int| 0 <= j < nnn && d.cols@[j] == id;
        assert(d.cols@[j1] == id);
        assert(j1 == j2) by {
            if j1 < j2 {
                assert(e.cols@[j1] < e.cols@[j2]);
            }
            if j2 < j1 {
                assert(e.cols@[j2] < e.cols@[j1]);
            }
        }
        let start: int = if j1 == 0 {
            0
        } else {
            e.offset@[j1 - 1] as int
        };
        let end = e.offset@[j1] as int;
        assert(end <= e.values@.len()) by {
            assert(e.offset@[j1] <= e.offset@[e.offset@.len() - 1]);
        }
        assert(start <= end);
        assert(d.data@.subrange(d.cursor + start, d.cursor + end) =~= e.values@.subrange(
            start,
            end,
        )) by {
            assert(forall|k: int|
                0 <= k < e.values@.len() ==> bytes[row_cursor(bytes) + k] == e.values@[k]);
        }
        assert(d.spec_get_data(id) == Some(Some(e.payload_at(j1))));
        assert(e.row_has(id) == Some(Some(e.payload_at(j1))));
    } else if exists|j: int| 0 <= j < e.null_cols@.len() && e.null_cols@[j] == id {
        let j = choose|j: int| 0 <= j < e.null_cols@.len() && e.null_cols@[j] == id;
        assert(d.cols@[n1 + j] == id);
        assert(!(exists|j: int| 0 <= j < nnn && d.cols@[j] == id));
        assert(d.spec_get_data(id) == Some(None::<Seq<u8>>));
    } else {
        assert(forall|j: int| 0 <= j < d.cols@.len() ==> d.cols@[j] != id);
        assert(d.spec_get_data(id) is None);
        assert(e.row_has(id) is None);
    }
}

/// Binary search for `key` inside the sorted range `[lo, hi)` of `v`.
fn bsearch(v: &Vec<u32>, lo: usize, hi: usize, key: u32) -> (r: Option<usize>)
    requires
        lo <= hi <= v@.len(),
        forall|a: int, b: int| lo <= a < b < hi ==> v@[a] < v@[b],
    ensures
        match r {
            Some(idx) => lo <= idx < hi && v@[idx as int] == key,
            None => forall|j: int| lo <= j < hi ==> v@[j] != key,
        },
{
    let mut low = lo;
    let mut high = hi;
    while low < high
        invariant
            lo <= low <= high <= hi <= v@.len(),
            forall|a: int, b: int| lo <= a < b < hi ==> v@[a] < v@[b],
            forall|j: int| lo <= j < low ==> v@[j] != key,
            forall|j: int| high <= j < hi ==> v@[j] != key,
        decreases high - low,
    {
        let mid = low + (high - low) / 2;
        let x = v[mid];
        if x == key {
            return Some(mid);
        } else if x < key {
            proof {
                assert(forall|j: int| lo <= j <= mid ==> v@[j] <= v@[mid as int]);
            }
            low = mid + 1;
        } else {
            proof {
                assert(forall|j: int| mid <= j < hi ==> v@[mid as int] <= v@[j]);
            }
            high = mid;
        }
    }
    None
}

} // verus!
