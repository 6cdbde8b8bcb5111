use vstd::prelude::*;
use vstd::bytes::{spec_u64_to_le_bytes, u64_to_le_bytes};
use crate::decoder::{spec_row_lookup, spec_row_valid, DecoderRow, EncoderRow};
use crate::decoder::{lemma_row_lookup_matches, row_cursor, row_ids, row_nnn, row_offsets};
use crate::errors::{MySQLError, MySQLResult};
use crate::mem::MemStorage;
use crate::schema::{AutoIncrementIdGenerator, ColumnInfo, ColumnMeta, DataSchema, IndexInfo,
    IndexMeta, TableInfo, TableMeta, ValueGenerator};
use crate::transaction::TransactionContext;
use crate::types::{comparable_ok, spec_decode_comparable, spec_encode_comparable, spec_read_from,
    DataType, EncodeValue, ValueView};

verus! {

/// The key prefix of every record of a table: the table marker byte, the
/// table id little-endian, and the record tag.
pub open spec fn spec_record_prefix(table_id: u64) -> Seq<u8> {
    seq![116u8] + spec_u64_to_le_bytes(table_id) + seq![114u8]
}

/// The key prefix of every index entry of a table: the table marker byte,
/// the table id little-endian, and the index tag. Records and index
/// entries differ at the tag byte, so the two subspaces never collide.
pub open spec fn spec_index_prefix(table_id: u64) -> Seq<u8> {
    seq![116u8] + spec_u64_to_le_bytes(table_id) + seq![105u8]
}

/// The shape the engine relies on: sequential column ids equal to offset
/// plus one (so ids fit the row format and arrive sorted), and every
/// index column offset in range.
pub open spec fn table_wf(t: TableMeta) -> bool {
    &&& t.columns.len() <= u32::MAX
    &&& forall|i: int|
        0 <= i < t.columns.len() ==> (#[trigger] t.columns[i].id) == i + 1 && t.columns[i].offset
            == i
    &&& forall|k: int, j: int|
        0 <= k < t.indices.len() && 0 <= j < t.indices[k].columns.len() ==> 0 <= (
        #[trigger] t.indices[k].columns[j]).1 < t.columns.len()
}

/// A read-optimized view of one table: the metadata plus the revision
/// under which the catalog published it. A session's cached copy is valid
/// exactly while the catalog still holds the same revision.
#[derive(Debug)]
pub struct TableSource {
    pub id: u64,
    pub meta: TableInfo,
    pub revision: u64,
}

impl Clone for TableSource {
    fn clone(&self) -> (r: Self)
        ensures
            r.id == self.id,
            r.meta@ == self.meta@,
            r.revision == self.revision,
    {
        TableSource { id: self.id, meta: self.meta.clone(), revision: self.revision }
    }
}

impl TableSource {
    pub open spec fn wf(&self) -> bool {
        &&& table_wf(self.meta@)
        &&& self.id == self.meta@.id
    }

    pub fn new(table: TableInfo, revision: u64) -> (r: TableSource)
        requires
            table_wf(table@),
        ensures
            r.wf(),
            r.id == table@.id,
            r.meta@ == table@,
            r.revision == revision,
    {
        let id = table.id;
        TableSource { id, meta: table, revision }
    }

    /// The column with this exact (lowercase) name, cloned.
    pub fn get_column(&self, name: &String) -> (r: Option<ColumnInfo>)
        ensures
            match r {
                Some(c) => exists|i: int|
                    0 <= i < self.meta@.columns.len() && c@ == self.meta@.columns[i] && c@.name
                        == name@,
                None => forall|i: int|
                    0 <= i < self.meta@.columns.len() ==> self.meta@.columns[i].name != name@,
            },
    {
        let n = self.meta.columns.len();
        let mut i: usize = 0;
        while i < n
            invariant
                i <= n,
                n == self.meta.columns@.len(),
                forall|j: int| 0 <= j < i ==> self.meta@.columns[j].name != name@,
            decreases n - i,
        {
            if crate::schema::string_eq(&self.meta.columns[i].name, name) {
                let c = self.meta.columns[i].clone();
                proof {
                    assert(c@ == self.meta@.columns[i as int]);
                }
                return Some(c);
            }
            proof {
                assert(self.meta@.columns[i as int] == self.meta.columns@[i as int]@);
            }
            i += 1;
        }
        None
    }

    /// The unique or primary single-column index covering this column
    /// name, cloned; the latest such index wins, as a rebuilt map would
    /// have it.
    pub fn get_index(&self, name: &String) -> (r: Option<IndexInfo>)
        ensures
            ({
                let li = latest_single_unique(
                    self.meta@.indices,
                    name@,
                    self.meta@.indices.len() - 1,
                );
                match r {
                    Some(idx) => li != -1 && idx@ == self.meta@.indices[li] && single_unique_on(
                        idx@,
                        name@,
                    ),
                    None => li == -1,
                }
            }),
    {
        let n = self.meta.indices.len();
        let mut i: usize = n;
        while i > 0
            invariant
                i <= n,
                n == self.meta.indices@.len(),
                forall|j: int|
                    i <= j < n ==> !single_unique_on(self.meta@.indices[j], name@),
            decreases i,
        {
            let idx = &self.meta.indices[i - 1];
            if (idx.unique || idx.primary) && idx.columns.len() == 1 && crate::schema::string_eq(
                &idx.columns[0].0,
                name,
            ) {
                let r = idx.clone();
                proof {
                    assert(r@ == self.meta@.indices[i - 1]);
                    assert(single_unique_on(self.meta@.indices[i - 1], name@));
                    lemma_latest_su_at(self.meta@.indices, name@, n - 1, i - 1);
                }
                return Some(r);
            }
            proof {
                assert(self.meta@.indices[i - 1] == self.meta.indices@[i - 1]@);
                assert(!single_unique_on(self.meta@.indices[i - 1], name@));
            }
            i -= 1;
        }
        proof {
            if n > 0 {
                lemma_latest_su_none(self.meta@.indices, name@, n - 1);
            }
        }
        None
    }

    /// The fixed preallocation hint for key buffers; a performance knob
    /// only.
    pub fn get_handle_size(&self) -> (r: usize)
        ensures
            r == 64,
    {
        64
    }

    /// The record key that a handle value names: the record prefix
    /// followed by the handle encoded comparably at the key column's
    /// declared type.
    pub fn get_record_by_handle(&self, info: &IndexInfo, handle: &EncodeValue) -> (r: MySQLResult<
        Vec<u8>,
    >)
        requires
            self.wf(),
            info@.columns.len() > 0,
            0 <= info@.columns[0].1 < self.meta@.columns.len(),
        ensures
            ({
                let t = self.meta@.columns[info@.columns[0].1].data_type;
                match r {
                    Ok(key) => comparable_ok(handle@, t) && key@ == spec_record_prefix(self.id)
                        + spec_encode_comparable(handle@, t),
                    Err(e) => !comparable_ok(handle@, t) && e == MySQLError::InvalidType,
                }
            }),
    {
        let mut key: Vec<u8> = Vec::with_capacity(self.get_handle_size());
        key.push(116);
        let mut idb = u64_to_le_bytes(self.id);
        key.append(&mut idb);
        key.push(114);
        let off = self.meta.indices_offset_of(info, 0);
        let col = &self.meta.columns[off];
        let ghost key0 = key@;
        crate::decoder::encode_value(&mut key, handle, &col.data_type)?;
        proof {
            assert(key0 =~= spec_record_prefix(self.id));
        }
        Ok(key)
    }
}

/// Whether an index is a unique or primary single-column index on this
/// column name: the indexes a point get may use.
pub open spec fn single_unique_on(idx: IndexMeta, name: Seq<char>) -> bool {
    (idx.unique || idx.primary) && idx.columns.len() == 1 && idx.columns[0].0 == name
}

/// The highest-numbered unique or primary single-column index on this
/// name at or below position `i`, or -1: the entry a name-keyed map
/// rebuilt in index order would hold.
pub open spec fn latest_single_unique(indices: Seq<IndexMeta>, name: Seq<char>, i: int) -> int
    decreases i + 1,
{
    if i < 0 || i >= indices.len() {
        -1
    } else if single_unique_on(indices[i], name) {
        i
    } else {
        latest_single_unique(indices, name, i - 1)
    }
}

/// A found entry is in range and covers the name.
pub proof fn lemma_latest_su_props(indices: Seq<IndexMeta>, name: Seq<char>, i: int)
    ensures
        latest_single_unique(indices, name, i) != -1 ==> 0 <= latest_single_unique(indices, name, i)
            <= i && latest_single_unique(indices, name, i) < indices.len() && single_unique_on(
            indices[latest_single_unique(indices, name, i)],
            name,
        ),
    decreases i + 1,
{
    if 0 <= i < indices.len() && !single_unique_on(indices[i], name) {
        lemma_latest_su_props(indices, name, i - 1);
    }
}

proof fn lemma_latest_su_at(indices: Seq<IndexMeta>, name: Seq<char>, hi: int, i: int)
    requires
        0 <= i <= hi < indices.len(),
        single_unique_on(indices[i], name),
        forall|j: int| i < j <= hi ==> !single_unique_on(indices[j], name),
    ensures
        latest_single_unique(indices, name, hi) == i,
    decreases hi - i,
{
    if i < hi {
        lemma_latest_su_at(indices, name, hi - 1, i);
    }
}

proof fn lemma_latest_su_none(indices: Seq<IndexMeta>, name: Seq<char>, hi: int)
    requires
        hi < indices.len(),
        forall|j: int| 0 <= j <= hi ==> !single_unique_on(indices[j], name),
    ensures
        latest_single_unique(indices, name, hi) == -1,
    decreases hi + 1,
{
    if hi >= 0 {
        lemma_latest_su_none(indices, name, hi - 1);
    }
}

/// The first primary index of a table, or -1.
pub open spec fn primary_index_at(indices: Seq<IndexMeta>, i: int) -> int
    decreases indices.len() - i,
{
    if i < 0 || i >= indices.len() {
        -1
    } else if indices[i].primary {
        i
    } else {
        primary_index_at(indices, i + 1)
    }
}

/// The index into the supplied values that a column offset receives: the
/// last named value column with that offset, or -1.
pub open spec fn spec_assign(vcols: Seq<ColumnMeta>, off: int) -> int
    decreases vcols.len(),
{
    if vcols.len() == 0 {
        -1
    } else if vcols.last().offset == off {
        vcols.len() - 1
    } else {
        spec_assign(vcols.drop_last(), off)
    }
}

/// The shared row counter after one advance.
pub open spec fn next_counter(c: u64) -> u64 {
    if c == u64::MAX {
        0u64
    } else {
        (c + 1) as u64
    }
}

/// The value one column takes and the counter afterwards: a supplied
/// value if the caller named the column, else the column's generator;
/// `None` when the column is missing and has no generator.
pub open spec fn resolved_value(
    col: ColumnMeta,
    vcols: Seq<ColumnMeta>,
    values: Seq<ValueView>,
    counter: u64,
) -> Option<(ValueView, u64)> {
    let a = spec_assign(vcols, col.offset);
    if 0 <= a < values.len() {
        Some((values[a], counter))
    } else {
        match col.generator {
            Some(crate::schema::GenView::Constant(v)) => Some((v, counter)),
            Some(crate::schema::GenView::AutoIncrement) => Some(
                (ValueView::Int(next_counter(counter) as i64), next_counter(counter)),
            ),
            None => None,
        }
    }
}

/// The values of the first `j` columns and the counter afterwards;
/// resolution stops at the first missing column.
pub open spec fn spec_row_vals(
    cols: Seq<ColumnMeta>,
    vcols: Seq<ColumnMeta>,
    values: Seq<ValueView>,
    counter: u64,
    j: int,
) -> (Option<Seq<ValueView>>, u64)
    decreases j,
{
    if j <= 0 {
        (Some(Seq::empty()), counter)
    } else {
        let pv = spec_row_vals(cols, vcols, values, counter, j - 1);
        match pv.0 {
            Some(s) => match resolved_value(cols[j - 1], vcols, values, pv.1) {
                Some(rv) => (Some(s.push(rv.0)), rv.1),
                None => (None, pv.1),
            },
            None => pv,
        }
    }
}

/// The concatenated comparable encodings of the first `j` columns of an
/// index, over the resolved row values; `None` when a value does not
/// encode at its column's type.
pub open spec fn enc_key_cols(
    cols: Seq<ColumnMeta>,
    idxcols: Seq<(Seq<char>, int)>,
    vals: Seq<ValueView>,
    j: int,
) -> Option<Seq<u8>>
    decreases j,
{
    if j <= 0 {
        Some(Seq::empty())
    } else {
        match enc_key_cols(cols, idxcols, vals, j - 1) {
            Some(p) => {
                let off = idxcols[j - 1].1;
                let t = cols[off].data_type;
                if comparable_ok(vals[off], t) {
                    Some(p + spec_encode_comparable(vals[off], t))
                } else {
                    None
                }
            },
            None => None,
        }
    }
}

/// The last named value column with this offset.
fn last_assign(vcols: &Vec<ColumnInfo>, off: usize) -> (r: Option<usize>)
    ensures
        ({
            let a = spec_assign(Seq::new(vcols@.len(), |i: int| vcols@[i]@), off as int);
            match r {
                Some(i) => a == i,
                None => a == -1,
            }
        }),
{
    let ghost vv = Seq::new(vcols@.len(), |i: int| vcols@[i]@);
    let n = vcols.len();
    proof {
        assert(vv.subrange(0, n as int) =~= vv);
    }
    let mut i: usize = n;
    while i > 0
        invariant
            i <= n,
            n == vcols@.len(),
            vv == Seq::new(vcols@.len(), |x: int| vcols@[x]@),
            spec_assign(vv, off as int) == spec_assign(vv.subrange(0, i as int), off as int),
        decreases i,
    {
        let ghost pre = vv.subrange(0, i as int);
        proof {
            assert(pre.drop_last() =~= vv.subrange(0, i - 1));
            assert(pre.last() == vv[i - 1]);
        }
        if vcols[i - 1].offset == off {
            proof {
                assert(spec_assign(pre, off as int) == i - 1);
            }
            return Some(i - 1);
        }
        i -= 1;
    }
    proof {
        assert(vv.subrange(0, 0) =~= Seq::<ColumnMeta>::empty());
    }
    None
}

impl TableInfo {
    /// The declaration offset the `j`-th column of an index names.
    pub fn indices_offset_of(&self, info: &IndexInfo, j: usize) -> (r: usize)
        requires
            j < info@.columns.len(),
        ensures
            r == info@.columns[j as int].1,
    {
        info.columns[j].1
    }
}

/// What projecting one column out of a stored row blob yields: its
/// decoded payload, `NULL` for a column stored null or absent, `None`
/// when the payload does not decode at the column's declared type.
pub open spec fn spec_project(bytes: Seq<u8>, col: ColumnMeta) -> Option<ValueView> {
    match spec_row_lookup(bytes, col.id as u32) {
        Some(p) => match p {
            Some(payload) => match spec_read_from(payload, 0, col.data_type) {
                Some(vp) => Some(vp.0),
                None => None,
            },
            None => Some(ValueView::NULL),
        },
        None => Some(ValueView::NULL),
    }
}

impl TableSource {
    /// The first primary index's position.
    fn first_primary(&self) -> (r: Option<usize>)
        ensures
            match r {
                Some(i) => i < self.meta@.indices.len() && primary_index_at(self.meta@.indices, 0)
                    == i,
                None => primary_index_at(self.meta@.indices, 0) == -1,
            },
    {
        let n = self.meta.indices.len();
        let mut i: usize = 0;
        while i < n
            invariant
                i <= n,
                n == self.meta.indices@.len(),
                forall|j: int| 0 <= j < i ==> !self.meta@.indices[j].primary,
            decreases n - i,
        {
            if self.meta.indices[i].primary {
                proof {
                    assert(self.meta@.indices[i as int] == self.meta.indices@[i as int]@);
                    lemma_primary_from(self.meta@.indices, 0, i as int);
                }
                return Some(i);
            }
            proof {
                assert(self.meta@.indices[i as int] == self.meta.indices@[i as int]@);
            }
            i += 1;
        }
        proof {
            lemma_primary_none(self.meta@.indices, 0);
        }
        None
    }

    /// Read the row a handle names and project the selected columns:
    /// present columns decode at their declared types, null or absent
    /// columns yield `NULL`, and an absent row yields the empty list.
    pub fn read_record_by_index<W: TransactionContext>(
        &self,
        reader: &mut W,
        storage: &mut MemStorage,
        primary_info: &IndexInfo,
        select_cols: &DataSchema,
        handle: &EncodeValue,
    ) -> (r: MySQLResult<Vec<EncodeValue>>)
        requires
            self.wf(),
            old(reader).inv(),
            old(storage).wf(),
            primary_info@.columns.len() > 0,
            0 <= primary_info@.columns[0].1 < self.meta@.columns.len(),
        ensures
            *final(reader) == *old(reader),
            *final(storage) == *old(storage),
            ({
                let t = self.meta@.columns[primary_info@.columns[0].1].data_type;
                let key = spec_record_prefix(self.id) + spec_encode_comparable(handle@, t);
                match r {
                    Ok(vals) => comparable_ok(handle@, t) && match old(reader).kv_view(
                        *old(storage),
                        key,
                    ) {
                        None => vals@.len() == 0,
                        Some(bytes) => {
                            &&& spec_row_valid(bytes)
                            &&& vals@.len() == select_cols.columns@.len()
                            &&& forall|i: int|
                                0 <= i < vals@.len() ==> spec_project(
                                    bytes,
                                    #[trigger] select_cols.columns@[i]@,
                                ) == Some(vals@[i]@)
                        },
                    },
                    Err(e) => !comparable_ok(handle@, t) || (match old(reader).kv_view(
                        *old(storage),
                        key,
                    ) {
                        Some(bytes) => !spec_row_valid(bytes) || exists|i: int|
                            0 <= i < select_cols.columns@.len() && spec_project(
                                bytes,
                                #[trigger] select_cols.columns@[i]@,
                            ) is None,
                        None => false,
                    }),
                }
            }),
    {
        let key = self.get_record_by_handle(primary_info, handle)?;
        let value = reader.get(storage, key.as_slice())?;
        let mut result: Vec<EncodeValue> = Vec::new();
        match value {
            Some(v) => {
                let ghost bytes = v@;
                let ghost t0 = self.meta@.columns[primary_info@.columns[0].1].data_type;
                let ghost key_s = spec_record_prefix(self.id) + spec_encode_comparable(handle@, t0);
                let row = DecoderRow::from_bytes(v)?;
                let n = select_cols.columns.len();
                let mut i: usize = 0;
                while i < n
                    invariant
                        i <= n,
                        n == select_cols.columns@.len(),
                        *reader == *old(reader),
                        *storage == *old(storage),
                        comparable_ok(handle@, t0),
                        t0 == self.meta@.columns[primary_info@.columns[0].1].data_type,
                        primary_info@.columns.len() > 0,
                        key_s == spec_record_prefix(self.id) + spec_encode_comparable(handle@, t0),
                        old(reader).kv_view(*old(storage), key_s) == Some(bytes),
                        spec_row_valid(bytes),
                        row.wf(),
                        row.data@ == bytes,
                        row.cols@ == row_ids(bytes),
                        row.offsets@ == row_offsets(bytes),
                        row.cursor == row_cursor(bytes),
                        row.num_not_null_cols == row_nnn(bytes),
                        result@.len() == i,
                        forall|j: int|
                            0 <= j < i ==> spec_project(bytes, #[trigger] select_cols.columns@[j]@)
                                == Some(result@[j]@),
                    decreases n - i,
                {
                    let col = &select_cols.columns[i];
                    proof {
                        lemma_row_lookup_matches(&row, col.id as u32);
                    }
                    match row.get_data(#[verifier::truncate] (col.id as u32)) {
                        Some(payload_opt) => match payload_opt {
                            Some(payload) => {
                                match EncodeValue::read_from(payload, 0, &col.data_type) {
                                    Ok((ev, _)) => {
                                        result.push(ev);
                                    },
                                    Err(e) => {
                                        proof {
                                            assert(spec_project(
                                                bytes,
                                                select_cols.columns@[i as int]@,
                                            ) is None);
                                        }
                                        return Err(e);
                                    },
                                }
                            },
                            None => {
                                result.push(EncodeValue::NULL);
                            },
                        },
                        None => {
                            result.push(EncodeValue::NULL);
                        },
                    }
                    i += 1;
                }
                Ok(result)
            },
            None => Ok(result),
        }
    }

    /// Read the row the primary index names for this handle.
    pub fn read_record<W: TransactionContext>(
        &self,
        reader: &mut W,
        storage: &mut MemStorage,
        select_cols: &DataSchema,
        handle: &EncodeValue,
    ) -> (r: MySQLResult<Vec<EncodeValue>>)
        requires
            self.wf(),
            old(reader).inv(),
            old(storage).wf(),
        ensures
            *final(reader) == *old(reader),
            *final(storage) == *old(storage),
            ({
                let pi = primary_index_at(self.meta@.indices, 0);
                if pi == -1 || self.meta@.indices[pi].columns.len() == 0 {
                    r matches Err(e) && e == MySQLError::NoIndex
                } else {
                    let t = self.meta@.columns[self.meta@.indices[pi].columns[0].1].data_type;
                    let key = spec_record_prefix(self.id) + spec_encode_comparable(handle@, t);
                    match r {
                        Ok(vals) => comparable_ok(handle@, t) && match old(reader).kv_view(
                            *old(storage),
                            key,
                        ) {
                            None => vals@.len() == 0,
                            Some(bytes) => {
                                &&& spec_row_valid(bytes)
                                &&& vals@.len() == select_cols.columns@.len()
                                &&& forall|i: int|
                                    0 <= i < vals@.len() ==> spec_project(
                                        bytes,
                                        #[trigger] select_cols.columns@[i]@,
                                    ) == Some(vals@[i]@)
                            },
                        },
                        Err(e) => !comparable_ok(handle@, t) || (match old(reader).kv_view(
                            *old(storage),
                            key,
                        ) {
                            Some(bytes) => !spec_row_valid(bytes) || exists|i: int|
                                0 <= i < select_cols.columns@.len() && spec_project(
                                    bytes,
                                    #[trigger] select_cols.columns@[i]@,
                                ) is None,
                            None => false,
                        }),
                    }
                }
            }),
    {
        match self.first_primary() {
            Some(pi) => {
                if self.meta.indices[pi].columns.len() == 0 {
                    return Err(MySQLError::NoIndex);
                }
                let info = self.meta.indices[pi].clone();
                proof {
                    assert(info@ == self.meta@.indices[pi as int]);
                }
                self.read_record_by_index(reader, storage, &info, select_cols, handle)
            },
            None => Err(MySQLError::NoIndex),
        }
    }

    /// Resolve a unique index entry to the row handle it stores: encode
    /// the index key from the given value, fetch the stored handle bytes,
    /// and decode them at the primary key column's type.
    pub fn read_handle_from_index<W: TransactionContext>(
        &self,
        reader: &mut W,
        storage: &mut MemStorage,
        index_info: &IndexInfo,
        index: &EncodeValue,
    ) -> (r: MySQLResult<Option<EncodeValue>>)
        requires
            self.wf(),
            old(reader).inv(),
            old(storage).wf(),
            index_info@.columns.len() > 0,
            0 <= index_info@.columns[0].1 < self.meta@.columns.len(),
        ensures
            *final(reader) == *old(reader),
            *final(storage) == *old(storage),
            ({
                let ti = self.meta@.columns[index_info@.columns[0].1].data_type;
                let ikey = spec_index_prefix(self.id) + spec_encode_comparable(index@, ti);
                let pi = primary_index_at(self.meta@.indices, 0);
                match r {
                    Ok(opt) => comparable_ok(index@, ti) && match old(reader).kv_view(
                        *old(storage),
                        ikey,
                    ) {
                        None => opt is None,
                        Some(hb) => {
                            &&& pi != -1
                            &&& self.meta@.indices[pi].columns.len() > 0
                            &&& opt matches Some(h) && spec_decode_comparable(
                                hb,
                                0,
                                self.meta@.columns[self.meta@.indices[pi].columns[0].1].data_type,
                            ) matches Some(vp) && h@ == vp.0
                        },
                    },
                    Err(e) => !comparable_ok(index@, ti) || (match old(reader).kv_view(
                        *old(storage),
                        ikey,
                    ) {
                        Some(hb) => pi == -1 || self.meta@.indices[pi].columns.len() == 0
                            || spec_decode_comparable(
                            hb,
                            0,
                            self.meta@.columns[self.meta@.indices[pi].columns[0].1].data_type,
                        ) is None,
                        None => false,
                    }),
                }
            }),
    {
        let mut index_key: Vec<u8> = Vec::with_capacity(self.get_handle_size());
        index_key.push(116);
        let mut idb = u64_to_le_bytes(self.id);
        index_key.append(&mut idb);
        index_key.push(105);
        let off = self.meta.indices_offset_of(index_info, 0);
        let ghost key0 = index_key@;
        crate::decoder::encode_value(&mut index_key, index, &self.meta.columns[off].data_type)?;
        proof {
            assert(key0 =~= spec_index_prefix(self.id));
        }
        match reader.get(storage, index_key.as_slice())? {
            None => Ok(None),
            Some(v) => {
                let pi = match self.first_primary() {
                    Some(pi) => pi,
                    None => {
                        return Err(MySQLError::NoIndex);
                    },
                };
                if self.meta.indices[pi].columns.len() == 0 {
                    return Err(MySQLError::NoIndex);
                }
                let poff = self.meta.indices[pi].columns[0].1;
                let (h, _) = EncodeValue::decode_comparable(
                    v.as_slice(),
                    0,
                    &self.meta.columns[poff].data_type,
                )?;
                Ok(Some(h))
            },
        }
    }
}

/// Every key reads the same through the context before and after.
pub open spec fn unchanged_views<W: TransactionContext>(
    w1: &W,
    w2: &W,
    s1: MemStorage,
    s2: MemStorage,
) -> bool {
    forall|k: Seq<u8>| w2.kv_view(s2, k) == w1.kv_view(s1, k)
}

/// The cumulative compact payload size of the first `j` columns' values;
/// null values contribute nothing.
pub open spec fn row_payload_size(cols: Seq<ColumnMeta>, vals: Seq<ValueView>, j: int) -> int
    decreases j,
{
    if j <= 0 {
        0
    } else {
        row_payload_size(cols, vals, j - 1) + if vals[j - 1] is NULL {
            0int
        } else {
            crate::types::spec_encode_plain(vals[j - 1], cols[j - 1].data_type).len() as int
        }
    }
}

/// How many of the first `j` values are non-null.
pub open spec fn row_nonnull_count(vals: Seq<ValueView>, j: int) -> int
    decreases j,
{
    if j <= 0 {
        0
    } else {
        row_nonnull_count(vals, j - 1) + if vals[j - 1] is NULL {
            0int
        } else {
            1int
        }
    }
}

/// Every encoding an insert performs succeeds for these resolved values:
/// the primary key columns encode comparably, every value encodes
/// compactly within the row format's 32-bit offsets and 16-bit counts,
/// and every non-primary index key encodes.
pub open spec fn insert_encodes(t: TableMeta, vals: Seq<ValueView>) -> bool {
    &&& spec_record_key(t, vals) is Some
    &&& forall|i: int|
        0 <= i < t.columns.len() ==> crate::types::plain_ok(
            vals[i],
            (#[trigger] t.columns[i]).data_type,
        ) && row_payload_size(t.columns, vals, i) + crate::types::spec_encode_plain(
            vals[i],
            t.columns[i].data_type,
        ).len() <= u32::MAX
    &&& row_nonnull_count(vals, t.columns.len() as int) <= u16::MAX
    &&& t.columns.len() - row_nonnull_count(vals, t.columns.len() as int) <= u16::MAX
    &&& forall|m: int|
        0 <= m < t.indices.len() && !t.indices[m].primary ==> (#[trigger] spec_index_key(
            t,
            m,
            vals,
        )) is Some
}

/// Whether a stored row blob records exactly these resolved column
/// values: each non-null value as its compact payload, each null value as
/// a null marker.
pub open spec fn row_content(b: Seq<u8>, cols: Seq<ColumnMeta>, vals: Seq<ValueView>) -> bool {
    &&& spec_row_valid(b)
    &&& forall|i: int|
        0 <= i < cols.len() ==> #[trigger] spec_row_lookup(b, (i + 1) as u32) == (if vals[i]
            is NULL {
            Some(None::<Seq<u8>>)
        } else {
            Some(Some(crate::types::spec_encode_plain(vals[i], cols[i].data_type)))
        })
}

/// The key of index `m` over the resolved row values.
pub open spec fn spec_index_key(t: TableMeta, m: int, vals: Seq<ValueView>) -> Option<Seq<u8>> {
    match enc_key_cols(t.columns, t.indices[m].columns, vals, t.indices[m].columns.len() as int) {
        Some(e) => Some(spec_index_prefix(t.id) + e),
        None => None,
    }
}

/// Whether `k` is the key of some non-primary index over these values.
pub open spec fn is_secondary_key(t: TableMeta, vals: Seq<ValueView>, k: Seq<u8>) -> bool {
    exists|m: int|
        0 <= m < t.indices.len() && !t.indices[m].primary && spec_index_key(t, m, vals) == Some(k)
}

/// The record key over the resolved row values: the record prefix and
/// the primary index's encoded columns.
pub open spec fn spec_record_key(t: TableMeta, vals: Seq<ValueView>) -> Option<Seq<u8>> {
    let pi = primary_index_at(t.indices, 0);
    if pi == -1 {
        None
    } else {
        match enc_key_cols(t.columns, t.indices[pi].columns, vals, t.indices[pi].columns.len()
            as int) {
            Some(e) => Some(spec_record_prefix(t.id) + e),
            None => None,
        }
    }
}

/// Once resolution fails it stays failed, and the counter freezes.
proof fn lemma_row_vals_none(
    cols: Seq<ColumnMeta>,
    vcols: Seq<ColumnMeta>,
    values: Seq<ValueView>,
    counter: u64,
    j: int,
    j2: int,
)
    requires
        0 <= j <= j2,
        spec_row_vals(cols, vcols, values, counter, j).0 is None,
    ensures
        spec_row_vals(cols, vcols, values, counter, j2) == spec_row_vals(
            cols,
            vcols,
            values,
            counter,
            j,
        ),
    decreases j2 - j,
{
    if j < j2 {
        lemma_row_vals_none(cols, vcols, values, counter, j, j2 - 1);
    }
}

/// Once a key column fails to encode the whole key fails.
proof fn lemma_enc_key_none(
    cols: Seq<ColumnMeta>,
    idxcols: Seq<(Seq<char>, int)>,
    vals: Seq<ValueView>,
    j: int,
    j2: int,
)
    requires
        0 <= j <= j2,
        enc_key_cols(cols, idxcols, vals, j) is None,
    ensures
        enc_key_cols(cols, idxcols, vals, j2) is None,
    decreases j2 - j,
{
    if j < j2 {
        lemma_enc_key_none(cols, idxcols, vals, j, j2 - 1);
    }
}

impl TableSource {
    /// Build the key of one index over the resolved row values into a
    /// cleared buffer.
    fn encode_index_key(&self, index_key: &mut Vec<u8>, index_info: &IndexInfo, rvals: &Vec<
        EncodeValue,
    >) -> (r: MySQLResult<()>)
        requires
            self.wf(),
            rvals@.len() == self.meta@.columns.len(),
            forall|j: int|
                0 <= j < index_info@.columns.len() ==> 0 <= (#[trigger] index_info@.columns[j]).1
                    < self.meta@.columns.len(),
        ensures
            ({
                let vals = Seq::new(rvals@.len(), |x: int| rvals@[x]@);
                let enc = enc_key_cols(
                    self.meta@.columns,
                    index_info@.columns,
                    vals,
                    index_info@.columns.len() as int,
                );
                match r {
                    Ok(_) => enc matches Some(e) && final(index_key)@ == spec_index_prefix(self.id)
                        + e,
                    Err(e) => enc is None && e == MySQLError::InvalidType,
                }
            }),
    {
        let ghost vals = Seq::new(rvals@.len(), |x: int| rvals@[x]@);
        index_key.clear();
        index_key.push(116);
        let mut idb = u64_to_le_bytes(self.id);
        index_key.append(&mut idb);
        index_key.push(105);
        proof {
            assert(index_key@ =~= spec_index_prefix(self.id));
            assert(enc_key_cols(self.meta@.columns, index_info@.columns, vals, 0)
                == Some(Seq::<u8>::empty()));
            assert(index_key@ =~= spec_index_prefix(self.id) + enc_key_cols(
                self.meta@.columns,
                index_info@.columns,
                vals,
                0,
            ).unwrap());
        }
        let m = index_info.columns.len();
        let mut j: usize = 0;
        while j < m
            invariant
                j <= m,
                m == index_info@.columns.len(),
                self.wf(),
                vals == Seq::new(rvals@.len(), |x: int| rvals@[x]@),
                rvals@.len() == self.meta@.columns.len(),
                forall|x: int|
                    0 <= x < index_info@.columns.len() ==> 0 <= (
                    #[trigger] index_info@.columns[x]).1 < self.meta@.columns.len(),
                enc_key_cols(self.meta@.columns, index_info@.columns, vals, j as int)
                    matches Some(e) && index_key@ == spec_index_prefix(self.id) + e,
            decreases m - j,
        {
            let off = self.meta.indices_offset_of(index_info, j);
            match crate::decoder::encode_value(index_key, &rvals[off], &self.meta.columns[off].data_type) {
                Ok(_) => {},
                Err(e) => {
                    proof {
                        assert(enc_key_cols(
                            self.meta@.columns,
                            index_info@.columns,
                            vals,
                            j + 1,
                        ) is None);
                        lemma_enc_key_none(
                            self.meta@.columns,
                            index_info@.columns,
                            vals,
                            j + 1,
                            index_info@.columns.len() as int,
                        );
                    }
                    return Err(e);
                },
            }
            j += 1;
        }
        Ok(())
    }

    /// Build the record key from the primary index over the resolved row
    /// values.
    fn get_record_key(&self, rvals: &Vec<EncodeValue>) -> (r: MySQLResult<Vec<u8>>)
        requires
            self.wf(),
            rvals@.len() == self.meta@.columns.len(),
        ensures
            ({
                let vals = Seq::new(rvals@.len(), |x: int| rvals@[x]@);
                let pi = primary_index_at(self.meta@.indices, 0);
                match r {
                    Ok(key) => spec_record_key(self.meta@, vals) == Some(key@) && key@.len() >= 10,
                    Err(e) => spec_record_key(self.meta@, vals) is None && if pi == -1 {
                        e == MySQLError::NoIndex
                    } else {
                        e == MySQLError::InvalidType
                    },
                }
            }),
    {
        let ghost vals = Seq::new(rvals@.len(), |x: int| rvals@[x]@);
        let pi = match self.first_primary() {
            Some(pi) => pi,
            None => {
                return Err(MySQLError::NoIndex);
            },
        };
        let mut key: Vec<u8> = Vec::with_capacity(self.get_handle_size());
        key.push(116);
        let mut idb = u64_to_le_bytes(self.id);
        key.append(&mut idb);
        key.push(114);
        let ghost pinfo = self.meta@.indices[pi as int];
        proof {
            assert(key@ =~= spec_record_prefix(self.id));
            assert(enc_key_cols(self.meta@.columns, pinfo.columns, vals, 0) == Some(
                Seq::<u8>::empty(),
            ));
            assert(key@ =~= spec_record_prefix(self.id) + enc_key_cols(
                self.meta@.columns,
                pinfo.columns,
                vals,
                0,
            ).unwrap());
        }
        let info = &self.meta.indices[pi];
        let m = info.columns.len();
        let mut j: usize = 0;
        while j < m
            invariant
                j <= m,
                m == pinfo.columns.len(),
                self.wf(),
                pi < self.meta@.indices.len(),
                primary_index_at(self.meta@.indices, 0) == pi as int,
                pinfo == self.meta@.indices[pi as int],
                info@ == pinfo,
                vals == Seq::new(rvals@.len(), |x: int| rvals@[x]@),
                rvals@.len() == self.meta@.columns.len(),
                enc_key_cols(self.meta@.columns, pinfo.columns, vals, j as int) matches Some(e)
                    && key@ == spec_record_prefix(self.id) + e,
            decreases m - j,
        {
            let off = self.meta.indices_offset_of(info, j);
            match crate::decoder::encode_value(&mut key, &rvals[off], &self.meta.columns[off].data_type) {
                Ok(_) => {},
                Err(e) => {
                    proof {
                        assert(enc_key_cols(self.meta@.columns, pinfo.columns, vals, j + 1)
                            is None);
                        lemma_enc_key_none(
                            self.meta@.columns,
                            pinfo.columns,
                            vals,
                            j + 1,
                            pinfo.columns.len() as int,
                        );
                    }
                    return Err(e);
                },
            }
            j += 1;
        }
        Ok(key)
    }

    /// Insert one row: fill absent columns from their generators, build
    /// the record key from the primary key columns, probe for a duplicate
    /// when the context has not pre-checked, write every non-primary
    /// index entry as index key to handle, and finally the record key to
    /// the serialized row. Returns the handle: the record key bytes after
    /// the ten-byte prefix.
    #[verifier::rlimit(100)]
    #[verifier::spinoff_prover]
    pub fn add_record<W: TransactionContext>(
        &mut self,
        writer: &mut W,
        storage: &mut MemStorage,
        row: &mut EncoderRow,
        vcols: &Vec<ColumnInfo>,
        values: &Vec<EncodeValue>,
    ) -> (r: MySQLResult<Vec<u8>>)
        requires
            old(self).wf(),
            old(writer).inv(),
            old(storage).wf(),
            old(row).wf(),
            old(row).cols@.len() == 0,
            old(row).null_cols@.len() == 0,
        ensures
            final(self).wf(),
            final(self).id == old(self).id,
            final(self).meta@.columns == old(self).meta@.columns,
            final(self).meta@.indices == old(self).meta@.indices,
            final(self).meta@.name == old(self).meta@.name,
            final(self).revision == old(self).revision,
            final(writer).inv(),
            final(writer).pre_checked() == old(writer).pre_checked(),
            final(storage).wf(),
            final(row).wf(),
            ({
                let cols = old(self).meta@.columns;
                let vv = Seq::new(vcols@.len(), |x: int| vcols@[x]@);
                let valsv = Seq::new(values@.len(), |x: int| values@[x]@);
                let rv = spec_row_vals(cols, vv, valsv, old(self).meta@.max_row_id, cols.len()
                    as int);
                let pi = primary_index_at(old(self).meta@.indices, 0);
                &&& (r is Ok <==> rv.0 is Some && pi != -1 && insert_encodes(
                    old(self).meta@,
                    rv.0.unwrap(),
                ) && !(!old(writer).pre_checked() && old(writer).kv_view(
                    *old(storage),
                    spec_record_key(old(self).meta@, rv.0.unwrap()).unwrap(),
                ) is Some))
                &&& match r {
                    Ok(handle) => {
                        let vals = rv.0.unwrap();
                        let rk = spec_record_key(old(self).meta@, vals).unwrap();
                        &&& final(self).meta@.max_row_id == rv.1
                        &&& handle@ == rk.subrange(10, rk.len() as int)
                        &&& (!old(writer).pre_checked() ==> old(writer).kv_view(*old(storage), rk)
                            is None)
                        &&& (match final(writer).kv_view(*final(storage), rk) {
                            Some(b) => row_content(b, cols, vals),
                            None => false,
                        })
                        &&& forall|k: Seq<u8>|
                            k != rk && is_secondary_key(old(self).meta@, vals, k) ==> final(writer).kv_view(*final(storage), k) == Some(rk.subrange(10, rk.len() as int))
                        &&& forall|k: Seq<u8>|
                            k != rk && !is_secondary_key(old(self).meta@, vals, k) ==> final(writer).kv_view(*final(storage), k) == old(writer).kv_view(*old(storage), k)
                    },
                    Err(e) => {
                        ||| (e matches MySQLError::MissColumn(_) && rv.0 is None && final(self).meta@.max_row_id == rv.1 && unchanged_views(
                            old(writer),
                            final(writer),
                            *old(storage),
                            *final(storage),
                        ))
                        ||| (e == MySQLError::NoIndex && rv.0 is Some && pi == -1
                            && unchanged_views(
                            old(writer),
                            final(writer),
                            *old(storage),
                            *final(storage),
                        ))
                        ||| (e == MySQLError::KeyExist && rv.0 is Some && pi != -1 && !old(writer).pre_checked() && (spec_record_key(old(self).meta@, rv.0.unwrap())
                            matches Some(rk2) && old(writer).kv_view(*old(storage), rk2) is Some)
                            && unchanged_views(
                            old(writer),
                            final(writer),
                            *old(storage),
                            *final(storage),
                        ))
                        ||| (e == MySQLError::InvalidType && rv.0 is Some && pi != -1
                            && !insert_encodes(old(self).meta@, rv.0.unwrap())
                            && (forall|k: Seq<u8>|
                            !is_secondary_key(old(self).meta@, rv.0.unwrap(), k)
                                ==> final(writer).kv_view(*final(storage), k) == old(writer).kv_view(*old(storage), k)))
                    },
                }
            }),
    {
        let ghost cols = self.meta@.columns;
        let ghost vv = Seq::new(vcols@.len(), |x: int| vcols@[x]@);
        let ghost valsv = Seq::new(values@.len(), |x: int| values@[x]@);
        let ghost c0 = self.meta@.max_row_id;
        let ncols = self.meta.columns.len();
        // Resolve each column to a supplied or generated value.
        let mut rvals: Vec<EncodeValue> = Vec::new();
        let mut i: usize = 0;
        while i < ncols
            invariant
                i <= ncols,
                ncols == cols.len(),
                cols == self.meta@.columns,
                self.wf(),
                self.id == old(self).id,
                self.meta@.id == old(self).meta@.id,
                self.meta@.columns == old(self).meta@.columns,
                self.meta@.indices == old(self).meta@.indices,
                self.meta@.name == old(self).meta@.name,
                self.revision == old(self).revision,
                *writer == *old(writer),
                *storage == *old(storage),
                writer.inv(),
                storage.wf(),
                row.wf(),
                row.cols@.len() == 0,
                row.null_cols@.len() == 0,
                row.cols@ == old(row).cols@,
                row.null_cols@ == old(row).null_cols@,
                row.offset@ == old(row).offset@,
                row.values@ == old(row).values@,
                vv == Seq::new(vcols@.len(), |x: int| vcols@[x]@),
                valsv == Seq::new(values@.len(), |x: int| values@[x]@),
                c0 == old(self).meta@.max_row_id,
                rvals@.len() == i,
                ({
                    let p = spec_row_vals(cols, vv, valsv, c0, i as int);
                    p.0 == Some(Seq::new(rvals@.len(), |x: int| rvals@[x]@)) && p.1
                        == self.meta@.max_row_id
                }),
            decreases ncols - i,
        {
            let ghost rvseq = Seq::new(rvals@.len(), |x: int| rvals@[x]@);
            let col = &self.meta.columns[i];
            proof {
                assert(col@ == cols[i as int]);
            }
            let mut provided: Option<usize> = None;
            match last_assign(vcols, col.offset) {
                Some(ai) => {
                    if ai < values.len() {
                        provided = Some(ai);
                    }
                },
                None => {},
            }
            match provided {
                Some(ai) => {
                    rvals.push(values[ai].clone());
                },
                None => {
                    match &self.meta.columns[i].default_value {
                        Some(ValueGenerator::DefaultConstant(g)) => {
                            let v = g.generate();
                            rvals.push(v);
                        },
                        Some(ValueGenerator::AutoIncrement(g)) => {
                            let g2 = AutoIncrementIdGenerator::new();
                            let v = g2.generate(&mut self.meta.max_row_id);
                            rvals.push(v);
                        },
                        None => {
                            proof {
                                assert(resolved_value(cols[i as int], vv, valsv, self.meta@.max_row_id)
                                    is None);
                                assert(spec_row_vals(cols, vv, valsv, c0, i + 1).0 is None);
                                lemma_row_vals_none(cols, vv, valsv, c0, i + 1, cols.len() as int);
                                assert(unchanged_views(old(writer), writer, *old(storage), *storage));
                            }
                            return Err(MySQLError::MissColumn(self.meta.columns[i].name.clone()));
                        },
                    }
                },
            }
            proof {
                assert(Seq::new(rvals@.len(), |x: int| rvals@[x]@) =~= rvseq.push(
                    rvals@.last()@,
                ));
            }
            i += 1;
        }
        let ghost vals = Seq::new(rvals@.len(), |x: int| rvals@[x]@);
        let ghost rv = spec_row_vals(cols, vv, valsv, c0, cols.len() as int);
        // The record key, from the primary key columns.
        let key = match self.get_record_key(&rvals) {
            Ok(key) => key,
            Err(e) => {
                proof {
                    assert(unchanged_views(old(writer), writer, *old(storage), *storage));
                }
                return Err(e);
            },
        };
        let ghost rk = key@;
        // Probe for a duplicate unless the mode pre-checked.
        let checked = writer.check_constants(storage, key.as_slice())?;
        if !checked {
            match writer.get(storage, key.as_slice())? {
                Some(_) => {
                    proof {
                        assert(unchanged_views(old(writer), writer, *old(storage), *storage));
                    }
                    return Err(MySQLError::KeyExist);
                },
                None => {},
            }
        }
        // Record every column in the row encoder, in declaration order.
        let mut i2: usize = 0;
        while i2 < ncols
            invariant
                i2 <= ncols,
                ncols == cols.len(),
                cols.len() <= u32::MAX,
                cols == self.meta@.columns,
                self.wf(),
                self.id == old(self).id,
                self.meta@.id == old(self).meta@.id,
                self.meta@.columns == old(self).meta@.columns,
                self.meta@.indices == old(self).meta@.indices,
                self.meta@.name == old(self).meta@.name,
                self.revision == old(self).revision,
                *writer == *old(writer),
                *storage == *old(storage),
                writer.inv(),
                storage.wf(),
                writer.pre_checked() == old(writer).pre_checked(),
                spec_record_key(old(self).meta@, vals) == Some(rk),
                vals == Seq::new(rvals@.len(), |x: int| rvals@[x]@),
                rvals@.len() == ncols,
                vv == Seq::new(vcols@.len(), |x: int| vcols@[x]@),
                valsv == Seq::new(values@.len(), |x: int| values@[x]@),
                c0 == old(self).meta@.max_row_id,
                spec_row_vals(cols, vv, valsv, c0, cols.len() as int).0 == Some(vals),
                self.meta@.max_row_id == spec_row_vals(cols, vv, valsv, c0, cols.len() as int).1,
                row.wf(),
                row.cols@.len() + row.null_cols@.len() == i2,
                row.values@.len() == row_payload_size(cols, vals, i2 as int),
                row.cols@.len() == row_nonnull_count(vals, i2 as int),
                row_payload_size(cols, vals, i2 as int) <= u32::MAX,
                forall|x: int|
                    0 <= x < i2 ==> crate::types::plain_ok(
                        vals[x],
                        (#[trigger] cols[x]).data_type,
                    ) && row_payload_size(cols, vals, x) + crate::types::spec_encode_plain(
                        vals[x],
                        cols[x].data_type,
                    ).len() <= u32::MAX,
                forall|p: int|
                    0 <= p < row.cols@.len() ==> 1 <= #[trigger] row.cols@[p] <= i2 && !(
                    vals[row.cols@[p] - 1] is NULL) && row.payload_at(p)
                        == crate::types::spec_encode_plain(
                        vals[row.cols@[p] - 1],
                        cols[row.cols@[p] - 1].data_type,
                    ),
                forall|p: int|
                    0 <= p < row.null_cols@.len() ==> 1 <= #[trigger] row.null_cols@[p] <= i2
                        && vals[row.null_cols@[p] - 1] is NULL,
                forall|j: int|
                    0 <= j < i2 ==> if vals[j] is NULL {
                        exists|p: int|
                            0 <= p < row.null_cols@.len() && #[trigger] row.null_cols@[p] == j + 1
                    } else {
                        exists|p: int| 0 <= p < row.cols@.len() && #[trigger] row.cols@[p] == j + 1
                    },
            decreases ncols - i2,
        {
            let ghost rowc0 = row.cols@;
            let ghost rown0 = row.null_cols@;
            let ghost rowv0 = row.values@;
            let ghost rowo0 = row.offset@;
            let col = &self.meta.columns[i2];
            proof {
                assert(col@ == cols[i2 as int]);
                assert(row.id_above((i2 + 1) as u32));
            }
            match row.append_column((i2 as u32) + 1, &rvals[i2], &col.data_type) {
                Ok(_) => {},
                Err(_) => {
                    proof {
                        assert(!(vals[i2 as int] is NULL));
                        assert(!crate::types::plain_ok(vals[i2 as int], cols[i2 as int].data_type)
                            || row_payload_size(cols, vals, i2 as int)
                            + crate::types::spec_encode_plain(
                            vals[i2 as int],
                            cols[i2 as int].data_type,
                        ).len() > u32::MAX);
                        assert(old(self).meta@.columns[i2 as int] == cols[i2 as int]);
                        assert(!insert_encodes(old(self).meta@, vals));
                        assert(unchanged_views(old(writer), writer, *old(storage), *storage));
                    }
                    return Err(MySQLError::InvalidType);
                },
            }
            proof {
                if vals[i2 as int] is NULL {
                    assert(row.null_cols@[row.null_cols@.len() - 1] == i2 + 1);
                    assert(row_payload_size(cols, vals, i2 + 1) == row_payload_size(
                        cols,
                        vals,
                        i2 as int,
                    ));
                    assert(row_nonnull_count(vals, i2 + 1) == row_nonnull_count(vals, i2 as int));
                } else {
                    assert(row_payload_size(cols, vals, i2 + 1) == row_payload_size(
                        cols,
                        vals,
                        i2 as int,
                    ) + crate::types::spec_encode_plain(
                        vals[i2 as int],
                        cols[i2 as int].data_type,
                    ).len());
                    assert(row_nonnull_count(vals, i2 + 1) == row_nonnull_count(vals, i2 as int)
                        + 1);
                }
                if !(vals[i2 as int] is NULL) {
                    assert(row.cols@[row.cols@.len() - 1] == i2 + 1);
                    assert(row.payload_at(row.cols@.len() - 1) =~= crate::types::spec_encode_plain(
                        vals[i2 as int],
                        cols[i2 as int].data_type,
                    ));
                    assert forall|p: int| 0 <= p < rowc0.len() implies row.payload_at(p)
                        == payload_of(rowv0, rowo0, p) by {
                        assert(row.payload_at(p) =~= payload_of(rowv0, rowo0, p));
                    }
                }
                assert forall|j: int|
                    0 <= j < i2 + 1 implies (if vals[j] is NULL {
                        exists|p: int|
                            0 <= p < row.null_cols@.len() && #[trigger] row.null_cols@[p] == j + 1
                    } else {
                        exists|p: int| 0 <= p < row.cols@.len() && #[trigger] row.cols@[p] == j + 1
                    }) by {
                    if j == i2 {
                        if vals[j] is NULL {
                            assert(row.null_cols@[row.null_cols@.len() - 1] == j + 1);
                        } else {
                            assert(row.cols@[row.cols@.len() - 1] == j + 1);
                        }
                    } else {
                        if vals[j] is NULL {
                            let p = choose|p: int| 0 <= p < rown0.len() && rown0[p] == j + 1;
                            assert(row.null_cols@[p] == j + 1);
                        } else {
                            let p = choose|p: int| 0 <= p < rowc0.len() && rowc0[p] == j + 1;
                            assert(row.cols@[p] == j + 1);
                        }
                    }
                }
            }
            i2 += 1;
        }
        // The handle: the record key bytes after the prefix.
        let handle = vstd::slice::slice_to_vec(
            crate::decoder::get_handle_from_record_key(key.as_slice()),
        );
        // Write every non-primary index entry.
        let nidx = self.meta.indices.len();
        let mut index_key: Vec<u8> = Vec::with_capacity(self.get_handle_size());
        let mut m: usize = 0;
        while m < nidx
            invariant
                m <= nidx,
                nidx == self.meta@.indices.len(),
                self.wf(),
                self.id == old(self).id,
                self.meta@.id == old(self).meta@.id,
                self.meta@.columns == old(self).meta@.columns,
                self.meta@.indices == old(self).meta@.indices,
                self.meta@.name == old(self).meta@.name,
                self.revision == old(self).revision,
                cols == self.meta@.columns,
                vals == Seq::new(rvals@.len(), |x: int| rvals@[x]@),
                rvals@.len() == cols.len(),
                writer.inv(),
                storage.wf(),
                writer.pre_checked() == old(writer).pre_checked(),
                storage.last_commit_ts == old(storage).last_commit_ts,
                spec_record_key(old(self).meta@, vals) == Some(rk),
                handle@ == rk.subrange(10, rk.len() as int),
                rk.len() >= 10,
                vv == Seq::new(vcols@.len(), |x: int| vcols@[x]@),
                valsv == Seq::new(values@.len(), |x: int| values@[x]@),
                c0 == old(self).meta@.max_row_id,
                spec_row_vals(cols, vv, valsv, c0, cols.len() as int).0 == Some(vals),
                self.meta@.max_row_id == spec_row_vals(cols, vv, valsv, c0, cols.len() as int).1,
                forall|m2: int|
                    0 <= m2 < m && !self.meta@.indices[m2].primary ==> (#[trigger] spec_index_key(
                        self.meta@,
                        m2,
                        vals,
                    )) is Some,
                row.wf(),
                row.cols@.len() + row.null_cols@.len() == cols.len(),
                row.values@.len() == row_payload_size(cols, vals, cols.len() as int),
                row.cols@.len() == row_nonnull_count(vals, cols.len() as int),
                forall|p: int|
                    0 <= p < row.cols@.len() ==> 1 <= #[trigger] row.cols@[p] <= cols.len() && !(
                    vals[row.cols@[p] - 1] is NULL) && row.payload_at(p)
                        == crate::types::spec_encode_plain(
                        vals[row.cols@[p] - 1],
                        cols[row.cols@[p] - 1].data_type,
                    ),
                forall|p: int|
                    0 <= p < row.null_cols@.len() ==> 1 <= #[trigger] row.null_cols@[p]
                        <= cols.len() && vals[row.null_cols@[p] - 1] is NULL,
                forall|j: int|
                    0 <= j < cols.len() ==> if vals[j] is NULL {
                        exists|p: int|
                            0 <= p < row.null_cols@.len() && #[trigger] row.null_cols@[p] == j + 1
                    } else {
                        exists|p: int| 0 <= p < row.cols@.len() && #[trigger] row.cols@[p] == j + 1
                    },
                forall|k: Seq<u8>|
                    writer.kv_view(*storage, k) == if exists|m2: int|
                        0 <= m2 < m && !self.meta@.indices[m2].primary && spec_index_key(
                            self.meta@,
                            m2,
                            vals,
                        ) == Some(k) {
                        Some(rk.subrange(10, rk.len() as int))
                    } else {
                        old(writer).kv_view(*old(storage), k)
                    },
            decreases nidx - m,
        {
            if !self.meta.indices[m].primary {
                let info = self.meta.indices[m].clone();
                proof {
                    assert(info@ == self.meta@.indices[m as int]);
                }
                match self.encode_index_key(&mut index_key, &info, &rvals) {
                    Ok(_) => {},
                    Err(_) => {
                        proof {
                            assert(spec_index_key(self.meta@, m as int, vals) is None);
                            assert(self.meta@.indices[m as int]
                                == old(self).meta@.indices[m as int]);
                            assert(spec_index_key(old(self).meta@, m as int, vals) is None) by {
                                assert(old(self).meta@.columns == self.meta@.columns);
                                assert(old(self).meta@.id == self.meta@.id);
                            }
                            assert(!insert_encodes(old(self).meta@, vals));
                            assert forall|k: Seq<u8>|
                                !is_secondary_key(old(self).meta@, vals, k) implies writer.kv_view(
                                *storage,
                                k,
                            ) == old(writer).kv_view(*old(storage), k) by {
                                if exists|m3: int|
                                    0 <= m3 < self.meta@.indices.len()
                                        && !self.meta@.indices[m3].primary && spec_index_key(
                                        self.meta@,
                                        m3,
                                        vals,
                                    ) == Some(k) {
                                    let m3 = choose|m3: int|
                                        0 <= m3 < self.meta@.indices.len()
                                            && !self.meta@.indices[m3].primary && spec_index_key(
                                            self.meta@,
                                            m3,
                                            vals,
                                        ) == Some(k);
                                    assert(old(self).meta@.indices[m3]
                                        == self.meta@.indices[m3]);
                                    assert(spec_index_key(old(self).meta@, m3, vals) == Some(k));
                                    assert(is_secondary_key(old(self).meta@, vals, k));
                                }
                            }
                        }
                        return Err(MySQLError::InvalidType);
                    },
                }
                writer.write(storage, index_key.as_slice(), handle.as_slice())?;
                proof {
                    assert(spec_index_key(self.meta@, m as int, vals) is Some);
                    assert forall|k: Seq<u8>|
                        writer.kv_view(*storage, k) == (if exists|m2: int|
                            0 <= m2 < m + 1 && !self.meta@.indices[m2].primary && spec_index_key(
                                self.meta@,
                                m2,
                                vals,
                            ) == Some(k) {
                            Some(rk.subrange(10, rk.len() as int))
                        } else {
                            old(writer).kv_view(*old(storage), k)
                        }) by {
                        if k == index_key@ {
                            assert(spec_index_key(self.meta@, m as int, vals) == Some(k));
                        }
                    }
                }
            } else {
                proof {
                    assert forall|k: Seq<u8>|
                        writer.kv_view(*storage, k) == (if exists|m2: int|
                            0 <= m2 < m + 1 && !self.meta@.indices[m2].primary && spec_index_key(
                                self.meta@,
                                m2,
                                vals,
                            ) == Some(k) {
                            Some(rk.subrange(10, rk.len() as int))
                        } else {
                            old(writer).kv_view(*old(storage), k)
                        }) by {
                    }
                }
            }
            m += 1;
        }
        // Serialize and write the record itself.
        let bytes = match row.to_bytes() {
            Ok(b) => b,
            Err(_) => {
                proof {
                    assert(row.null_cols@.len() == cols.len() - row_nonnull_count(
                        vals,
                        cols.len() as int,
                    ));
                    assert(!insert_encodes(old(self).meta@, vals));
                    assert forall|k: Seq<u8>|
                        !is_secondary_key(old(self).meta@, vals, k) implies writer.kv_view(
                        *storage,
                        k,
                    ) == old(writer).kv_view(*old(storage), k) by {
                        if exists|m3: int|
                            0 <= m3 < self.meta@.indices.len() && !self.meta@.indices[m3].primary
                                && spec_index_key(self.meta@, m3, vals) == Some(k) {
                            let m3 = choose|m3: int|
                                0 <= m3 < self.meta@.indices.len()
                                    && !self.meta@.indices[m3].primary && spec_index_key(
                                    self.meta@,
                                    m3,
                                    vals,
                                ) == Some(k);
                            assert(old(self).meta@.indices[m3] == self.meta@.indices[m3]);
                            assert(spec_index_key(old(self).meta@, m3, vals) == Some(k));
                            assert(is_secondary_key(old(self).meta@, vals, k));
                        }
                    }
                }
                return Err(MySQLError::InvalidType);
            },
        };
        writer.write(storage, key.as_slice(), bytes.as_slice())?;
        proof {
            crate::decoder::lemma_row_bytes_parse(row);
            assert(spec_row_valid(bytes@));
            assert forall|ci: int| 0 <= ci < cols.len() implies #[trigger] spec_row_lookup(
                bytes@,
                (ci + 1) as u32,
            ) == (if vals[ci] is NULL {
                Some(None::<Seq<u8>>)
            } else {
                Some(Some(crate::types::spec_encode_plain(vals[ci], cols[ci].data_type)))
            }) by {
                let id = (ci + 1) as u32;
                crate::decoder::lemma_row_bytes_lookup(row, id);
                assert(id == ci + 1);
                if vals[ci] is NULL {
                    assert(exists|p: int|
                        0 <= p < row.null_cols@.len() && #[trigger] row.null_cols@[p] == ci + 1);
                    assert forall|q: int| 0 <= q < row.cols@.len() implies row.cols@[q] != id by {
                        if row.cols@[q] == id {
                            assert(!(vals[row.cols@[q] - 1] is NULL));
                        }
                    }
                    assert(row.row_has(id) == Some(None::<Seq<u8>>));
                } else {
                    assert(exists|p: int|
                        0 <= p < row.cols@.len() && #[trigger] row.cols@[p] == ci + 1);
                    assert(row.row_has(id) == Some(Some(crate::types::spec_encode_plain(
                        vals[ci],
                        cols[ci].data_type,
                    ))));
                }
            }
            assert(row_content(bytes@, cols, vals));
            // Every encoding succeeded, so success is owed.
            assert(row.null_cols@.len() == cols.len() - row_nonnull_count(vals, cols.len() as int));
            assert forall|m2: int|
                0 <= m2 < old(self).meta@.indices.len() && !old(
                    self,
                ).meta@.indices[m2].primary implies (#[trigger] spec_index_key(
                old(self).meta@,
                m2,
                vals,
            )) is Some by {
                assert(spec_index_key(self.meta@, m2, vals) is Some);
                assert(old(self).meta@.indices[m2] == self.meta@.indices[m2]);
            }
            assert(insert_encodes(old(self).meta@, vals));
            let tmeta = self.meta@;
            assert(tmeta.columns == old(self).meta@.columns);
            assert(tmeta.indices == old(self).meta@.indices);
            assert(tmeta.id == old(self).meta@.id);
            assert forall|m2: int|
                0 <= m2 < tmeta.indices.len() implies spec_index_key(tmeta, m2, vals)
                == spec_index_key(old(self).meta@, m2, vals) by {
                assert(tmeta.indices[m2] == old(self).meta@.indices[m2]);
            }
            assert forall|k: Seq<u8>|
                k != rk && is_secondary_key(old(self).meta@, vals, k) implies writer.kv_view(
                *storage,
                k,
            ) == Some(rk.subrange(10, rk.len() as int)) by {
                let m2 = choose|m2: int|
                    0 <= m2 < old(self).meta@.indices.len() && !old(
                        self,
                    ).meta@.indices[m2].primary && spec_index_key(old(self).meta@, m2, vals)
                        == Some(k);
                assert(spec_index_key(tmeta, m2, vals) == Some(k));
                assert(exists|m3: int|
                    0 <= m3 < tmeta.indices.len() && !tmeta.indices[m3].primary && spec_index_key(
                        tmeta,
                        m3,
                        vals,
                    ) == Some(k));
            }
            assert forall|k: Seq<u8>|
                k != rk && !is_secondary_key(old(self).meta@, vals, k) implies writer.kv_view(
                *storage,
                k,
            ) == old(writer).kv_view(*old(storage), k) by {
                if exists|m3: int|
                    0 <= m3 < tmeta.indices.len() && !tmeta.indices[m3].primary && spec_index_key(
                        tmeta,
                        m3,
                        vals,
                    ) == Some(k) {
                    let m3 = choose|m3: int|
                        0 <= m3 < tmeta.indices.len() && !tmeta.indices[m3].primary
                            && spec_index_key(tmeta, m3, vals) == Some(k);
                    assert(spec_index_key(old(self).meta@, m3, vals) == Some(k));
                    assert(is_secondary_key(old(self).meta@, vals, k));
                }
            }
        }
        Ok(handle)
    }
}

/// The payload slice of position `p` in a values buffer with end
/// offsets.
pub open spec fn payload_of(values: Seq<u8>, offsets: Seq<u32>, p: int) -> Seq<u8> {
    let start: int = if p == 0 {
        0
    } else {
        offsets[p - 1] as int
    };
    values.subrange(start, offsets[p] as int)
}

proof fn lemma_primary_from(indices: Seq<IndexMeta>, lo: int, i: int)
    requires
        0 <= lo <= i < indices.len(),
        indices[i].primary,
        forall|j: int| lo <= j < i ==> !indices[j].primary,
    ensures
        primary_index_at(indices, lo) == i,
    decreases i - lo,
{
    if lo < i {
        lemma_primary_from(indices, lo + 1, i);
    }
}

proof fn lemma_primary_none(indices: Seq<IndexMeta>, i: int)
    requires
        0 <= i,
        forall|j: int| i <= j < indices.len() ==> !indices[j].primary,
    ensures
        primary_index_at(indices, i) == -1,
    decreases indices.len() - i,
{
    if i < indices.len() {
        lemma_primary_none(indices, i + 1);
    }
}

} // verus!
