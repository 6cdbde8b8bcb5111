use vstd::prelude::*;
use crate::errors::{MySQLError, MySQLResult};

verus! {

/// How a transaction should be started.
#[derive(Debug, Clone, Copy)]
pub struct TransactionOptions {
    pub pessimistic: bool,
    pub no_timestamp: bool,
}

/// One committed write against a key: a put of a value or a delete, each
/// stamped with the writing transaction's start timestamp.
#[derive(Debug)]
pub enum Operation {
    Delete(u64),
    Put(Vec<u8>, u64),
}

/// The mathematical model of an operation.
#[verifier::ext_equal]
pub enum OpView {
    Delete(u64),
    Put(Seq<u8>, u64),
}

impl View for Operation {
    type V = OpView;

    open spec fn view(&self) -> OpView {
        match *self {
            Operation::Delete(ts) => OpView::Delete(ts),
            Operation::Put(v, ts) => OpView::Put(v@, ts),
        }
    }
}

impl Clone for Operation {
    fn clone(&self) -> (r: Self)
        ensures
            r@ == self@,
    {
        match self {
            Operation::Delete(ts) => Operation::Delete(*ts),
            Operation::Put(v, ts) => {
                let c = v.clone();
                proof {
                    assert(c@ =~= v@);
                }
                Operation::Put(c, *ts)
            },
        }
    }
}

/// The first entry with this key, or -1: entries are searched in order
/// and keys are kept unique.
pub open spec fn store_find(data: Seq<(Vec<u8>, Vec<Operation>)>, k: Seq<u8>, i: int) -> int
    decreases data.len() - i,
{
    if i < 0 || i >= data.len() {
        -1
    } else if data[i].0@ == k {
        i
    } else {
        store_find(data, k, i + 1)
    }
}

/// The newest committed value: what a plain snapshot read returns.
pub open spec fn top_visible(stack: Seq<OpView>) -> Option<Seq<u8>> {
    if stack.len() == 0 {
        None
    } else {
        match stack.last() {
            OpView::Put(v, _) => Some(v),
            OpView::Delete(_) => None,
        }
    }
}

/// The newest value whose timestamp does not exceed `ts`: what a
/// transaction's snapshot read returns.
pub open spec fn visible_at(stack: Seq<OpView>, ts: u64) -> Option<Seq<u8>>
    decreases stack.len(),
{
    if stack.len() == 0 {
        None
    } else {
        match stack.last() {
            OpView::Put(v, t) => if t <= ts {
                Some(v)
            } else {
                visible_at(stack.drop_last(), ts)
            },
            OpView::Delete(t) => if t <= ts {
                None
            } else {
                visible_at(stack.drop_last(), ts)
            },
        }
    }
}

/// The in-memory backend: an ordered association of keys to version
/// stacks, and the timestamp handed to new transactions. Committing
/// appends versions unconditionally, so this is snapshot reading with
/// last-writer-wins and no conflict detection.
#[derive(Debug)]
pub struct MemStorage {
    pub data: Vec<(Vec<u8>, Vec<Operation>)>,
    pub last_commit_ts: u64,
}

impl MemStorage {
    /// Keys are unique, so the first match is the only match.
    pub open spec fn wf(&self) -> bool {
        forall|i: int, j: int|
            0 <= i < j < self.data@.len() ==> self.data@[i].0@ != self.data@[j].0@
    }

    /// The version stack of a key; absent keys have the empty stack.
    pub open spec fn stack(&self, k: Seq<u8>) -> Seq<OpView> {
        let i = store_find(self.data@, k, 0);
        if i == -1 {
            Seq::empty()
        } else {
            Seq::new(self.data@[i].1@.len(), |j: int| self.data@[i].1@[j]@)
        }
    }

    pub fn new() -> (r: MemStorage)
        ensures
            r.wf(),
            r.last_commit_ts == 1,
            forall|k: Seq<u8>| r.stack(k) == Seq::<OpView>::empty(),
    {
        MemStorage { data: Vec::new(), last_commit_ts: 1 }
    }

    /// A snapshot read outside any transaction: the newest committed
    /// value of the key.
    pub fn get(&self, key: &[u8]) -> (r: MySQLResult<Option<Vec<u8>>>)
        requires
            self.wf(),
        ensures
            match r {
                Ok(v) => match v {
                    Some(b) => top_visible(self.stack(key@)) == Some(b@),
                    None => top_visible(self.stack(key@)) is None,
                },
                Err(_) => false,
            },
    {
        match self.find_entry(key) {
            Some(i) => {
                let stack = &self.data[i].1;
                if stack.len() == 0 {
                    Ok(None)
                } else {
                    match &stack[stack.len() - 1] {
                        Operation::Put(v, _) => {
                            let c = v.clone();
                            proof {
                                assert(c@ =~= v@);
                            }
                            Ok(Some(c))
                        },
                        Operation::Delete(_) => Ok(None),
                    }
                }
            },
            None => Ok(None),
        }
    }

    /// Open a transaction at the current timestamp.
    pub fn new_transaction(&self, _opts: &TransactionOptions) -> (r: MemTransaction)
        ensures
            r.wf(),
            r.start_ts == self.last_commit_ts,
            forall|k: Seq<u8>| r.cache_get(k) is None,
    {
        MemTransaction::new(self.last_commit_ts)
    }

    /// The first entry holding this key.
    fn find_entry(&self, key: &[u8]) -> (r: Option<usize>)
        ensures
            match r {
                Some(i) => i < self.data@.len() && self.data@[i as int].0@ == key@ && store_find(
                    self.data@,
                    key@,
                    0,
                ) == i,
                None => store_find(self.data@, key@, 0) == -1,
            },
    {
        let n = self.data.len();
        let mut i: usize = 0;
        while i < n
            invariant
                i <= n,
                n == self.data@.len(),
                forall|j: int| 0 <= j < i ==> self.data@[j].0@ != key@,
            decreases n - i,
        {
            if bytes_eq(&self.data[i].0, key) {
                proof {
                    lemma_store_find_first(self.data@, key@, i as int);
                }
                return Some(i);
            }
            i += 1;
        }
        proof {
            lemma_store_find_none(self.data@, key@, 0);
        }
        None
    }
}

/// Element-wise equality of a stored key and a searched key.
fn bytes_eq(a: &Vec<u8>, b: &[u8]) -> (r: bool)
    ensures
        r == (a@ == b@),
{
    if a.len() != b.len() {
        proof {
            assert(a@ != b@);
        }
        return false;
    }
    let n = a.len();
    let mut i: usize = 0;
    while i < n
        invariant
            i <= n,
            n == a@.len(),
            n == b@.len(),
            forall|j: int| 0 <= j < i ==> a@[j] == b@[j],
        decreases n - i,
    {
        if a[i] != *vstd::slice::slice_index_get(b, i) {
            proof {
                assert(a@ != b@);
            }
            return false;
        }
        i += 1;
    }
    proof {
        assert(a@ =~= b@);
    }
    true
}

/// When no entry before `i` holds the key and entry `i` does, `i` is the
/// first match.
proof fn lemma_store_find_first(data: Seq<(Vec<u8>, Vec<Operation>)>, k: Seq<u8>, i: int)
    requires
        0 <= i < data.len(),
        data[i].0@ == k,
        forall|j: int| 0 <= j < i ==> data[j].0@ != k,
    ensures
        store_find(data, k, 0) == i,
    decreases data.len(),
{
    lemma_store_find_from(data, k, 0, i);
}

proof fn lemma_store_find_from(data: Seq<(Vec<u8>, Vec<Operation>)>, k: Seq<u8>, lo: int, i: int)
    requires
        0 <= lo <= i < data.len(),
        data[i].0@ == k,
        forall|j: int| lo <= j < i ==> data[j].0@ != k,
    ensures
        store_find(data, k, lo) == i,
    decreases i - lo,
{
    if lo < i {
        lemma_store_find_from(data, k, lo + 1, i);
    }
}

/// When no entry from `i` on holds the key, there is no match.
proof fn lemma_store_find_none(data: Seq<(Vec<u8>, Vec<Operation>)>, k: Seq<u8>, i: int)
    requires
        0 <= i,
        forall|j: int| i <= j < data.len() ==> data[j].0@ != k,
    ensures
        store_find(data, k, i) == -1,
    decreases data.len() - i,
{
    if i < data.len() {
        lemma_store_find_none(data, k, i + 1);
    }
}

/// Two stores with pointwise equal keys find every key at the same entry.
proof fn lemma_store_find_keys(
    d1: Seq<(Vec<u8>, Vec<Operation>)>,
    d2: Seq<(Vec<u8>, Vec<Operation>)>,
    k: Seq<u8>,
    i: int,
)
    requires
        d1.len() == d2.len(),
        forall|x: int| 0 <= x < d1.len() ==> d1[x].0@ == d2[x].0@,
        0 <= i,
    ensures
        store_find(d1, k, i) == store_find(d2, k, i),
    decreases d1.len() - i,
{
    if i < d1.len() {
        lemma_store_find_keys(d1, d2, k, i + 1);
    }
}

/// Appending an entry leaves every other key's search unchanged, and
/// resolves the new entry's key to it if it was absent.
proof fn lemma_store_find_push(
    data: Seq<(Vec<u8>, Vec<Operation>)>,
    e: (Vec<u8>, Vec<Operation>),
    k: Seq<u8>,
    i: int,
)
    requires
        0 <= i,
    ensures
        k != e.0@ ==> store_find(data.push(e), k, i) == store_find(data, k, i),
        k == e.0@ && store_find(data, k, i) == -1 && i <= data.len() ==> store_find(
            data.push(e),
            k,
            i,
        ) == data.len(),
        k == e.0@ && store_find(data, k, i) != -1 ==> store_find(data.push(e), k, i) == store_find(
            data,
            k,
            i,
        ),
    decreases data.len() + 1 - i,
{
    if i < data.len() + 1 {
        if i < data.len() {
            lemma_store_find_push(data, e, k, i + 1);
        } else {
            assert(store_find(data, k, i) == -1);
            assert(store_find(data.push(e), k, i + 1) == -1);
        }
    } else {
        assert(store_find(data, k, i) == -1);
        assert(store_find(data.push(e), k, i) == -1);
    }
}

/// A found store entry is in bounds and holds the searched key.
proof fn lemma_store_find_props(data: Seq<(Vec<u8>, Vec<Operation>)>, k: Seq<u8>, i: int)
    requires
        0 <= i,
    ensures
        store_find(data, k, i) != -1 ==> i <= store_find(data, k, i) < data.len() && data[store_find(
            data,
            k,
            i,
        )].0@ == k,
    decreases data.len() - i,
{
    if 0 <= i < data.len() && data[i].0@ != k {
        lemma_store_find_props(data, k, i + 1);
    }
}

/// A found cache entry is in bounds and holds the searched key.
proof fn lemma_cache_find_props(cache: Seq<(Vec<u8>, Operation)>, k: Seq<u8>, i: int)
    requires
        0 <= i,
    ensures
        cache_find(cache, k, i) != -1 ==> i <= cache_find(cache, k, i) < cache.len()
            && cache[cache_find(cache, k, i)].0@ == k,
    decreases cache.len() - i,
{
    if 0 <= i < cache.len() && cache[i].0@ != k {
        lemma_cache_find_props(cache, k, i + 1);
    }
}

/// A transaction over the in-memory backend: a private write cache keyed
/// by key, and the snapshot timestamp reads use.
#[derive(Debug)]
pub struct MemTransaction {
    pub cache: Vec<(Vec<u8>, Operation)>,
    pub start_ts: u64,
}

/// The first cache entry with this key, or -1.
pub open spec fn cache_find(cache: Seq<(Vec<u8>, Operation)>, k: Seq<u8>, i: int) -> int
    decreases cache.len() - i,
{
    if i < 0 || i >= cache.len() {
        -1
    } else if cache[i].0@ == k {
        i
    } else {
        cache_find(cache, k, i + 1)
    }
}

impl MemTransaction {
    /// Cache keys are unique, so a staged write fully replaces the prior
    /// staged write on the same key.
    pub open spec fn wf(&self) -> bool {
        forall|i: int, j: int|
            0 <= i < j < self.cache@.len() ==> self.cache@[i].0@ != self.cache@[j].0@
    }

    /// The staged operation on a key, if any.
    pub open spec fn cache_get(&self, k: Seq<u8>) -> Option<OpView> {
        let i = cache_find(self.cache@, k, 0);
        if i == -1 {
            None
        } else {
            Some(self.cache@[i].1@)
        }
    }

    pub fn new(start_ts: u64) -> (r: MemTransaction)
        ensures
            r.wf(),
            r.start_ts == start_ts,
            forall|k: Seq<u8>| r.cache_get(k) is None,
    {
        MemTransaction { cache: Vec::new(), start_ts }
    }

    /// The first cache entry holding this key.
    fn find_cached(&self, key: &[u8]) -> (r: Option<usize>)
        ensures
            match r {
                Some(i) => i < self.cache@.len() && self.cache@[i as int].0@ == key@ && cache_find(
                    self.cache@,
                    key@,
                    0,
                ) == i,
                None => cache_find(self.cache@, key@, 0) == -1,
            },
    {
        let n = self.cache.len();
        let mut i: usize = 0;
        while i < n
            invariant
                i <= n,
                n == self.cache@.len(),
                forall|j: int| 0 <= j < i ==> self.cache@[j].0@ != key@,
            decreases n - i,
        {
            if bytes_eq(&self.cache[i].0, key) {
                proof {
                    lemma_cache_find_from(self.cache@, key@, 0, i as int);
                }
                return Some(i);
            }
            i += 1;
        }
        proof {
            lemma_cache_find_none(self.cache@, key@, 0);
        }
        None
    }

    /// Stage an operation, replacing any staged write on the same key.
    fn stage(&mut self, key: &[u8], op: Operation) -> (r: MySQLResult<()>)
        requires
            old(self).wf(),
        ensures
            r is Ok,
            final(self).wf(),
            final(self).start_ts == old(self).start_ts,
            final(self).cache_get(key@) == Some(op@),
            forall|k: Seq<u8>| k != key@ ==> final(self).cache_get(k) == old(self).cache_get(k),
    {
        let kv = vstd::slice::slice_to_vec(key);
        match self.find_cached(key) {
            Some(i) => {
                let ghost cache0 = self.cache@;
                let e = vstd::std_specs::vec::vec_index_mut(&mut self.cache, i);
                *e = (kv, op);
                proof {
                    assert(forall|x: int|
                        0 <= x < self.cache@.len() ==> self.cache@[x].0@ == cache0[x].0@);
                    assert(final(self).wf());
                    lemma_cache_keys(cache0, self.cache@, key@, 0);
                    assert forall|k: Seq<u8>| k != key@ implies final(self).cache_get(k) == old(
                        self,
                    ).cache_get(k) by {
                        lemma_cache_keys(cache0, self.cache@, k, 0);
                        lemma_cache_find_props(cache0, k, 0);
                        lemma_cache_find_props(self.cache@, k, 0);
                    }
                }
                Ok(())
            },
            None => {
                let ghost cache0 = self.cache@;
                self.cache.push((kv, op));
                proof {
                    assert forall|i2: int, j2: int|
                        0 <= i2 < j2 < self.cache@.len() implies self.cache@[i2].0@
                        != self.cache@[j2].0@ by {
                        if j2 == self.cache@.len() - 1 {
                            lemma_cache_find_visible(cache0, key@, i2);
                        }
                    }
                    lemma_cache_find_push(cache0, (kv, op), key@, 0);
                    assert forall|k: Seq<u8>| k != key@ implies final(self).cache_get(k) == old(
                        self,
                    ).cache_get(k) by {
                        lemma_cache_find_push(cache0, (kv, op), k, 0);
                        lemma_cache_find_props(cache0, k, 0);
                        lemma_cache_find_props(self.cache@, k, 0);
                    }
                }
                Ok(())
            },
        }
    }

    /// Stage a put of this value.
    pub fn put(&mut self, key: &[u8], value: &[u8]) -> (r: MySQLResult<()>)
        requires
            old(self).wf(),
        ensures
            r is Ok,
            final(self).wf(),
            final(self).start_ts == old(self).start_ts,
            final(self).cache_get(key@) == Some(OpView::Put(value@, old(self).start_ts)),
            forall|k: Seq<u8>| k != key@ ==> final(self).cache_get(k) == old(self).cache_get(k),
    {
        let vv = vstd::slice::slice_to_vec(value);
        let ts = self.start_ts;
        self.stage(key, Operation::Put(vv, ts))
    }

    /// Stage a delete.
    pub fn delete(&mut self, key: &[u8]) -> (r: MySQLResult<()>)
        requires
            old(self).wf(),
        ensures
            r is Ok,
            final(self).wf(),
            final(self).start_ts == old(self).start_ts,
            final(self).cache_get(key@) == Some(OpView::Delete(old(self).start_ts)),
            forall|k: Seq<u8>| k != key@ ==> final(self).cache_get(k) == old(self).cache_get(k),
    {
        let ts = self.start_ts;
        self.stage(key, Operation::Delete(ts))
    }

    /// Read a key: a staged write wins, otherwise the newest committed
    /// version no newer than the snapshot timestamp.
    pub fn get(&self, storage: &MemStorage, key: &[u8]) -> (r: MySQLResult<Option<Vec<u8>>>)
        requires
            storage.wf(),
        ensures
            match r {
                Ok(v) => {
                    let expected = match self.cache_get(key@) {
                        Some(OpView::Put(b, _)) => Some(b),
                        Some(OpView::Delete(_)) => None,
                        None => visible_at(storage.stack(key@), self.start_ts),
                    };
                    match v {
                        Some(b) => expected == Some(b@),
                        None => expected is None,
                    }
                },
                Err(_) => false,
            },
    {
        match self.find_cached(key) {
            Some(i) => {
                match &self.cache[i].1 {
                    Operation::Put(v, _) => {
                        let c = v.clone();
                        proof {
                            assert(c@ =~= v@);
                        }
                        Ok(Some(c))
                    },
                    Operation::Delete(_) => Ok(None),
                }
            },
            None => {
                match storage.find_entry(key) {
                    None => Ok(None),
                    Some(ei) => {
                        let stack = &storage.data[ei].1;
                        let ghost sv = storage.stack(key@);
                        proof {
                            assert(sv.len() == stack@.len());
                            assert(forall|j: int| 0 <= j < sv.len() ==> sv[j] == stack@[j]@);
                        }
                        proof {
                            assert(sv.subrange(0, sv.len() as int) =~= sv);
                        }
                        let mut idx: usize = stack.len();
                        while idx > 0
                            invariant
                                idx <= stack@.len(),
                                sv.len() == stack@.len(),
                                sv == storage.stack(key@),
                                self.cache_get(key@) is None,
                                forall|j: int| 0 <= j < sv.len() ==> sv[j] == stack@[j]@,
                                visible_at(sv, self.start_ts) == visible_at(
                                    sv.subrange(0, idx as int),
                                    self.start_ts,
                                ),
                            decreases idx,
                        {
                            let ghost pre = sv.subrange(0, idx as int);
                            proof {
                                assert(pre.drop_last() =~= sv.subrange(0, idx - 1));
                                assert(pre.last() == stack@[idx - 1]@);
                            }
                            match &stack[idx - 1] {
                                Operation::Put(v, ts) => {
                                    if *ts <= self.start_ts {
                                        let c = v.clone();
                                        proof {
                                            assert(c@ =~= v@);
                                        }
                                        return Ok(Some(c));
                                    }
                                },
                                Operation::Delete(ts) => {
                                    if *ts <= self.start_ts {
                                        return Ok(None);
                                    }
                                },
                            }
                            idx -= 1;
                        }
                        proof {
                            assert(sv.subrange(0, 0) =~= Seq::<OpView>::empty());
                        }
                        Ok(None)
                    },
                }
            },
        }
    }

    /// Commit: append every staged operation to its key's version stack,
    /// under one lock in the shared backend. There is no conflict
    /// detection; a concurrent writer's versions simply precede ours.
    pub fn commit(&self, storage: &mut MemStorage) -> (r: MySQLResult<()>)
        requires
            old(storage).wf(),
            self.wf(),
        ensures
            r is Ok,
            final(storage).wf(),
            final(storage).last_commit_ts == old(storage).last_commit_ts,
            forall|k: Seq<u8>|
                final(storage).stack(k) == match self.cache_get(k) {
                    Some(op) => old(storage).stack(k).push(op),
                    None => old(storage).stack(k),
                },
    {
        let n = self.cache.len();
        let mut i: usize = 0;
        while i < n
            invariant
                i <= n,
                n == self.cache@.len(),
                self.wf(),
                storage.wf(),
                storage.last_commit_ts == old(storage).last_commit_ts,
                forall|k: Seq<u8>|
                    storage.stack(k) == match cache_get_upto(self.cache@, i as int, k) {
                        Some(op) => old(storage).stack(k).push(op),
                        None => old(storage).stack(k),
                    },
            decreases n - i,
        {
            let key = &self.cache[i].0;
            let op = self.cache[i].1.clone();
            proof {
                assert(forall|j: int| 0 <= j < i ==> self.cache@[j].0@ != key@);
                lemma_cache_get_upto_miss(self.cache@, i as int, key@);
            }
            apply_op(storage, key, op);
            proof {
                assert forall|k: Seq<u8>|
                    storage.stack(k) == (match cache_get_upto(self.cache@, i + 1, k) {
                        Some(op2) => old(storage).stack(k).push(op2),
                        None => old(storage).stack(k),
                    }) by {
                    lemma_cache_get_upto_step(self.cache@, i as int, k);
                }
            }
            i += 1;
        }
        proof {
            assert forall|k: Seq<u8>|
                final(storage).stack(k) == (match self.cache_get(k) {
                    Some(op) => old(storage).stack(k).push(op),
                    None => old(storage).stack(k),
                }) by {
                lemma_cache_get_upto_full(self.cache@, k);
            }
        }
        Ok(())
    }

    pub fn get_start_time(&self) -> (r: u64)
        ensures
            r == self.start_ts,
    {
        self.start_ts
    }
}

/// The staged operation among the first `n` cache entries.
pub open spec fn cache_get_upto(cache: Seq<(Vec<u8>, Operation)>, n: int, k: Seq<u8>) -> Option<
    OpView,
> {
    let i = cache_find(cache.subrange(0, n), k, 0);
    if i == -1 {
        None
    } else {
        Some(cache.subrange(0, n)[i].1@)
    }
}

proof fn lemma_cache_find_from(cache: Seq<(Vec<u8>, Operation)>, k: Seq<u8>, lo: int, i: int)
    requires
        0 <= lo <= i < cache.len(),
        cache[i].0@ == k,
        forall|j: int| lo <= j < i ==> cache[j].0@ != k,
    ensures
        cache_find(cache, k, lo) == i,
    decreases i - lo,
{
    if lo < i {
        lemma_cache_find_from(cache, k, lo + 1, i);
    }
}

proof fn lemma_cache_find_none(cache: Seq<(Vec<u8>, Operation)>, k: Seq<u8>, i: int)
    requires
        0 <= i,
        forall|j: int| i <= j < cache.len() ==> cache[j].0@ != k,
    ensures
        cache_find(cache, k, i) == -1,
    decreases cache.len() - i,
{
    if i < cache.len() {
        lemma_cache_find_none(cache, k, i + 1);
    }
}

proof fn lemma_cache_keys(
    c1: Seq<(Vec<u8>, Operation)>,
    c2: Seq<(Vec<u8>, Operation)>,
    k: Seq<u8>,
    i: int,
)
    requires
        c1.len() == c2.len(),
        forall|x: int| 0 <= x < c1.len() ==> c1[x].0@ == c2[x].0@,
        0 <= i,
    ensures
        cache_find(c1, k, i) == cache_find(c2, k, i),
    decreases c1.len() - i,
{
    if i < c1.len() {
        lemma_cache_keys(c1, c2, k, i + 1);
    }
}

proof fn lemma_cache_find_push(
    cache: Seq<(Vec<u8>, Operation)>,
    e: (Vec<u8>, Operation),
    k: Seq<u8>,
    i: int,
)
    requires
        0 <= i,
    ensures
        k != e.0@ ==> cache_find(cache.push(e), k, i) == cache_find(cache, k, i),
        k == e.0@ && cache_find(cache, k, i) == -1 && i <= cache.len() ==> cache_find(
            cache.push(e),
            k,
            i,
        ) == cache.len(),
        k == e.0@ && cache_find(cache, k, i) != -1 ==> cache_find(cache.push(e), k, i)
            == cache_find(cache, k, i),
    decreases cache.len() + 1 - i,
{
    if i < cache.len() + 1 {
        if i < cache.len() {
            lemma_cache_find_push(cache, e, k, i + 1);
        } else {
            assert(cache_find(cache, k, i) == -1);
            assert(cache_find(cache.push(e), k, i + 1) == -1);
        }
    } else {
        assert(cache_find(cache, k, i) == -1);
        assert(cache_find(cache.push(e), k, i) == -1);
    }
}

/// A found index names an entry whose key is the searched key, and search
/// results sit inside the cache.
proof fn lemma_cache_find_visible(cache: Seq<(Vec<u8>, Operation)>, k: Seq<u8>, i: int)
    requires
        0 <= i < cache.len(),
    ensures
        cache[i].0@ == k ==> cache_find(cache, k, 0) != -1,
{
    if cache[i].0@ == k {
        lemma_cache_find_found(cache, k, 0, i);
    }
}

proof fn lemma_cache_find_found(cache: Seq<(Vec<u8>, Operation)>, k: Seq<u8>, lo: int, i: int)
    requires
        0 <= lo <= i < cache.len(),
        cache[i].0@ == k,
    ensures
        cache_find(cache, k, lo) != -1,
    decreases i - lo,
{
    if cache[lo].0@ != k {
        lemma_cache_find_found(cache, k, lo + 1, i);
    }
}

/// When the first `i` entries miss a key, so does the prefix lookup.
proof fn lemma_cache_get_upto_miss(cache: Seq<(Vec<u8>, Operation)>, i: int, k: Seq<u8>)
    requires
        0 <= i <= cache.len(),
        forall|j: int| 0 <= j < i ==> cache[j].0@ != k,
    ensures
        cache_get_upto(cache, i, k) is None,
{
    let pre = cache.subrange(0, i);
    assert(forall|j: int| 0 <= j < pre.len() ==> pre[j].0@ != k);
    lemma_cache_find_none(pre, k, 0);
}

/// Extending the processed prefix by entry `i` changes only that entry's
/// key.
proof fn lemma_cache_get_upto_step(cache: Seq<(Vec<u8>, Operation)>, i: int, k: Seq<u8>)
    requires
        0 <= i < cache.len(),
        forall|a: int, b: int| 0 <= a < b < cache.len() ==> cache[a].0@ != cache[b].0@,
    ensures
        k == cache[i].0@ ==> cache_get_upto(cache, i + 1, k) == Some(cache[i].1@),
        k != cache[i].0@ ==> cache_get_upto(cache, i + 1, k) == cache_get_upto(cache, i, k),
{
    let pre = cache.subrange(0, i);
    let cur = cache.subrange(0, i + 1);
    assert(cur =~= pre.push(cache[i]));
    if k == cache[i].0@ {
        assert(forall|j: int| 0 <= j < pre.len() ==> pre[j].0@ != k);
        lemma_cache_find_none(pre, k, 0);
        lemma_cache_find_push(pre, cache[i], k, 0);
    } else {
        lemma_cache_find_push(pre, cache[i], k, 0);
        lemma_cache_find_props(pre, k, 0);
        lemma_cache_find_props(cur, k, 0);
    }
}

/// The full prefix lookup is the cache lookup.
proof fn lemma_cache_get_upto_full(cache: Seq<(Vec<u8>, Operation)>, k: Seq<u8>)
    ensures
        ({
            let i = cache_find(cache, k, 0);
            cache_get_upto(cache, cache.len() as int, k) == if i == -1 {
                None
            } else {
                Some(cache[i].1@)
            }
        }),
{
    assert(cache.subrange(0, cache.len() as int) =~= cache);
}

/// Append one operation to a key's version stack, creating the entry if
/// the key is new.
fn apply_op(storage: &mut MemStorage, key: &Vec<u8>, op: Operation)
    requires
        old(storage).wf(),
    ensures
        final(storage).wf(),
        final(storage).last_commit_ts == old(storage).last_commit_ts,
        final(storage).stack(key@) == old(storage).stack(key@).push(op@),
        forall|k: Seq<u8>| k != key@ ==> final(storage).stack(k) == old(storage).stack(k),
{
    let ghost data0 = storage.data@;
    let ghost opv = op@;
    match storage.find_entry(key.as_slice()) {
        Some(i) => {
            let e = vstd::std_specs::vec::vec_index_mut(&mut storage.data, i);
            e.1.push(op);
            proof {
                assert(forall|x: int|
                    0 <= x < storage.data@.len() ==> storage.data@[x].0@ == data0[x].0@);
                assert(final(storage).wf());
                assert forall|k: Seq<u8>|
                    final(storage).stack(k) == (if k == key@ {
                        old(storage).stack(k).push(opv)
                    } else {
                        old(storage).stack(k)
                    }) by {
                    lemma_store_find_keys(data0, storage.data@, k, 0);
                    lemma_store_find_props(data0, k, 0);
                    lemma_store_find_props(storage.data@, k, 0);
                    if k == key@ {
                        assert(storage.data@[i as int].1@ =~= data0[i as int].1@.push(op));
                        assert(final(storage).stack(k) =~= old(storage).stack(k).push(opv));
                    } else {
                        let f = store_find(data0, k, 0);
                        if f != -1 {
                            assert(f != i);
                            assert(storage.data@[f].1@ == data0[f].1@);
                            assert(final(storage).stack(k) =~= old(storage).stack(k));
                        }
                    }
                }
            }
        },
        None => {
            let kv = key.clone();
            proof {
                assert(kv@ =~= key@);
            }
            let mut stack: Vec<Operation> = Vec::new();
            stack.push(op);
            storage.data.push((kv, stack));
            proof {
                assert forall|i2: int, j2: int|
                    0 <= i2 < j2 < storage.data@.len() implies storage.data@[i2].0@
                    != storage.data@[j2].0@ by {
                    if j2 == storage.data@.len() - 1 {
                        if storage.data@[i2].0@ == key@ {
                            lemma_store_find_found(data0, key@, 0, i2);
                        }
                    }
                }
                assert forall|k: Seq<u8>|
                    final(storage).stack(k) == (if k == key@ {
                        old(storage).stack(k).push(opv)
                    } else {
                        old(storage).stack(k)
                    }) by {
                    lemma_store_find_push(data0, storage.data@.last(), k, 0);
                    lemma_store_find_props(data0, k, 0);
                    lemma_store_find_props(storage.data@, k, 0);
                    if k == key@ {
                        assert(old(storage).stack(k) =~= Seq::<OpView>::empty());
                        assert(final(storage).stack(k) =~= seq![opv]);
                        assert(old(storage).stack(k).push(opv) =~= seq![opv]);
                    } else {
                        if store_find(data0, k, 0) != -1 {
                            assert(final(storage).stack(k) =~= old(storage).stack(k));
                        }
                    }
                }
            }
        },
    }
}

proof fn lemma_store_find_found(data: Seq<(Vec<u8>, Vec<Operation>)>, k: Seq<u8>, lo: int, i: int)
    requires
        0 <= lo <= i < data.len(),
        data[i].0@ == k,
    ensures
        store_find(data, k, lo) != -1,
    decreases i - lo,
{
    if data[lo].0@ != k {
        lemma_store_find_found(data, k, lo + 1, i);
    }
}

} // verus!
