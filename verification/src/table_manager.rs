use vstd::prelude::*;
use crate::errors::{MySQLError, MySQLResult};
use crate::schema::TableInfo;
use crate::table::{table_wf, TableSource};

verus! {

/// The first catalog entry with this lowercase table name, or -1.
pub open spec fn mgr_find(tables: Seq<TableSource>, name: Seq<char>, i: int) -> int
    decreases tables.len() - i,
{
    if i < 0 || i >= tables.len() {
        -1
    } else if tables[i].meta@.name == name {
        i
    } else {
        mgr_find(tables, name, i + 1)
    }
}

/// The catalog: every public table under its lowercase name, the id
/// counter for new tables, and the revision counter that stamps each
/// published `TableSource` so cached copies can detect staleness.
#[derive(Debug)]
pub struct DBTableManager {
    pub tables: Vec<TableSource>,
    pub max_table_id: u64,
    pub revision_counter: u64,
}

impl DBTableManager {
    /// Names unique, every entry well-formed.
    pub open spec fn wf(&self) -> bool {
        &&& forall|i: int, j: int|
            0 <= i < j < self.tables@.len() ==> self.tables@[i].meta@.name
                != self.tables@[j].meta@.name
        &&& forall|i: int| 0 <= i < self.tables@.len() ==> (#[trigger] self.tables@[i]).wf()
    }

    /// The published source for a name; meaningful when found.
    pub open spec fn entry_at(&self, name: Seq<char>) -> int {
        mgr_find(self.tables@, name, 0)
    }

    pub fn new() -> (r: DBTableManager)
        ensures
            r.wf(),
            r.tables@.len() == 0,
    {
        DBTableManager { tables: Vec::new(), max_table_id: 0, revision_counter: 0 }
    }

    fn find(&self, name: &String) -> (r: Option<usize>)
        ensures
            match r {
                Some(i) => i < self.tables@.len() && self.tables@[i as int].meta@.name == name@
                    && self.entry_at(name@) == i,
                None => self.entry_at(name@) == -1,
            },
    {
        let n = self.tables.len();
        let mut i: usize = 0;
        while i < n
            invariant
                i <= n,
                n == self.tables@.len(),
                forall|j: int| 0 <= j < i ==> self.tables@[j].meta@.name != name@,
            decreases n - i,
        {
            if crate::schema::string_eq(&self.tables[i].meta.name, name) {
                proof {
                    lemma_mgr_find_from(self.tables@, name@, 0, i as int);
                }
                return Some(i);
            }
            i += 1;
        }
        proof {
            lemma_mgr_find_none(self.tables@, name@, 0);
        }
        None
    }

    /// Publish a table under this name: assign the next table id, stamp a
    /// fresh revision, and insert or replace the entry. Any copy cached
    /// under an older revision becomes detectably stale.
    pub fn add_table(&mut self, name: &String, table_info: TableInfo) -> (r: MySQLResult<
        TableSource,
    >)
        requires
            old(self).wf(),
            table_wf(table_info@),
            table_info@.name == name@,
        ensures
            final(self).wf(),
            match r {
                Ok(t) => {
                    &&& t.wf()
                    &&& t.meta@.name == name@
                    &&& t.meta@.columns == table_info@.columns
                    &&& t.meta@.indices == table_info@.indices
                    &&& t.meta@.max_row_id == table_info@.max_row_id
                    // The table is assigned the next id, and the counter
                    // advances to it.
                    &&& t.meta@.id == (if old(self).max_table_id == u64::MAX {
                        0u64
                    } else {
                        (old(self).max_table_id + 1) as u64
                    })
                    &&& final(self).max_table_id == t.meta@.id
                    &&& final(self).entry_at(name@) >= 0
                    &&& ({
                        let e = final(self).tables@[final(self).entry_at(name@)];
                        e.meta@ == t.meta@ && e.revision == t.revision && e.id == t.id
                    })
                    &&& forall|n2: Seq<char>|
                        n2 != name@ ==> lookup_meta(*final(self), n2) == lookup_meta(
                            *old(self),
                            n2,
                        )
                },
                Err(_) => false,
            },
    {
        let mut info = table_info;
        let new_id: u64 = if self.max_table_id == u64::MAX {
            0
        } else {
            self.max_table_id + 1
        };
        self.max_table_id = new_id;
        info.id = new_id;
        let new_rev: u64 = if self.revision_counter == u64::MAX {
            0
        } else {
            self.revision_counter + 1
        };
        self.revision_counter = new_rev;
        let source = TableSource::new(info, new_rev);
        let r = source.clone();
        let ghost tables0 = self.tables@;
        match self.find(name) {
            Some(i) => {
                let e = vstd::std_specs::vec::vec_index_mut(&mut self.tables, i);
                *e = source;
                proof {
                    assert(final(self).wf());
                    lemma_mgr_find_names(tables0, self.tables@, name@, 0);
                    assert forall|n2: Seq<char>| n2 != name@ implies lookup_meta(*final(self), n2)
                        == lookup_meta(*old(self), n2) by {
                        lemma_mgr_find_names(tables0, self.tables@, n2, 0);
                        lemma_mgr_find_props(tables0, n2, 0);
                        lemma_mgr_find_props(self.tables@, n2, 0);
                    }
                }
                Ok(r)
            },
            None => {
                self.tables.push(source);
                proof {
                    assert forall|i2: int, j2: int|
                        0 <= i2 < j2 < self.tables@.len() implies self.tables@[i2].meta@.name
                        != self.tables@[j2].meta@.name by {
                        if j2 == self.tables@.len() - 1 {
                            if tables0[i2].meta@.name == name@ {
                                lemma_mgr_find_found(tables0, name@, 0, i2);
                            }
                        }
                    }
                    lemma_mgr_find_push(tables0, self.tables@.last(), name@, 0);
                    assert forall|n2: Seq<char>| n2 != name@ implies lookup_meta(*final(self), n2)
                        == lookup_meta(*old(self), n2) by {
                        lemma_mgr_find_push(tables0, self.tables@.last(), n2, 0);
                        lemma_mgr_find_props(tables0, n2, 0);
                        lemma_mgr_find_props(self.tables@, n2, 0);
                    }
                }
                Ok(r)
            },
        }
    }

    /// Replace a table's published source, stamping a fresh revision so
    /// readers holding the old one refresh. The table keeps its id.
    pub fn replace_table(&mut self, name: &String, table_info: TableInfo) -> (r: MySQLResult<
        TableSource,
    >)
        requires
            old(self).wf(),
            table_wf(table_info@),
            table_info@.name == name@,
        ensures
            final(self).wf(),
            match r {
                Ok(t) => {
                    &&& t.wf()
                    &&& t.meta@ == table_info@
                    &&& final(self).entry_at(name@) >= 0
                    &&& ({
                        let e = final(self).tables@[final(self).entry_at(name@)];
                        e.meta@ == t.meta@ && e.revision == t.revision
                    })
                    &&& forall|n2: Seq<char>|
                        n2 != name@ ==> lookup_meta(*final(self), n2) == lookup_meta(
                            *old(self),
                            n2,
                        )
                },
                Err(_) => false,
            },
    {
        let new_rev: u64 = if self.revision_counter == u64::MAX {
            0
        } else {
            self.revision_counter + 1
        };
        self.revision_counter = new_rev;
        let source = TableSource::new(table_info, new_rev);
        let r = source.clone();
        let ghost tables0 = self.tables@;
        match self.find(name) {
            Some(i) => {
                let e = vstd::std_specs::vec::vec_index_mut(&mut self.tables, i);
                *e = source;
                proof {
                    assert(final(self).wf());
                    lemma_mgr_find_names(tables0, self.tables@, name@, 0);
                    assert forall|n2: Seq<char>| n2 != name@ implies lookup_meta(*final(self), n2)
                        == lookup_meta(*old(self), n2) by {
                        lemma_mgr_find_names(tables0, self.tables@, n2, 0);
                        lemma_mgr_find_props(tables0, n2, 0);
                        lemma_mgr_find_props(self.tables@, n2, 0);
                    }
                }
                Ok(r)
            },
            None => {
                self.tables.push(source);
                proof {
                    assert forall|i2: int, j2: int|
                        0 <= i2 < j2 < self.tables@.len() implies self.tables@[i2].meta@.name
                        != self.tables@[j2].meta@.name by {
                        if j2 == self.tables@.len() - 1 {
                            if tables0[i2].meta@.name == name@ {
                                lemma_mgr_find_found(tables0, name@, 0, i2);
                            }
                        }
                    }
                    lemma_mgr_find_push(tables0, self.tables@.last(), name@, 0);
                    assert forall|n2: Seq<char>| n2 != name@ implies lookup_meta(*final(self), n2)
                        == lookup_meta(*old(self), n2) by {
                        lemma_mgr_find_push(tables0, self.tables@.last(), n2, 0);
                        lemma_mgr_find_props(tables0, n2, 0);
                        lemma_mgr_find_props(self.tables@, n2, 0);
                    }
                }
                Ok(r)
            },
        }
    }

    /// The published source for a name, cloned.
    pub fn get_table(&self, name: &String) -> (r: Option<TableSource>)
        requires
            self.wf(),
        ensures
            match r {
                Some(t) => {
                    &&& self.entry_at(name@) >= 0
                    &&& t.meta@.name == name@
                    &&& t.meta@ == self.tables@[self.entry_at(name@)].meta@
                    &&& t.revision == self.tables@[self.entry_at(name@)].revision
                    &&& t.id == self.tables@[self.entry_at(name@)].id
                    &&& t.wf()
                },
                None => self.entry_at(name@) == -1,
            },
    {
        match self.find(name) {
            Some(i) => {
                let t = self.tables[i].clone();
                proof {
                    assert(self.tables@[i as int].wf());
                    assert(t.wf());
                }
                Some(t)
            },
            None => None,
        }
    }
}

/// What a lookup by name observes: the published metadata and revision.
pub open spec fn lookup_meta(mgr: DBTableManager, name: Seq<char>) -> Option<
    (crate::schema::TableMeta, u64, u64),
> {
    let i = mgr_find(mgr.tables@, name, 0);
    if i == -1 {
        None
    } else {
        Some((mgr.tables@[i].meta@, mgr.tables@[i].revision, mgr.tables@[i].id))
    }
}

proof fn lemma_mgr_find_from(tables: Seq<TableSource>, name: Seq<char>, lo: int, i: int)
    requires
        0 <= lo <= i < tables.len(),
        tables[i].meta@.name == name,
        forall|j: int| lo <= j < i ==> tables[j].meta@.name != name,
    ensures
        mgr_find(tables, name, lo) == i,
    decreases i - lo,
{
    if lo < i {
        lemma_mgr_find_from(tables, name, lo + 1, i);
    }
}

proof fn lemma_mgr_find_none(tables: Seq<TableSource>, name: Seq<char>, i: int)
    requires
        0 <= i,
        forall|j: int| i <= j < tables.len() ==> tables[j].meta@.name != name,
    ensures
        mgr_find(tables, name, i) == -1,
    decreases tables.len() - i,
{
    if i < tables.len() {
        lemma_mgr_find_none(tables, name, i + 1);
    }
}

proof fn lemma_mgr_find_names(
    t1: Seq<TableSource>,
    t2: Seq<TableSource>,
    name: Seq<char>,
    i: int,
)
    requires
        t1.len() == t2.len(),
        forall|x: int| 0 <= x < t1.len() ==> t1[x].meta@.name == t2[x].meta@.name,
        0 <= i,
    ensures
        mgr_find(t1, name, i) == mgr_find(t2, name, i),
    decreases t1.len() - i,
{
    if i < t1.len() {
        lemma_mgr_find_names(t1, t2, name, i + 1);
    }
}

proof fn lemma_mgr_find_push(tables: Seq<TableSource>, e: TableSource, name: Seq<char>, i: int)
    requires
        0 <= i,
    ensures
        name != e.meta@.name ==> mgr_find(tables.push(e), name, i) == mgr_find(tables, name, i),
        name == e.meta@.name && mgr_find(tables, name, i) == -1 && i <= tables.len() ==> mgr_find(
            tables.push(e),
            name,
            i,
        ) == tables.len(),
        name == e.meta@.name && mgr_find(tables, name, i) != -1 ==> mgr_find(
            tables.push(e),
            name,
            i,
        ) == mgr_find(tables, name, i),
    decreases tables.len() + 1 - i,
{
    if i < tables.len() + 1 {
        if i < tables.len() {
            lemma_mgr_find_push(tables, e, name, i + 1);
        } else {
            assert(mgr_find(tables, name, i) == -1);
            assert(mgr_find(tables.push(e), name, i + 1) == -1);
        }
    } else {
        assert(mgr_find(tables, name, i) == -1);
        assert(mgr_find(tables.push(e), name, i) == -1);
    }
}

proof fn lemma_mgr_find_props(tables: Seq<TableSource>, name: Seq<char>, i: int)
    requires
        0 <= i,
    ensures
        mgr_find(tables, name, i) != -1 ==> i <= mgr_find(tables, name, i) < tables.len()
            && tables[mgr_find(tables, name, i)].meta@.name == name,
    decreases tables.len() - i,
{
    if 0 <= i < tables.len() && tables[i].meta@.name != name {
        lemma_mgr_find_props(tables, name, i + 1);
    }
}

proof fn lemma_mgr_find_found(tables: Seq<TableSource>, name: Seq<char>, lo: int, i: int)
    requires
        0 <= lo <= i < tables.len(),
        tables[i].meta@.name == name,
    ensures
        mgr_find(tables, name, lo) != -1,
    decreases i - lo,
{
    if tables[lo].meta@.name != name {
        lemma_mgr_find_found(tables, name, lo + 1, i);
    }
}

} // verus!
