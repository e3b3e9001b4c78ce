use vstd::prelude::*;
use vstd::map::*;

use crate::encryption::FileCrypt;
use crate::text::str_eq;

verus! {

/// The record set a vector of records stands for, keyed by identifier.
pub closed spec fn records_map(rs: Seq<FileCrypt>) -> Map<Seq<char>, FileCrypt> {
    Map::new(
        |id: Seq<char>| exists|i: int| 0 <= i < rs.len() && rs[i].uuid@ == id,
        |id: Seq<char>| rs[choose|i: int| 0 <= i < rs.len() && rs[i].uuid@ == id],
    )
}

/// No two records share an identifier.
pub open spec fn unique_ids(rs: Seq<FileCrypt>) -> bool {
    forall|i: int, j: int| 0 <= i < j < rs.len() ==> rs[i].uuid@ != rs[j].uuid@
}

/// Each position of a vector with unique identifiers is one entry of the
/// record set.
proof fn lemma_records_map_entry(rs: Seq<FileCrypt>, i: int)
    requires
        unique_ids(rs),
        0 <= i < rs.len(),
    ensures
        records_map(rs).contains_key(rs[i].uuid@),
        records_map(rs)[rs[i].uuid@] == rs[i],
{
    let id = rs[i].uuid@;
    assert(0 <= i < rs.len() && rs[i].uuid@ == id);
    let j = choose|k: int| 0 <= k < rs.len() && rs[k].uuid@ == id;
    if j != i {
        if i < j {
            assert(rs[i].uuid@ != rs[j].uuid@);
        } else {
            assert(rs[j].uuid@ != rs[i].uuid@);
        }
    }
}

/// An identifier held by no record is outside the record set.
proof fn lemma_records_map_absent(rs: Seq<FileCrypt>, id: Seq<char>)
    requires
        forall|k: int| 0 <= k < rs.len() ==> rs[k].uuid@ != id,
    ensures
        !records_map(rs).contains_key(id),
{
}

/// Every entry of the record set comes from some position of the vector.
proof fn lemma_records_map_covers(rs: Seq<FileCrypt>, id: Seq<char>)
    requires
        unique_ids(rs),
        records_map(rs).contains_key(id),
    ensures
        exists|k: int|
            0 <= k < rs.len() && rs[k].uuid@ == id && records_map(rs)[id] == rs[k],
{
    let j = choose|k: int| 0 <= k < rs.len() && rs[k].uuid@ == id;
    lemma_records_map_entry(rs, j);
}

/// The keeper: the persistent record store, the single source of truth for
/// keys. One record per identifier; the store is its records and nothing
/// else.
pub struct Keeper {
    records: Vec<FileCrypt>,
}

impl View for Keeper {
    type V = Map<Seq<char>, FileCrypt>;

    /// The store viewed as a map from identifier to record.
    closed spec fn view(&self) -> Map<Seq<char>, FileCrypt> {
        records_map(self.records@)
    }
}

impl Keeper {
    /// Internal consistency: unique identifiers, well-formed records.
    pub closed spec fn wf(&self) -> bool {
        &&& unique_ids(self.records@)
        &&& forall|i: int| 0 <= i < self.records@.len() ==> (#[trigger] self.records@[i]).wf()
    }

    /// An empty store.
    pub fn new() -> (r: Self)
        ensures
            r.wf(),
            r@ == Map::<Seq<char>, FileCrypt>::empty(),
    {
        let r = Keeper { records: Vec::new() };
        proof {
            assert forall|id: Seq<char>| !r@.contains_key(id) by {
                lemma_records_map_absent(r.records@, id);
            }
            assert(r@ =~= Map::<Seq<char>, FileCrypt>::empty());
        }
        r
    }

    /// Upsert by identifier: create the record if absent, overwrite every
    /// field if present.
    pub fn insert_or_update(&mut self, record: FileCrypt)
        requires
            old(self).wf(),
            record.wf(),
        ensures
            final(self).wf(),
            final(self)@ == old(self)@.insert(record.uuid@, record),
    {
        let ghost rs = self.records@;
        let ghost u = record.uuid@;
        let n = self.records.len();
        let mut i: usize = 0;
        while i < n
            invariant
                n == self.records@.len(),
                i <= n,
                self.records@ == rs,
                rs == old(self).records@,
                unique_ids(rs),
                forall|k: int| 0 <= k < n ==> (#[trigger] rs[k]).wf(),
                forall|k: int| 0 <= k < i ==> rs[k].uuid@ != u,
                u == record.uuid@,
                record.wf(),
            decreases n - i,
        {
            let same = str_eq(self.records[i].uuid.as_str(), record.uuid.as_str());
            if same {
                self.records[i] = record;
                proof {
                    let rs2 = self.records@;
                    assert(rs2 == rs.update(i as int, record));
                    assert forall|a: int, b: int| 0 <= a < b < rs2.len() implies rs2[a].uuid@
                        != rs2[b].uuid@ by {
                        if a != i && b != i {
                            assert(rs2[a] == rs[a] && rs2[b] == rs[b]);
                        } else if a == i {
                            assert(rs2[b] == rs[b]);
                            assert(rs[i as int].uuid@ == u);
                        } else {
                            assert(rs2[a] == rs[a]);
                            assert(rs[i as int].uuid@ == u);
                        }
                    }
                    assert forall|k: int| 0 <= k < rs2.len() implies (
                    #[trigger] rs2[k]).wf() by {
                        if k != i {
                            assert(rs2[k] == rs[k]);
                        }
                    }
                    assert_maps_equal!(records_map(rs2), records_map(rs).insert(u, record), id => {
                        if id == u {
                            lemma_records_map_entry(rs2, i as int);
                        } else {
                            if records_map(rs2).contains_key(id) {
                                lemma_records_map_covers(rs2, id);
                                let k = choose|k: int| 0 <= k < rs2.len() && rs2[k].uuid@ == id && records_map(rs2)[id] == rs2[k];
                                assert(k != i);
                                assert(rs2[k] == rs[k]);
                                lemma_records_map_entry(rs, k);
                            }
                            if records_map(rs).contains_key(id) {
                                lemma_records_map_covers(rs, id);
                                let k = choose|k: int| 0 <= k < rs.len() && rs[k].uuid@ == id && records_map(rs)[id] == rs[k];
                                assert(k != i);
                                assert(rs2[k] == rs[k]);
                                lemma_records_map_entry(rs2, k);
                            }
                        }
                    });
                }
                return ;
            }
            i = i + 1;
        }
        self.records.push(record);
        proof {
            let rs2 = self.records@;
            assert(rs2 == rs.push(record));
            assert forall|a: int, b: int| 0 <= a < b < rs2.len() implies rs2[a].uuid@
                != rs2[b].uuid@ by {
                if b < rs.len() {
                    assert(rs2[a] == rs[a] && rs2[b] == rs[b]);
                } else {
                    assert(rs2[a] == rs[a] && rs2[b] == record);
                }
            }
            assert forall|k: int| 0 <= k < rs2.len() implies (#[trigger] rs2[k]).wf() by {
                if k < rs.len() {
                    assert(rs2[k] == rs[k]);
                }
            }
            assert_maps_equal!(records_map(rs2), records_map(rs).insert(u, record), id => {
                if id == u {
                    lemma_records_map_entry(rs2, rs.len() as int);
                } else {
                    if records_map(rs2).contains_key(id) {
                        lemma_records_map_covers(rs2, id);
                        let k = choose|k: int| 0 <= k < rs2.len() && rs2[k].uuid@ == id && records_map(rs2)[id] == rs2[k];
                        assert(k < rs.len());
                        assert(rs2[k] == rs[k]);
                        lemma_records_map_entry(rs, k);
                    }
                    if records_map(rs).contains_key(id) {
                        lemma_records_map_covers(rs, id);
                        let k = choose|k: int| 0 <= k < rs.len() && rs[k].uuid@ == id && records_map(rs)[id] == rs[k];
                        assert(rs2[k] == rs[k]);
                        lemma_records_map_entry(rs2, k);
                    }
                }
            });
        }
    }

    /// Look a record up by identifier.
    pub fn get(&self, uuid: &String) -> (r: Option<&FileCrypt>)
        requires
            self.wf(),
        ensures
            r is Some <==> self@.contains_key(uuid@),
            r matches Some(rec) ==> *rec == self@[uuid@] && rec.wf(),
    {
        let n = self.records.len();
        let mut i: usize = 0;
        while i < n
            invariant
                self.wf(),
                n == self.records@.len(),
                i <= n,
                forall|k: int| 0 <= k < i ==> self.records@[k].uuid@ != uuid@,
            decreases n - i,
        {
            let same = str_eq(self.records[i].uuid.as_str(), uuid.as_str());
            if same {
                proof {
                    lemma_records_map_entry(self.records@, i as int);
                }
                return Some(&self.records[i]);
            }
            i = i + 1;
        }
        proof {
            lemma_records_map_absent(self.records@, uuid@);
        }
        None
    }

    /// Find the record of a logical file by its original path, if any.
    pub fn find_by_path(&self, full_path: &String) -> (r: Option<&FileCrypt>)
        requires
            self.wf(),
        ensures
            r matches Some(rec) ==> ({
                &&& self@.contains_key(rec.uuid@)
                &&& self@[rec.uuid@] == *rec
                &&& rec.full_path@ == full_path@
                &&& rec.wf()
            }),
            r is None ==> forall|id: Seq<char>|
                self@.contains_key(id) ==> (#[trigger] self@[id]).full_path@ != full_path@,
    {
        let n = self.records.len();
        let mut i: usize = 0;
        while i < n
            invariant
                self.wf(),
                n == self.records@.len(),
                i <= n,
                forall|k: int| 0 <= k < i ==> self.records@[k].full_path@ != full_path@,
            decreases n - i,
        {
            let same = str_eq(self.records[i].full_path.as_str(), full_path.as_str());
            if same {
                proof {
                    lemma_records_map_entry(self.records@, i as int);
                }
                return Some(&self.records[i]);
            }
            i = i + 1;
        }
        proof {
            assert forall|id: Seq<char>| self@.contains_key(id) implies (
            #[trigger] self@[id]).full_path@ != full_path@ by {
                lemma_records_map_covers(self.records@, id);
            }
        }
        None
    }

    /// All records, in no significant order.
    pub fn list_all(&self) -> (r: &Vec<FileCrypt>)
        requires
            self.wf(),
        ensures
            forall|i: int|
                0 <= i < r@.len() ==> self@.contains_key((#[trigger] r@[i]).uuid@)
                    && self@[r@[i].uuid@] == r@[i],
            forall|id: Seq<char>|
                self@.contains_key(id) ==> exists|i: int|
                    0 <= i < r@.len() && (#[trigger] r@[i]).uuid@ == id,
            forall|i: int| 0 <= i < r@.len() ==> (#[trigger] r@[i]).wf(),
    {
        proof {
            assert forall|i: int| 0 <= i < self.records@.len() implies self@.contains_key((
            #[trigger] self.records@[i]).uuid@) && self@[self.records@[i].uuid@]
                == self.records@[i] by {
                lemma_records_map_entry(self.records@, i);
            }
        }
        &self.records
    }

    /// The number of records held.
    pub fn len(&self) -> (r: usize)
        requires
            self.wf(),
        ensures
            r == self@.dom().len(),
    {
        proof {
            lemma_records_map_len(self.records@);
        }
        self.records.len()
    }

    /// Irreversible purge of the whole store; all or nothing.
    pub fn delete_all(&mut self)
        ensures
            final(self).wf(),
            final(self)@ == Map::<Seq<char>, FileCrypt>::empty(),
    {
        self.records.clear();
        proof {
            assert forall|id: Seq<char>| !self@.contains_key(id) by {
                lemma_records_map_absent(self.records@, id);
            }
            assert(self@ =~= Map::<Seq<char>, FileCrypt>::empty());
        }
    }
}

/// A vector with unique identifiers has as many entries as its record set.
proof fn lemma_records_map_len(rs: Seq<FileCrypt>)
    requires
        unique_ids(rs),
    ensures
        records_map(rs).dom().len() == rs.len(),
        records_map(rs).dom().finite(),
    decreases rs.len(),
{
    if rs.len() == 0 {
        assert forall|id: Seq<char>| !records_map(rs).contains_key(id) by {
            lemma_records_map_absent(rs, id);
        }
        assert(records_map(rs).dom() =~= Set::<Seq<char>>::empty());
    } else {
        let head = rs[0];
        let rest = rs.drop_first();
        lemma_records_map_len(rest);
        assert forall|a: int, b: int| 0 <= a < b < rest.len() implies rest[a].uuid@
            != rest[b].uuid@ by {
            assert(rest[a] == rs[a + 1] && rest[b] == rs[b + 1]);
        }
        assert(records_map(rs).dom() =~= records_map(rest).dom().insert(head.uuid@)) by {
            assert forall|id: Seq<char>|
                records_map(rs).contains_key(id) == (records_map(rest).contains_key(id) || id
                    == head.uuid@) by {
                if records_map(rs).contains_key(id) {
                    let k = choose|k: int| 0 <= k < rs.len() && rs[k].uuid@ == id;
                    if k > 0 {
                        assert(rest[k - 1] == rs[k]);
                        assert(rest[k - 1].uuid@ == id);
                    }
                }
                if records_map(rest).contains_key(id) {
                    let k = choose|k: int| 0 <= k < rest.len() && rest[k].uuid@ == id;
                    assert(rest[k] == rs[k + 1]);
                    assert(rs[k + 1].uuid@ == id);
                }
                if id == head.uuid@ {
                    assert(rs[0].uuid@ == id);
                }
            }
        }
        assert(!records_map(rest).contains_key(head.uuid@)) by {
            assert forall|k: int| 0 <= k < rest.len() implies rest[k].uuid@ != head.uuid@ by {
                assert(rest[k] == rs[k + 1]);
            }
            lemma_records_map_absent(rest, head.uuid@);
        }
        vstd::set::axiom_set_insert_finite(records_map(rest).dom(), head.uuid@);
        vstd::set::axiom_set_insert_len(records_map(rest).dom(), head.uuid@);
    }
}

/// Law: upserting the same record twice leaves the store exactly as one
/// upsert does.
pub proof fn lemma_upsert_idempotent(m: Map<Seq<char>, FileCrypt>, record: FileCrypt)
    ensures
        m.insert(record.uuid@, record).insert(record.uuid@, record) == m.insert(
            record.uuid@,
            record,
        ),
{
    assert(m.insert(record.uuid@, record).insert(record.uuid@, record) =~= m.insert(
        record.uuid@,
        record,
    ));
}

} // verus!
