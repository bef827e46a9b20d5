//! The counter store: a durable-store model holding at most one record per
//! (namespace, name) key, with an atomic upsert, a point lookup, and an
//! idempotent initialization.
//!
//! The store's abstract state is a map from (namespace, name) — as character
//! sequences — to the stored count. `set` is exactly a map insert (replacing
//! any earlier value for the key), `get` is exactly a map lookup, and
//! `initialize` marks the store ready without touching the map.

use vstd::prelude::*;

verus! {

/// The abstract state of the store: one count per (namespace, name) key.
pub type CounterMap = Map<(Seq<char>, Seq<char>), int>;

/// One stored counter record, as committed.
#[derive(Debug)]
pub struct StoredCounter {
    pub namespace: String,
    pub name: String,
    pub count: i64,
}

/// The ways a durable backend can fail, each carrying the backend's message.
/// `Unavailable` is a connection or transport failure, `ConstraintViolation`
/// a violated uniqueness invariant, and `Io` any other persistence failure.
#[derive(Debug)]
pub enum StoreError {
    Unavailable(String),
    ConstraintViolation(String),
    Io(String),
}

impl StoreError {
    /// The backend message the error carries.
    pub open spec fn message_view(&self) -> Seq<char> {
        match self {
            StoreError::Unavailable(m) => m@,
            StoreError::ConstraintViolation(m) => m@,
            StoreError::Io(m) => m@,
        }
    }

    /// Returns the backend message the error carries.
    pub fn message(&self) -> (m: &String)
        ensures
            m@ == self.message_view(),
    {
        match self {
            StoreError::Unavailable(m) => m,
            StoreError::ConstraintViolation(m) => m,
            StoreError::Io(m) => m,
        }
    }
}

/// The key of a record.
pub open spec fn key_of(rec: StoredCounter) -> (Seq<char>, Seq<char>) {
    (rec.namespace@, rec.name@)
}

/// No two records share a key.
pub open spec fn distinct_keys(rs: Seq<StoredCounter>) -> bool {
    forall|i: int, j: int| 0 <= i < j < rs.len() ==> key_of(rs[i]) != key_of(rs[j])
}

/// The map a record sequence denotes.
pub open spec fn map_of(rs: Seq<StoredCounter>) -> CounterMap
    decreases rs.len(),
{
    if rs.len() == 0 {
        Map::empty()
    } else {
        map_of(rs.drop_last()).insert(key_of(rs.last()), rs.last().count as int)
    }
}

/// What `set` does to the abstract state: an upsert is a map insert.
pub open spec fn set_spec(
    counters: CounterMap,
    namespace: Seq<char>,
    name: Seq<char>,
    value: int,
) -> CounterMap {
    counters.insert((namespace, name), value)
}

/// What `get` returns: the stored count, or `None` when no record exists.
pub open spec fn get_spec(counters: CounterMap, namespace: Seq<char>, name: Seq<char>) -> Option<
    int,
> {
    if counters.contains_key((namespace, name)) {
        Some(counters[(namespace, name)])
    } else {
        None
    }
}

/// What `initialize` does to the store's state: it makes the store ready and
/// keeps every stored counter.
pub open spec fn initialize_spec(ready: bool, counters: CounterMap) -> (bool, CounterMap) {
    (true, counters)
}

/// The abstract state after a sequence of `set` calls to one key, applied in
/// the order the store serialized them.
pub open spec fn apply_set_sequence(
    counters: CounterMap,
    namespace: Seq<char>,
    name: Seq<char>,
    values: Seq<int>,
) -> CounterMap
    decreases values.len(),
{
    if values.len() == 0 {
        counters
    } else {
        set_spec(
            apply_set_sequence(counters, namespace, name, values.drop_last()),
            namespace,
            name,
            values.last(),
        )
    }
}

/// The counter store. Records live in a vector with pairwise-distinct keys;
/// the store's view is the map the vector denotes.
pub struct CounterStore {
    ready: bool,
    records: Vec<StoredCounter>,
}

impl View for CounterStore {
    type V = CounterMap;

    closed spec fn view(&self) -> CounterMap {
        map_of(self.records@)
    }
}

/// A key absent from every record is absent from the denoted map.
proof fn lemma_map_of_absent(rs: Seq<StoredCounter>, k: (Seq<char>, Seq<char>))
    requires
        forall|j: int| 0 <= j < rs.len() ==> key_of(rs[j]) != k,
    ensures
        !map_of(rs).contains_key(k),
    decreases rs.len(),
{
    if rs.len() > 0 {
        assert forall|j: int| 0 <= j < rs.drop_last().len() implies key_of(
            rs.drop_last()[j],
        ) != k by {
            assert(rs.drop_last()[j] == rs[j]);
        }
        lemma_map_of_absent(rs.drop_last(), k);
        assert(key_of(rs[rs.len() - 1]) != k);
    }
}

/// Dropping the last record keeps the keys pairwise distinct.
proof fn lemma_distinct_drop_last(rs: Seq<StoredCounter>)
    requires
        distinct_keys(rs),
        rs.len() > 0,
    ensures
        distinct_keys(rs.drop_last()),
{
    assert forall|i: int, j: int| 0 <= i < j < rs.drop_last().len() implies key_of(
        rs.drop_last()[i],
    ) != key_of(rs.drop_last()[j]) by {
        assert(rs.drop_last()[i] == rs[i]);
        assert(rs.drop_last()[j] == rs[j]);
    }
}

/// Under distinct keys, the denoted map sends each record's key to its count.
proof fn lemma_map_of_index(rs: Seq<StoredCounter>, i: int)
    requires
        distinct_keys(rs),
        0 <= i < rs.len(),
    ensures
        map_of(rs).contains_key(key_of(rs[i])),
        map_of(rs)[key_of(rs[i])] == rs[i].count as int,
    decreases rs.len(),
{
    if i < rs.len() - 1 {
        lemma_distinct_drop_last(rs);
        lemma_map_of_index(rs.drop_last(), i);
        assert(rs.drop_last()[i] == rs[i]);
        assert(key_of(rs[i]) != key_of(rs[rs.len() - 1]));
    }
}

/// Replacing the count of the record at `i` inserts its key into the map.
proof fn lemma_map_of_update(rs: Seq<StoredCounter>, i: int, rec: StoredCounter)
    requires
        distinct_keys(rs),
        0 <= i < rs.len(),
        key_of(rec) == key_of(rs[i]),
    ensures
        map_of(rs.update(i, rec)) == map_of(rs).insert(key_of(rec), rec.count as int),
    decreases rs.len(),
{
    let rs2 = rs.update(i, rec);
    if i == rs.len() - 1 {
        assert(rs2.drop_last() =~= rs.drop_last());
        assert(rs2.last() == rec);
        assert(map_of(rs.drop_last()).insert(key_of(rs.last()), rs.last().count as int).insert(
            key_of(rec),
            rec.count as int,
        ) =~= map_of(rs.drop_last()).insert(key_of(rec), rec.count as int));
    } else {
        lemma_distinct_drop_last(rs);
        assert(rs.drop_last()[i] == rs[i]);
        lemma_map_of_update(rs.drop_last(), i, rec);
        assert(rs2.drop_last() =~= rs.drop_last().update(i, rec));
        assert(rs2.last() == rs.last());
        assert(key_of(rec) != key_of(rs[rs.len() - 1]));
        assert(map_of(rs.drop_last()).insert(key_of(rec), rec.count as int).insert(
            key_of(rs.last()),
            rs.last().count as int,
        ) =~= map_of(rs.drop_last()).insert(key_of(rs.last()), rs.last().count as int).insert(
            key_of(rec),
            rec.count as int,
        ));
    }
}

impl CounterStore {
    /// Every record key is distinct from every other; the store's methods
    /// establish and preserve this.
    pub closed spec fn wf(&self) -> bool {
        distinct_keys(self.records@)
    }

    /// Whether `initialize` has run.
    pub closed spec fn is_ready(&self) -> bool {
        self.ready
    }

    /// A fresh, empty, not-yet-initialized store.
    pub fn new() -> (s: Self)
        ensures
            s.wf(),
            !s.is_ready(),
            s@ == Map::<(Seq<char>, Seq<char>), int>::empty(),
    {
        CounterStore { ready: false, records: Vec::new() }
    }

    /// Ensures the structure holding the records exists. Idempotent: safe to
    /// call on every start, and it never discards stored counters.
    pub fn initialize(&mut self) -> (r: Result<(), StoreError>)
        requires
            old(self).wf(),
        ensures
            final(self).wf(),
            r is Ok,
            (final(self).is_ready(), final(self)@) == initialize_spec(
                old(self).is_ready(),
                old(self)@,
            ),
    {
        self.ready = true;
        Ok(())
    }

    /// Returns the index of the record with the given key, if any.
    fn find(&self, namespace: &String, name: &String) -> (r: Option<usize>)
        ensures
            match r {
                Some(i) => i < self.records@.len() && key_of(self.records@[i as int]) == (
                    namespace@,
                    name@,
                ),
                None => forall|j: int|
                    0 <= j < self.records@.len() ==> key_of(self.records@[j]) != (
                        namespace@,
                        name@,
                    ),
            },
    {
        let mut i: usize = 0;
        while i < self.records.len()
            invariant
                i <= self.records@.len(),
                forall|j: int| 0 <= j < i ==> key_of(self.records@[j]) != (namespace@, name@),
            decreases self.records@.len() - i,
        {
            let rec = &self.records[i];
            if rec.namespace == *namespace && rec.name == *name {
                return Some(i);
            }
            i = i + 1;
        }
        None
    }

    /// The atomic upsert: if no record exists for (namespace, name), one is
    /// created with the given count; otherwise the existing record's count is
    /// replaced. Returns the record as committed.
    pub fn set(&mut self, namespace: String, name: String, value: i64) -> (r: Result<
        StoredCounter,
        StoreError,
    >)
        requires
            old(self).wf(),
            old(self).is_ready(),
            namespace@.len() > 0,
            name@.len() > 0,
        ensures
            final(self).wf(),
            final(self).is_ready(),
            final(self)@ == set_spec(old(self)@, namespace@, name@, value as int),
            match r {
                Ok(rec) => rec.namespace@ == namespace@ && rec.name@ == name@ && rec.count
                    == value,
                Err(_) => false,
            },
    {
        let ghost rs0 = self.records@;
        match self.find(&namespace, &name) {
            Some(i) => {
                self.records[i].count = value;
                proof {
                    let rec2 = self.records@[i as int];
                    assert(self.records@ =~= rs0.update(i as int, rec2));
                    lemma_map_of_update(rs0, i as int, rec2);
                    assert forall|a: int, b: int|
                        0 <= a < b < self.records@.len() implies key_of(self.records@[a])
                        != key_of(self.records@[b]) by {
                        assert(key_of(self.records@[a]) == key_of(rs0[a]));
                        assert(key_of(self.records@[b]) == key_of(rs0[b]));
                    }
                }
            },
            None => {
                let rec = StoredCounter {
                    namespace: namespace.clone(),
                    name: name.clone(),
                    count: value,
                };
                self.records.push(rec);
                proof {
                    assert(self.records@.drop_last() =~= rs0);
                    assert forall|a: int, b: int|
                        0 <= a < b < self.records@.len() implies key_of(self.records@[a])
                        != key_of(self.records@[b]) by {
                        if b < rs0.len() as int {
                            assert(key_of(rs0[a]) != key_of(rs0[b]));
                        } else {
                            assert(key_of(rs0[a]) != (namespace@, name@));
                        }
                    }
                }
            },
        }
        Ok(StoredCounter { namespace, name, count: value })
    }

    /// The point lookup: the stored record for (namespace, name), or `None`
    /// when no record exists — absence is not an error.
    pub fn get(&self, namespace: &String, name: &String) -> (r: Result<
        Option<StoredCounter>,
        StoreError,
    >)
        requires
            self.wf(),
            self.is_ready(),
            namespace@.len() > 0,
            name@.len() > 0,
        ensures
            match r {
                Ok(found) => match found {
                    Some(rec) => rec.namespace@ == namespace@ && rec.name@ == name@ && get_spec(
                        self@,
                        namespace@,
                        name@,
                    ) == Some(rec.count as int),
                    None => get_spec(self@, namespace@, name@) is None,
                },
                Err(_) => false,
            },
    {
        match self.find(namespace, name) {
            Some(i) => {
                proof {
                    lemma_map_of_index(self.records@, i as int);
                }
                let rec = &self.records[i];
                Ok(
                    Some(
                        StoredCounter {
                            namespace: rec.namespace.clone(),
                            name: rec.name.clone(),
                            count: rec.count,
                        },
                    ),
                )
            },
            None => {
                proof {
                    lemma_map_of_absent(self.records@, (namespace@, name@));
                }
                Ok(None)
            },
        }
    }
}

} // verus!
