//! The laws the store obeys, stated over its abstract state and proved once
//! and for all. Each speaks of [`set_spec`], [`get_spec`] and
//! [`initialize_spec`], the exact effects that the store's contracts promise.

use vstd::prelude::*;
use crate::store::{apply_set_sequence, get_spec, initialize_spec, set_spec, CounterMap};

verus! {

/// Round trip: for every valid (namespace, name, value), a `set` followed by
/// a `get` of the same key returns exactly the value that was set.
pub proof fn lemma_set_then_get(
    counters: CounterMap,
    namespace: Seq<char>,
    name: Seq<char>,
    value: int,
)
    ensures
        get_spec(set_spec(counters, namespace, name, value), namespace, name) == Some(value),
{
}

/// Overwrite, not accumulate: a second `set` of the same key replaces the
/// first value outright — the state and every later `get` show only the
/// second value.
pub proof fn lemma_set_overwrites(
    counters: CounterMap,
    namespace: Seq<char>,
    name: Seq<char>,
    first: int,
    second: int,
)
    ensures
        set_spec(set_spec(counters, namespace, name, first), namespace, name, second) == set_spec(
            counters,
            namespace,
            name,
            second,
        ),
        get_spec(
            set_spec(set_spec(counters, namespace, name, first), namespace, name, second),
            namespace,
            name,
        ) == Some(second),
{
    assert(set_spec(set_spec(counters, namespace, name, first), namespace, name, second)
        =~= set_spec(counters, namespace, name, second));
}

/// Absence: a `get` of a key that no `set` ever targeted finds nothing.
pub proof fn lemma_get_absent(counters: CounterMap, namespace: Seq<char>, name: Seq<char>)
    requires
        !counters.contains_key((namespace, name)),
    ensures
        get_spec(counters, namespace, name) is None,
{
}

/// Key isolation: a `set` under one key leaves a `get` under any other key —
/// a different namespace, a different name, or both — unchanged.
pub proof fn lemma_key_isolation(
    counters: CounterMap,
    read_namespace: Seq<char>,
    read_name: Seq<char>,
    written_namespace: Seq<char>,
    written_name: Seq<char>,
    value: int,
)
    requires
        (read_namespace, read_name) != (written_namespace, written_name),
    ensures
        get_spec(
            set_spec(counters, written_namespace, written_name, value),
            read_namespace,
            read_name,
        ) == get_spec(counters, read_namespace, read_name),
{
}

/// Serialized writes: the store applies concurrent `set` calls to one key in
/// some serial order; after any such order, the key holds the last applied
/// value — one of the submitted values, never a merged or corrupted one.
pub proof fn lemma_serialized_writes(
    counters: CounterMap,
    namespace: Seq<char>,
    name: Seq<char>,
    values: Seq<int>,
)
    requires
        values.len() > 0,
    ensures
        get_spec(apply_set_sequence(counters, namespace, name, values), namespace, name) == Some(
            values.last(),
        ),
        values.contains(values.last()),
{
    assert(values[values.len() - 1] == values.last());
}

/// Idempotent initialization: initializing an already-initialized store is a
/// no-op, and initialization never discards stored counters.
pub proof fn lemma_initialize_idempotent(ready: bool, counters: CounterMap)
    ensures
        initialize_spec(initialize_spec(ready, counters).0, initialize_spec(ready, counters).1)
            == initialize_spec(ready, counters),
        initialize_spec(ready, counters).1 == counters,
{
}

} // verus!
