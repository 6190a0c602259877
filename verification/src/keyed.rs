//! Records under text keys, each key at most once.

use vstd::prelude::*;

verus! {

/// Whether `records` holds `key`.
pub open spec fn has_key<V>(records: Seq<(Seq<char>, V)>, key: Seq<char>) -> bool {
    exists|i: int| 0 <= i < records.len() && (#[trigger] records[i]).0 == key
}

/// The place of `key` in `records`.
pub open spec fn place_of<V>(records: Seq<(Seq<char>, V)>, key: Seq<char>) -> int {
    choose|i: int| 0 <= i < records.len() && (#[trigger] records[i]).0 == key
}

/// The records as a map.
pub open spec fn map_of<V>(records: Seq<(Seq<char>, V)>) -> Map<Seq<char>, V> {
    Map::new(
        |key: Seq<char>| has_key(records, key),
        |key: Seq<char>| records[place_of(records, key)].1,
    )
}

/// No key stands twice in `records`.
pub open spec fn distinct<V>(records: Seq<(Seq<char>, V)>) -> bool {
    forall|i: int, j: int|
        0 <= i < j < records.len() ==> (#[trigger] records[i]).0 != (#[trigger] records[j]).0
}

/// Among records with distinct keys, a key is found where it stands.
pub proof fn lemma_place<V>(records: Seq<(Seq<char>, V)>, at: int)
    requires
        distinct(records),
        0 <= at < records.len(),
    ensures
        has_key(records, records[at].0),
        place_of(records, records[at].0) == at,
        map_of(records).contains_key(records[at].0),
        map_of(records)[records[at].0] == records[at].1,
{
    let key = records[at].0;
    let found = place_of(records, key);
    if found < at {
        assert(records[found].0 != records[at].0);
    } else if at < found {
        assert(records[at].0 != records[found].0);
    }
}

/// A change of the value that is kept under one key leaves the other keys as they are.
pub proof fn lemma_update_keeps<V>(records: Seq<(Seq<char>, V)>, at: int, value: V, other: Seq<char>)
    requires
        distinct(records),
        0 <= at < records.len(),
        other != records[at].0,
    ensures
        distinct(records.update(at, (records[at].0, value))),
        has_key(records.update(at, (records[at].0, value)), other) == has_key(records, other),
        has_key(records, other) ==> records.update(at, (records[at].0, value))[place_of(
            records.update(at, (records[at].0, value)),
            other,
        )].1 == records[place_of(records, other)].1,
{
    let after = records.update(at, (records[at].0, value));
    assert forall|i: int, j: int| 0 <= i < j < after.len() implies (#[trigger] after[i]).0 != (
    #[trigger] after[j]).0 by {
        assert(records[i].0 != records[j].0);
    }
    if has_key(after, other) {
        let i = place_of(after, other);
        assert(records[i].0 == other);
    }
    if has_key(records, other) {
        let i = place_of(records, other);
        assert(after[i].0 == other);
        lemma_place(after, i);
    }
}

/// A record under a new key, added at the end, leaves the other keys as they are.
pub proof fn lemma_push_keeps<V>(records: Seq<(Seq<char>, V)>, record: (Seq<char>, V), other: Seq<char>)
    requires
        distinct(records),
        !has_key(records, record.0),
        other != record.0,
    ensures
        distinct(records.push(record)),
        has_key(records.push(record), other) == has_key(records, other),
        has_key(records, other) ==> records.push(record)[place_of(records.push(record), other)].1
            == records[place_of(records, other)].1,
{
    let after = records.push(record);
    assert forall|i: int, j: int| 0 <= i < j < after.len() implies (#[trigger] after[i]).0 != (
    #[trigger] after[j]).0 by {
        if j == records.len() {
            assert(records[i].0 != record.0);
        } else {
            assert(records[i].0 != records[j].0);
        }
    }
    if has_key(after, other) {
        let i = place_of(after, other);
        assert(records[i].0 == other);
    }
    if has_key(records, other) {
        let i = place_of(records, other);
        assert(after[i].0 == other);
        lemma_place(after, i);
    }
}

/// The removal of one record leaves the other keys as they are, and the key of the record
/// is gone.
pub proof fn lemma_remove_keeps<V>(records: Seq<(Seq<char>, V)>, at: int, other: Seq<char>)
    requires
        distinct(records),
        0 <= at < records.len(),
    ensures
        distinct(records.remove(at)),
        !has_key(records.remove(at), records[at].0),
        other != records[at].0 ==> has_key(records.remove(at), other) == has_key(records, other),
        other != records[at].0 && has_key(records, other) ==> records.remove(at)[place_of(
            records.remove(at),
            other,
        )].1 == records[place_of(records, other)].1,
{
    let after = records.remove(at);
    assert forall|i: int| 0 <= i < after.len() implies (#[trigger] after[i]) == records[if i < at {
        i
    } else {
        i + 1
    }] by {}
    assert forall|i: int, j: int| 0 <= i < j < after.len() implies (#[trigger] after[i]).0 != (
    #[trigger] after[j]).0 by {
        let a = if i < at {
            i
        } else {
            i + 1
        };
        let b = if j < at {
            j
        } else {
            j + 1
        };
        assert(records[a].0 != records[b].0);
    }
    if has_key(after, records[at].0) {
        let i = place_of(after, records[at].0);
        let a = if i < at {
            i
        } else {
            i + 1
        };
        if a < at {
            assert(records[a].0 != records[at].0);
        } else {
            assert(records[at].0 != records[a].0);
        }
    }
    if other != records[at].0 {
        if has_key(after, other) {
            let i = place_of(after, other);
            let a = if i < at {
                i
            } else {
                i + 1
            };
            assert(records[a].0 == other);
        }
        if has_key(records, other) {
            let i = place_of(records, other);
            let a = if i < at {
                i
            } else {
                i - 1
            };
            assert(after[a].0 == other);
            lemma_place(after, a);
        }
    }
}

/// A change of the value under one key, seen as a map.
pub proof fn lemma_update_map<V>(records: Seq<(Seq<char>, V)>, at: int, value: V)
    requires
        distinct(records),
        0 <= at < records.len(),
    ensures
        distinct(records.update(at, (records[at].0, value))),
        map_of(records.update(at, (records[at].0, value))) == map_of(records).insert(
            records[at].0,
            value,
        ),
{
    let key = records[at].0;
    let after = records.update(at, (key, value));
    lemma_place(records, at);
    assert forall|other: Seq<char>| other != key implies has_key(after, other) == has_key(
        records,
        other,
    ) && (has_key(records, other) ==> map_of(after)[other] == map_of(records)[other]) by {
        lemma_update_keeps(records, at, value, other);
    }
    assert(distinct(after)) by {
        assert forall|i: int, j: int| 0 <= i < j < after.len() implies (#[trigger] after[i]).0
            != (#[trigger] after[j]).0 by {
            assert(records[i].0 != records[j].0);
        }
    }
    assert(after[at].0 == key);
    lemma_place(after, at);
    assert(map_of(after) =~= map_of(records).insert(key, value));
}

/// A record under a new key, seen as a map.
pub proof fn lemma_push_map<V>(records: Seq<(Seq<char>, V)>, record: (Seq<char>, V))
    requires
        distinct(records),
        !has_key(records, record.0),
    ensures
        distinct(records.push(record)),
        map_of(records.push(record)) == map_of(records).insert(record.0, record.1),
{
    let after = records.push(record);
    assert forall|other: Seq<char>| other != record.0 implies has_key(after, other) == has_key(
        records,
        other,
    ) && (has_key(records, other) ==> map_of(after)[other] == map_of(records)[other]) by {
        lemma_push_keeps(records, record, other);
    }
    assert(distinct(after)) by {
        assert forall|i: int, j: int| 0 <= i < j < after.len() implies (#[trigger] after[i]).0
            != (#[trigger] after[j]).0 by {
            if j == records.len() {
                assert(records[i].0 != record.0);
            } else {
                assert(records[i].0 != records[j].0);
            }
        }
    }
    assert(after[records.len() as int].0 == record.0);
    lemma_place(after, records.len() as int);
    assert(map_of(after) =~= map_of(records).insert(record.0, record.1));
}

/// The removal of one record, seen as a map.
pub proof fn lemma_remove_map<V>(records: Seq<(Seq<char>, V)>, at: int)
    requires
        distinct(records),
        0 <= at < records.len(),
    ensures
        distinct(records.remove(at)),
        map_of(records.remove(at)) == map_of(records).remove(records[at].0),
{
    let key = records[at].0;
    let after = records.remove(at);
    lemma_remove_keeps(records, at, key);
    assert forall|other: Seq<char>| other != key implies has_key(after, other) == has_key(
        records,
        other,
    ) && (has_key(records, other) ==> map_of(after)[other] == map_of(records)[other]) by {
        lemma_remove_keeps(records, at, other);
    }
    assert(map_of(after) =~= map_of(records).remove(key));
}

} // verus!
