//! Tables: lists of entries, each a name with a value, searched from the
//! front.

use vstd::prelude::*;

verus! {

/// What the first entry named `key` holds, if any entry has that name.
pub open spec fn find<V>(table: Seq<(Seq<char>, V)>, key: Seq<char>) -> Option<V>
    decreases table.len(),
{
    if table.len() == 0 {
        None
    } else if table[0].0 == key {
        Some(table[0].1)
    } else {
        find(table.drop_first(), key)
    }
}

/// Whether some entry of the table is named `key`.
pub open spec fn has_key<V>(table: Seq<(Seq<char>, V)>, key: Seq<char>) -> bool {
    exists|i: int| 0 <= i < table.len() && (#[trigger] table[i]).0 == key
}

/// No two entries of the table have the same name.
pub open spec fn distinct_keys<V>(table: Seq<(Seq<char>, V)>) -> bool {
    forall|i: int, j: int|
        0 <= i < j < table.len() ==> (#[trigger] table[i]).0 != (#[trigger] table[j]).0
}

/// A lookup finds a value exactly when the name occurs, and what it finds is
/// the value of an entry with that name.
pub proof fn lemma_find<V>(table: Seq<(Seq<char>, V)>, key: Seq<char>)
    ensures
        find(table, key) is Some <==> has_key(table, key),
        find(table, key) matches Some(value) ==> exists|i: int|
            0 <= i < table.len() && (#[trigger] table[i]).0 == key && table[i].1 == value,
    decreases table.len(),
{
    if table.len() == 0 {
    } else if table[0].0 == key {
        assert(table[0].0 == key && table[0].1 == find(table, key)->0);
    } else {
        let rest = table.drop_first();
        lemma_find(rest, key);
        if has_key(table, key) {
            let i = choose|i: int| 0 <= i < table.len() && (#[trigger] table[i]).0 == key;
            assert(rest[i - 1] == table[i]);
        }
        if find(rest, key) is Some {
            let value = find(rest, key)->0;
            let j = choose|j: int|
                0 <= j < rest.len() && (#[trigger] rest[j]).0 == key && rest[j].1 == value;
            assert(table[j + 1] == rest[j]);
        }
    }
}

/// In a table without repeated names, a lookup by the name of an entry finds
/// that entry's value.
pub proof fn lemma_find_entry<V>(table: Seq<(Seq<char>, V)>, i: int)
    requires
        distinct_keys(table),
        0 <= i < table.len(),
    ensures
        find(table, table[i].0) == Some(table[i].1),
    decreases table.len(),
{
    if i > 0 {
        let rest = table.drop_first();
        assert(table[0].0 != table[i].0);
        assert forall|a: int, b: int| 0 <= a < b < rest.len() implies (#[trigger] rest[a]).0 != (
        #[trigger] rest[b]).0 by {
            assert(rest[a] == table[a + 1]);
            assert(rest[b] == table[b + 1]);
        }
        assert(rest[i - 1] == table[i]);
        lemma_find_entry(rest, i - 1);
    }
}

/// Looks `key` up in a table: the value of the first entry with that name.
pub fn lookup<'a, V: DeepView>(table: &'a Vec<(String, V)>, key: &String) -> (found: Option<&'a V>)
    ensures
        match found {
            Some(value) => find(table.deep_view(), key@) == Some(value.deep_view()),
            None => find(table.deep_view(), key@) is None,
        },
{
    let ghost entries = table.deep_view();
    let mut i: usize = 0;
    assert(entries.skip(0) =~= entries);
    while i < table.len()
        invariant
            i <= table.len(),
            entries == table.deep_view(),
            find(entries, key@) == find(entries.skip(i as int), key@),
        decreases table.len() - i,
    {
        proof {
            let rest = entries.skip(i as int);
            assert(rest[0] == entries[i as int]);
            assert(rest.drop_first() =~= entries.skip(i + 1));
        }
        if table[i].0 == *key {
            return Some(&table[i].1);
        }
        i += 1;
    }
    None
}

} // verus!
