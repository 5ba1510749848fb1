//! Lists of keyed entries with distinct keys, read as maps: looking a key
//! up, and setting the value of a key in place or at the end.
use vstd::prelude::*;

verus! {

/// The map from each key to the value at its first position.
pub open spec fn keyed_map<K, V>(keys: Seq<K>, values: Seq<V>) -> Map<K, V> {
    Map::new(|key: K| keys.contains(key), |key: K| values[keys.index_of(key)])
}

/// Setting the value at a key's position sets the key in the map.
pub proof fn lemma_keyed_update<K, V>(keys: Seq<K>, values: Seq<V>, i: int, value: V)
    requires
        keys.no_duplicates(),
        keys.len() == values.len(),
        0 <= i < keys.len(),
    ensures
        keyed_map(keys, values.update(i, value)) == keyed_map(keys, values).insert(keys[i], value),
{
    let key = keys[i];
    let after = keyed_map(keys, values.update(i, value));
    let expected = keyed_map(keys, values).insert(key, value);
    assert forall|k: K| #[trigger] after.contains_key(k) <==> expected.contains_key(k) by {
        if k == key {
            assert(keys.contains(k));
        }
    }
    assert forall|k: K| #[trigger] after.contains_key(k) implies after[k] == expected[k] by {
        keys.index_of_first_ensures(k);
        let j = keys.index_of(k);
        if k == key {
            if j != i {
                assert(keys[j] == keys[i]);
            }
        } else {
            assert(j != i);
        }
    }
    assert(after =~= expected);
}

/// Appending a new key with its value adds the key to the map.
pub proof fn lemma_keyed_push<K, V>(keys: Seq<K>, values: Seq<V>, key: K, value: V)
    requires
        keys.no_duplicates(),
        keys.len() == values.len(),
        !keys.contains(key),
    ensures
        keys.push(key).no_duplicates(),
        keyed_map(keys.push(key), values.push(value)) == keyed_map(keys, values).insert(key, value),
{
    let longer = keys.push(key);
    assert(longer.no_duplicates()) by {
        assert forall|a: int, b: int| 0 <= a < b < longer.len() implies longer[a] != longer[b] by {
            if b == keys.len() {
                assert(keys[a] == longer[a]);
            }
        }
    }
    let after = keyed_map(longer, values.push(value));
    let expected = keyed_map(keys, values).insert(key, value);
    assert forall|k: K| #[trigger] after.contains_key(k) <==> expected.contains_key(k) by {
        if keys.contains(k) {
            let j = choose|j: int| 0 <= j < keys.len() && keys[j] == k;
            assert(longer[j] == k);
        }
        if k == key {
            assert(longer[keys.len() as int] == k);
        }
        if longer.contains(k) && k != key {
            let j = choose|j: int| 0 <= j < longer.len() && longer[j] == k;
            assert(keys[j] == k);
        }
    }
    assert forall|k: K| #[trigger] after.contains_key(k) implies after[k] == expected[k] by {
        longer.index_of_first_ensures(k);
        let j = longer.index_of(k);
        if k == key {
            assert(longer[keys.len() as int] == k);
            if j < keys.len() {
                assert(keys[j] == k);
            }
        } else {
            assert(j < keys.len());
            assert(keys[j] == k);
            keys.index_of_first_ensures(k);
            let j2 = keys.index_of(k);
            assert(longer[j2] == k);
        }
    }
    assert(after =~= expected);
}

/// A map of distinct keys has as many entries as keys.
pub proof fn lemma_keyed_len<K, V>(keys: Seq<K>, values: Seq<V>)
    requires
        keys.no_duplicates(),
    ensures
        keyed_map(keys, values).dom() == keys.to_set(),
        keyed_map(keys, values).len() == keys.len(),
{
    assert(keyed_map(keys, values).dom() =~= keys.to_set());
    keys.unique_seq_to_set();
}

/// The names of named entries, in order.
pub open spec fn names_of<V>(entries: Seq<(String, V)>) -> Seq<Seq<char>> {
    entries.map_values(|entry: (String, V)| entry.0@)
}

/// The values of keyed entries, in order.
pub open spec fn values_of<K, V>(entries: Seq<(K, V)>) -> Seq<V> {
    entries.map_values(|entry: (K, V)| entry.1)
}

/// Named entries as a map by name.
pub open spec fn by_name<V>(entries: Seq<(String, V)>) -> Map<Seq<char>, V> {
    keyed_map(names_of(entries), values_of(entries))
}

/// The codes of coded entries, in order.
pub open spec fn codes_of<V>(entries: Seq<(u8, V)>) -> Seq<u8> {
    entries.map_values(|entry: (u8, V)| entry.0)
}

/// Coded entries as a map by code.
pub open spec fn by_code<V>(entries: Seq<(u8, V)>) -> Map<u8, V> {
    keyed_map(codes_of(entries), values_of(entries))
}

/// The position of the entry with the name, if there is one.
pub fn find_name<V>(entries: &Vec<(String, V)>, name: &str) -> (found: Option<usize>)
    requires
        names_of(entries@).no_duplicates(),
    ensures
        match found {
            Some(i) => i < entries@.len() && entries@[i as int].0@ == name@ && names_of(entries@).index_of(name@)
                == i,
            None => !names_of(entries@).contains(name@),
        },
{
    let wanted = name.to_owned();
    let mut i: usize = 0;
    while i < entries.len()
        invariant
            i <= entries@.len(),
            wanted@ == name@,
            names_of(entries@).no_duplicates(),
            forall|j: int| 0 <= j < i ==> names_of(entries@)[j] != name@,
        decreases entries@.len() - i,
    {
        assert(names_of(entries@)[i as int] == entries@[i as int].0@);
        if entries[i].0 == wanted {
            proof {
                let names = names_of(entries@);
                names.index_of_first_ensures(name@);
                assert(names.contains(name@));
                let k = names.index_of(name@);
                if k != i {
                    assert(names[k] == names[i as int]);
                }
            }
            return Some(i);
        }
        i = i + 1;
    }
    None
}

/// Sets the value of a name: in place where the name has an entry, else in
/// a new entry at the end.
pub fn upsert_name<V>(entries: &mut Vec<(String, V)>, name: &str, value: V)
    requires
        names_of(old(entries)@).no_duplicates(),
    ensures
        names_of(final(entries)@).no_duplicates(),
        by_name(final(entries)@) == by_name(old(entries)@).insert(name@, value),
{
    let ghost before = entries@;
    let ghost entry = value;
    match find_name(entries, name) {
        Some(i) => {
            entries.set(i, (name.to_owned(), value));
            proof {
                assert(names_of(entries@) =~= names_of(before));
                assert(values_of(entries@) =~= values_of(before).update(i as int, entry));
                lemma_keyed_update(names_of(before), values_of(before), i as int, entry);
            }
        },
        None => {
            entries.push((name.to_owned(), value));
            proof {
                assert(names_of(entries@) =~= names_of(before).push(name@));
                assert(values_of(entries@) =~= values_of(before).push(entry));
                lemma_keyed_push(names_of(before), values_of(before), name@, entry);
            }
        },
    }
}

/// The position of the entry with the code, if there is one.
pub fn find_code<V>(entries: &Vec<(u8, V)>, code: u8) -> (found: Option<usize>)
    requires
        codes_of(entries@).no_duplicates(),
    ensures
        match found {
            Some(i) => i < entries@.len() && entries@[i as int].0 == code && codes_of(entries@).index_of(code) == i,
            None => !codes_of(entries@).contains(code),
        },
{
    let mut i: usize = 0;
    while i < entries.len()
        invariant
            i <= entries@.len(),
            codes_of(entries@).no_duplicates(),
            forall|j: int| 0 <= j < i ==> codes_of(entries@)[j] != code,
        decreases entries@.len() - i,
    {
        assert(codes_of(entries@)[i as int] == entries@[i as int].0);
        if entries[i].0 == code {
            proof {
                let codes = codes_of(entries@);
                codes.index_of_first_ensures(code);
                assert(codes.contains(code));
                let k = codes.index_of(code);
                if k != i {
                    assert(codes[k] == codes[i as int]);
                }
            }
            return Some(i);
        }
        i = i + 1;
    }
    None
}

/// Sets the value of a code: in place where the code has an entry, else in
/// a new entry at the end.
pub fn upsert_code<V>(entries: &mut Vec<(u8, V)>, code: u8, value: V)
    requires
        codes_of(old(entries)@).no_duplicates(),
    ensures
        codes_of(final(entries)@).no_duplicates(),
        by_code(final(entries)@) == by_code(old(entries)@).insert(code, value),
{
    let ghost before = entries@;
    let ghost entry = value;
    match find_code(entries, code) {
        Some(i) => {
            entries.set(i, (code, value));
            proof {
                assert(codes_of(entries@) =~= codes_of(before));
                assert(values_of(entries@) =~= values_of(before).update(i as int, entry));
                lemma_keyed_update(codes_of(before), values_of(before), i as int, entry);
            }
        },
        None => {
            entries.push((code, value));
            proof {
                assert(codes_of(entries@) =~= codes_of(before).push(code));
                assert(values_of(entries@) =~= values_of(before).push(entry));
                lemma_keyed_push(codes_of(before), values_of(before), code, entry);
            }
        },
    }
}

} // verus!
