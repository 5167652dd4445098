use vstd::prelude::*;

verus! {

/// Text compared with text.
pub fn text_eq(a: &str, b: &str) -> (r: bool)
    ensures
        r == (a@ == b@),
{
    let left = a.to_owned();
    let right = b.to_owned();
    left == right
}

/// Whether `i` is the first place in `names` that holds `name`.
pub open spec fn is_first_of(names: Seq<Seq<char>>, name: Seq<char>, i: int) -> bool {
    &&& 0 <= i < names.len()
    &&& names[i] == name
    &&& forall|j: int| 0 <= j < i ==> names[j] != name
}

/// Whether `name` occurs in `names`.
pub open spec fn names_contain(names: Seq<Seq<char>>, name: Seq<char>) -> bool {
    exists|i: int| 0 <= i < names.len() && names[i] == name
}

/// The first place in `names` that holds `name`.
pub open spec fn first_index_of(names: Seq<Seq<char>>, name: Seq<char>) -> int {
    choose|i: int| is_first_of(names, name, i)
}

/// A name has one first place.
pub proof fn lemma_first_index(names: Seq<Seq<char>>, name: Seq<char>, i: int)
    requires
        is_first_of(names, name, i),
    ensures
        first_index_of(names, name) == i,
        names_contain(names, name),
{
    let c = first_index_of(names, name);
    assert(is_first_of(names, name, c));
    if c < i {
        assert(names[c] != name);
    } else if i < c {
        assert(names[i] != name);
    }
}

/// A name that occurs has a first place.
pub proof fn lemma_first_exists(names: Seq<Seq<char>>, name: Seq<char>, upto: int) -> (i: int)
    requires
        0 <= upto < names.len(),
        names[upto] == name,
    ensures
        is_first_of(names, name, i),
        i <= upto,
    decreases upto,
{
    if exists|j: int| 0 <= j < upto && names[j] == name {
        let j = choose|j: int| 0 <= j < upto && names[j] == name;
        lemma_first_exists(names, name, j)
    } else {
        upto
    }
}

/// The keys of a list of entries.
pub open spec fn keys_of<V>(entries: Seq<(Seq<char>, V)>) -> Seq<Seq<char>> {
    Seq::new(entries.len(), |i: int| entries[i].0)
}

/// The value under `key`: that of the first entry with this key.
pub open spec fn lookup<V>(entries: Seq<(Seq<char>, V)>, key: Seq<char>) -> Option<V> {
    if names_contain(keys_of(entries), key) {
        Some(entries[first_index_of(keys_of(entries), key)].1)
    } else {
        None
    }
}

/// The entries after `value` was written under `key`: in the place of the
/// entry that had the key, or at the end where none had.
pub open spec fn put<V>(entries: Seq<(Seq<char>, V)>, key: Seq<char>, value: V) -> Seq<
    (Seq<char>, V),
> {
    if names_contain(keys_of(entries), key) {
        entries.update(first_index_of(keys_of(entries), key), (key, value))
    } else {
        entries.push((key, value))
    }
}

/// What was written under a key is what is found there, and writing under
/// one key changes nothing under another.
pub proof fn lemma_put_then_lookup<V>(
    entries: Seq<(Seq<char>, V)>,
    key: Seq<char>,
    value: V,
    other: Seq<char>,
)
    ensures
        lookup(put(entries, key, value), key) == Some(value),
        other != key ==> lookup(put(entries, key, value), other) == lookup(entries, other),
{
    let keys = keys_of(entries);
    let after = put(entries, key, value);
    let keys_after = keys_of(after);
    if names_contain(keys, key) {
        let i = choose|i: int| 0 <= i < keys.len() && keys[i] == key;
        let f = lemma_first_exists(keys, key, i);
        lemma_first_index(keys, key, f);
        assert(keys_after =~= keys);
        if other != key && names_contain(keys, other) {
            let j = choose|j: int| 0 <= j < keys.len() && keys[j] == other;
            let g = lemma_first_exists(keys, other, j);
            lemma_first_index(keys, other, g);
            assert(g != f);
        }
    } else {
        assert(keys_after =~= keys.push(key));
        assert(is_first_of(keys_after, key, keys.len() as int));
        lemma_first_index(keys_after, key, keys.len() as int);
        if names_contain(keys, other) {
            let i = choose|i: int| 0 <= i < keys.len() && keys[i] == other;
            let f = lemma_first_exists(keys, other, i);
            lemma_first_index(keys, other, f);
            assert(is_first_of(keys_after, other, f));
            lemma_first_index(keys_after, other, f);
        } else if other != key {
            if names_contain(keys_after, other) {
                let i = choose|i: int| 0 <= i < keys_after.len() && keys_after[i] == other;
                assert(keys[i] == other);
            }
        }
    }
}

} // verus!
