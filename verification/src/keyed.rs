//! Lists that are searched by a name.
use vstd::prelude::*;

verus! {

/// The first position of `key` among `keys`, if it is there.
pub open spec fn index_of(keys: Seq<Seq<char>>, key: Seq<char>) -> Option<int>
    decreases keys.len(),
{
    if keys.len() == 0 {
        None
    } else if index_of(keys.drop_last(), key).is_some() {
        index_of(keys.drop_last(), key)
    } else if keys.last() == key {
        Some(keys.len() - 1)
    } else {
        None
    }
}

/// Whether no name is there twice.
pub open spec fn distinct(keys: Seq<Seq<char>>) -> bool {
    forall|i: int, j: int| 0 <= i < j < keys.len() ==> #[trigger] keys[i] != #[trigger] keys[j]
}

/// `index_of` answers with the first position of the name, and with nothing
/// only where the name is not there.
pub proof fn lemma_index_of(keys: Seq<Seq<char>>, key: Seq<char>)
    ensures
        match index_of(keys, key) {
            Some(i) => 0 <= i < keys.len() && keys[i] == key && forall|j: int|
                0 <= j < i ==> #[trigger] keys[j] != key,
            None => forall|j: int| 0 <= j < keys.len() ==> #[trigger] keys[j] != key,
        },
    decreases keys.len(),
{
    if keys.len() > 0 {
        let front = keys.drop_last();
        lemma_index_of(front, key);
        match index_of(front, key) {
            Some(i) => {
                assert(keys[i] == front[i]);
                assert forall|j: int| 0 <= j < i implies #[trigger] keys[j] != key by {
                    assert(front[j] != key);
                }
            },
            None => {
                assert forall|j: int| 0 <= j < keys.len() - 1 implies #[trigger] keys[j] != key by {
                    assert(front[j] != key);
                }
            },
        }
    }
}

/// What is found in a prefix is what is found in the whole list.
pub proof fn lemma_index_prefix(keys: Seq<Seq<char>>, n: int, key: Seq<char>)
    requires
        0 <= n <= keys.len(),
        index_of(keys.take(n), key).is_some(),
    ensures
        index_of(keys, key) == index_of(keys.take(n), key),
    decreases keys.len() - n,
{
    if n == keys.len() {
        assert(keys.take(n) =~= keys);
    } else {
        assert(keys.take(n + 1).drop_last() =~= keys.take(n));
        lemma_index_prefix(keys, n + 1, key);
    }
}

/// Among distinct names a name is found where it stands.
pub proof fn lemma_index_at(keys: Seq<Seq<char>>, i: int)
    requires
        distinct(keys),
        0 <= i < keys.len(),
    ensures
        index_of(keys, keys[i]) == Some(i),
{
    lemma_index_of(keys, keys[i]);
    let found = index_of(keys, keys[i]);
    if found != Some(i) {
        let j = found.unwrap();
        if j < i {
            assert(keys[j] != keys[i]);
        } else {
            assert(keys[i] != keys[j]);
        }
    }
}

/// A name added at the end is found there where it was not in the list, and
/// changes nothing for any other name.
pub proof fn lemma_index_push(keys: Seq<Seq<char>>, added: Seq<char>, key: Seq<char>)
    ensures
        index_of(keys.push(added), key) == if index_of(keys, key).is_some() {
            index_of(keys, key)
        } else if added == key {
            Some(keys.len() as int)
        } else {
            None
        },
        distinct(keys) && index_of(keys, added).is_none() ==> distinct(keys.push(added)),
{
    assert(keys.push(added).drop_last() =~= keys);
    lemma_index_of(keys, added);
    if distinct(keys) && index_of(keys, added).is_none() {
        let more = keys.push(added);
        assert forall|i: int, j: int| 0 <= i < j < more.len() implies #[trigger] more[i]
            != #[trigger] more[j] by {
            if j < keys.len() {
                assert(keys[i] != keys[j]);
            } else {
                assert(keys[i] != added);
            }
        }
    }
}

/// Taking one name out of distinct names leaves distinct names, without the
/// name taken out and with every other name where it was or one place
/// before.
pub proof fn lemma_index_remove(keys: Seq<Seq<char>>, at: int, key: Seq<char>)
    requires
        distinct(keys),
        0 <= at < keys.len(),
    ensures
        distinct(keys.remove(at)),
        index_of(keys.remove(at), key) == match index_of(keys, key) {
            Some(i) => if i < at {
                Some(i)
            } else if i == at {
                None
            } else {
                Some(i - 1)
            },
            None => None,
        },
{
    let less = keys.remove(at);
    assert forall|i: int, j: int| 0 <= i < j < less.len() implies #[trigger] less[i]
        != #[trigger] less[j] by {
        let a = if i < at {
            i
        } else {
            i + 1
        };
        let b = if j < at {
            j
        } else {
            j + 1
        };
        assert(keys[a] != keys[b]);
    }
    lemma_index_of(keys, key);
    lemma_index_of(less, key);
    match index_of(keys, key) {
        Some(i) => {
            if i < at {
                assert(less[i] == key);
                lemma_index_at(less, i);
            } else if i == at {
                if index_of(less, key).is_some() {
                    let j = index_of(less, key).unwrap();
                    let b = if j < at {
                        j
                    } else {
                        j + 1
                    };
                    assert(keys[b] == key);
                    if b < at {
                        assert(keys[b] != keys[at]);
                    } else {
                        assert(keys[at] != keys[b]);
                    }
                }
            } else {
                assert(less[i - 1] == key);
                lemma_index_at(less, i - 1);
            }
        },
        None => {
            if index_of(less, key).is_some() {
                let j = index_of(less, key).unwrap();
                let b = if j < at {
                    j
                } else {
                    j + 1
                };
                assert(keys[b] == key);
            }
        },
    }
}

} // verus!
