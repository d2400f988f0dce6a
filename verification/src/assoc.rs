//! Association lists keyed by text: a `Vec` of pairs in which a later entry
//! with the same key overrides an earlier one.

use vstd::prelude::*;
use vstd::string::*;
use crate::utf8_text::same_text;

verus! {

/// The index of the last entry with the given key.
pub open spec fn position<T>(v: Seq<(String, T)>, key: Seq<char>) -> Option<int>
    decreases v.len(),
{
    if v.len() == 0 {
        None
    } else if v.last().0@ == key {
        Some(v.len() - 1)
    } else {
        position(v.drop_last(), key)
    }
}

/// The text stored under the given key.
pub open spec fn lookup(v: Seq<(String, String)>, key: Seq<char>) -> Option<Seq<char>> {
    match position(v, key) {
        Some(i) => Some(v[i].1@),
        None => None,
    }
}

/// No key occurs twice.
pub open spec fn keys_distinct<T>(v: Seq<(String, T)>) -> bool {
    forall|i: int, j: int| 0 <= i < j < v.len() ==> (#[trigger] v[i]).0@ != (#[trigger] v[j]).0@
}

/// Some entry has the given key.
pub open spec fn has_key<T>(v: Seq<(String, T)>, key: Seq<char>) -> bool {
    exists|i: int| 0 <= i < v.len() && (#[trigger] v[i]).0@ == key
}

/// A position that is found holds the key, and no later entry does; none is
/// found exactly when no entry has the key.
pub proof fn lemma_position<T>(v: Seq<(String, T)>, key: Seq<char>)
    ensures
        match position(v, key) {
            Some(i) => 0 <= i < v.len() && v[i].0@ == key && forall|j: int|
                i < j < v.len() ==> (#[trigger] v[j]).0@ != key,
            None => forall|j: int| 0 <= j < v.len() ==> (#[trigger] v[j]).0@ != key,
        },
        position(v, key) is Some <==> has_key(v, key),
    decreases v.len(),
{
    if v.len() == 0 {
    } else if v.last().0@ == key {
        assert(v[v.len() - 1].0@ == key);
    } else {
        let w = v.drop_last();
        lemma_position(w, key);
        assert(forall|j: int| 0 <= j < w.len() ==> w[j] == v[j]);
        match position(w, key) {
            Some(i) => {
                assert(w[i].0@ == key);
                assert(v[i].0@ == key);
            },
            None => {
                if has_key(v, key) {
                    let j = choose|j: int| 0 <= j < v.len() && (#[trigger] v[j]).0@ == key;
                    assert(w[j].0@ == key);
                }
            },
        }
    }
}

/// Appending an entry makes it the one found under its key and leaves every
/// other key as it was.
pub proof fn lemma_position_push<T>(v: Seq<(String, T)>, e: (String, T), key: Seq<char>)
    ensures
        position(v.push(e), key) == if e.0@ == key {
            Some(v.len() as int)
        } else {
            position(v, key)
        },
{
    assert(v.push(e).drop_last() =~= v);
    assert(v.push(e).last() == e);
}

/// The index of the last entry with the given key, if there is one.
pub fn find_key<T>(v: &Vec<(String, T)>, key: &str) -> (r: Option<usize>)
    ensures
        match r {
            Some(i) => position(v@, key@) == Some(i as int) && i < v@.len(),
            None => position(v@, key@) is None,
        },
{
    let mut i: usize = v.len();
    assert(v@.take(i as int) =~= v@);
    while i > 0
        invariant
            i <= v@.len(),
            position(v@, key@) == position(v@.take(i as int), key@),
        decreases i,
    {
        assert(v@.take(i as int).drop_last() =~= v@.take(i - 1));
        assert(v@.take(i as int).last() == v@[i - 1]);
        if same_text(v[i - 1].0.as_str(), key) {
            return Some(i - 1);
        }
        i -= 1;
    }
    None
}

/// Whether no key occurs twice.
pub fn has_distinct_keys<T>(v: &Vec<(String, T)>) -> (r: bool)
    ensures
        r == keys_distinct(v@),
{
    let mut i: usize = 0;
    while i < v.len()
        invariant
            i <= v@.len(),
            forall|k: int| 0 <= k < i ==> position(v@, (#[trigger] v@[k]).0@) == Some(k),
        decreases v@.len() - i,
    {
        proof {
            lemma_position(v@, v@[i as int].0@);
        }
        match find_key(v, v[i].0.as_str()) {
            Some(k) => {
                if k != i {
                    assert(v@[i as int].0@ == v@[k as int].0@);
                    return false;
                }
            },
            None => {
                return false;
            },
        }
        i += 1;
    }
    proof {
        assert forall|a: int, b: int| 0 <= a < b < v@.len() implies (#[trigger] v@[a]).0@ != (
        #[trigger] v@[b]).0@ by {
            lemma_position(v@, v@[a].0@);
        }
    }
    true
}

/// Stores `doc` under `key`: in place of the entry that has the key, or at the
/// end where none has it.
pub fn insert_entry(v: &mut Vec<(String, String)>, key: String, doc: String)
    requires
        keys_distinct(old(v)@),
    ensures
        keys_distinct(final(v)@),
        forall|k: Seq<char>|
            #[trigger] lookup(final(v)@, k) == if k == key@ {
                Some(doc@)
            } else {
                lookup(old(v)@, k)
            },
        final(v)@.len() == old(v)@.len() + if has_key(old(v)@, key@) { 0int } else { 1int },
{
    let ghost before = v@;
    let ghost new_key = key@;
    let ghost new_doc = doc@;
    proof {
        lemma_position(before, new_key);
    }
    match find_key(v, key.as_str()) {
        Some(i) => {
            v.set(i, (key, doc));
            proof {
                let after = v@;
                assert forall|k: Seq<char>|
                    #[trigger] lookup(after, k) == if k == new_key {
                        Some(new_doc)
                    } else {
                        lookup(before, k)
                    } by {
                    lemma_same_keys_same_position(before, after, k);
                    lemma_position(before, k);
                }
            }
        },
        None => {
            v.push((key, doc));
            proof {
                let after = v@;
                assert forall|k: Seq<char>|
                    #[trigger] lookup(after, k) == if k == new_key {
                        Some(new_doc)
                    } else {
                        lookup(before, k)
                    } by {
                    lemma_position_push(before, after.last(), k);
                    assert(after =~= before.push(after.last()));
                    lemma_position(before, k);
                }
            }
        },
    }
}

/// Two lists with the same keys at the same places find every key at the same
/// place.
pub proof fn lemma_same_keys_same_position<T>(a: Seq<(String, T)>, b: Seq<(String, T)>, key: Seq<char>)
    requires
        a.len() == b.len(),
        forall|i: int| 0 <= i < a.len() ==> (#[trigger] a[i]).0@ == b[i].0@,
    ensures
        position(a, key) == position(b, key),
    decreases a.len(),
{
    if a.len() > 0 {
        assert(a.last().0@ == a[a.len() - 1].0@);
        assert(a[a.len() - 1].0@ == b[b.len() - 1].0@);
        assert forall|i: int| 0 <= i < a.drop_last().len() implies (#[trigger] a.drop_last()[i]).0@
            == b.drop_last()[i].0@ by {
            assert(a.drop_last()[i] == a[i]);
        }
        lemma_same_keys_same_position(a.drop_last(), b.drop_last(), key);
    }
}

} // verus!
