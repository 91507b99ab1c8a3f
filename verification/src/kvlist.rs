//! String-keyed association lists with unique keys. The asset store and the
//! save store keep their registries in this shape, and their contracts speak
//! of `has_key` and `value_sel` over the list's view.

use vstd::prelude::*;

verus! {

/// Whether some entry carries the key `k`.
pub open spec fn has_key<T>(s: Seq<(String, T)>, k: Seq<char>) -> bool {
    exists|i: int| 0 <= i < s.len() && s[i].0@ == k
}

/// The index of the entry carrying `k`.
pub open spec fn key_index<T>(s: Seq<(String, T)>, k: Seq<char>) -> int {
    choose|i: int| 0 <= i < s.len() && s[i].0@ == k
}

/// The value stored under `k`.
pub open spec fn value_sel<T>(s: Seq<(String, T)>, k: Seq<char>) -> T {
    s[key_index(s, k)].1
}

/// No two entries carry the same key.
pub open spec fn distinct_keys<T>(s: Seq<(String, T)>) -> bool {
    forall|i: int, j: int| 0 <= i < j < s.len() ==> s[i].0@ != s[j].0@
}

/// How a list looks after binding `key` to `v`: the binding is present,
/// every other binding is untouched, and keys stay distinct.
pub open spec fn kv_upd<T>(neu: Seq<(String, T)>, prior: Seq<(String, T)>, key: Seq<char>, v: T) -> bool {
    &&& distinct_keys(neu)
    &&& has_key(neu, key)
    &&& value_sel(neu, key) == v
    &&& forall|k: Seq<char>| #[trigger] has_key(neu, k) <==> has_key(prior, k) || k == key
    &&& forall|k: Seq<char>|
        k != key && #[trigger] has_key(prior, k) ==> value_sel(neu, k) == value_sel(prior, k)
}

/// Under distinct keys, an entry that carries `k` is the entry of `k`.
pub proof fn lemma_key_at<T>(s: Seq<(String, T)>, k: Seq<char>, i: int)
    requires
        distinct_keys(s),
        0 <= i < s.len(),
        s[i].0@ == k,
    ensures
        has_key(s, k),
        key_index(s, k) == i,
        value_sel(s, k) == s[i].1,
{
    assert(has_key(s, k));
    let j = key_index(s, k);
    assert(0 <= j < s.len() && s[j].0@ == k);
    if i != j {
        assert(s[i].0@ != s[j].0@);
    }
}

/// Relies on str's PartialEq: string slices compare equal exactly when
/// their character sequences do.
#[verifier::external_body]
pub(crate) fn str_eq(a: &str, b: &str) -> (r: bool)
    ensures
        r == (a@ == b@),
{
    a == b
}

/// The position of the entry keyed `name`, if one exists.
pub(crate) fn kv_find<T>(entries: &Vec<(String, T)>, name: &str) -> (r: Option<usize>)
    ensures
        r matches Some(i) ==> 0 <= i < entries@.len() && entries@[i as int].0@ == name@,
        r is None ==> !has_key(entries@, name@),
{
    let n = entries.len();
    let mut i: usize = 0;
    while i < n
        invariant
            n == entries@.len(),
            0 <= i <= n,
            forall|j: int| 0 <= j < i ==> entries@[j].0@ != name@,
        decreases n - i,
    {
        if str_eq(entries[i].0.as_str(), name) {
            return Some(i);
        }
        i = i + 1;
    }
    None
}

/// Looks the value of `name` up.
pub(crate) fn kv_get<'a, T>(entries: &'a Vec<(String, T)>, name: &str) -> (r: Option<&'a T>)
    requires
        distinct_keys(entries@),
    ensures
        r is Some <==> has_key(entries@, name@),
        r matches Some(v) ==> *v == value_sel(entries@, name@),
{
    match kv_find(entries, name) {
        Some(i) => {
            proof {
                lemma_key_at(entries@, name@, i as int);
            }
            Some(&entries[i].1)
        },
        None => None,
    }
}

/// Binds `name` to `value`, replacing an earlier binding if there was one.
pub(crate) fn kv_insert<T>(entries: &mut Vec<(String, T)>, name: String, value: T)
    requires
        distinct_keys(old(entries)@),
    ensures
        distinct_keys(final(entries)@),
        has_key(final(entries)@, name@),
        value_sel(final(entries)@, name@) == value,
        forall|k: Seq<char>|
            #[trigger] has_key(final(entries)@, k) <==> has_key(old(entries)@, k) || k == name@,
        forall|k: Seq<char>|
            k != name@ && #[trigger] has_key(old(entries)@, k) ==> value_sel(final(entries)@, k)
                == value_sel(old(entries)@, k),
        kv_upd(final(entries)@, old(entries)@, name@, value),
{
    let ghost prior = entries@;
    let ghost key = name@;
    match kv_find(entries, name.as_str()) {
        Some(i) => {
            let slot = vstd::std_specs::vec::vec_index_mut(entries, i);
            *slot = (name, value);
            proof {
                assert(entries@ =~= prior.update(i as int, entries@[i as int]));
                assert(distinct_keys(entries@));
                lemma_key_at(entries@, key, i as int);
                assert forall|k: Seq<char>|
                    #[trigger] has_key(entries@, k) <==> has_key(prior, k) || k == key by {
                    if has_key(entries@, k) {
                        let j = key_index(entries@, k);
                        assert(0 <= j < entries@.len() && entries@[j].0@ == k);
                        if j != i {
                            assert(prior[j].0@ == k);
                            assert(has_key(prior, k));
                        }
                    }
                    if has_key(prior, k) && k != key {
                        let j = choose|j: int| 0 <= j < prior.len() && prior[j].0@ == k;
                        assert(j != i);
                        assert(entries@[j].0@ == k);
                    }
                }
                assert forall|k: Seq<char>|
                    k != key && #[trigger] has_key(prior, k) implies value_sel(entries@, k)
                    == value_sel(prior, k) by {
                    let j = choose|j: int| 0 <= j < prior.len() && prior[j].0@ == k;
                    assert(j != i);
                    assert(entries@[j].0@ == k && entries@[j].1 == prior[j].1);
                    lemma_key_at(entries@, k, j);
                    lemma_key_at(prior, k, j);
                }
            }
        },
        None => {
            entries.push((name, value));
            proof {
                assert(entries@ =~= prior.push(entries@.last()));
                assert forall|x: int, y: int|
                    0 <= x < y < entries@.len() implies entries@[x].0@ != entries@[y].0@ by {
                    if y + 1 == entries@.len() {
                        assert(entries@[x].0@ == prior[x].0@);
                        assert(!has_key(prior, key));
                    }
                }
                lemma_key_at(entries@, key, entries@.len() - 1);
                assert forall|k: Seq<char>|
                    #[trigger] has_key(entries@, k) <==> has_key(prior, k) || k == key by {
                    if has_key(entries@, k) {
                        let j = key_index(entries@, k);
                        if j < prior.len() {
                            assert(prior[j].0@ == k);
                        }
                    }
                    if has_key(prior, k) {
                        let j = choose|j: int| 0 <= j < prior.len() && prior[j].0@ == k;
                        assert(entries@[j].0@ == k);
                    }
                }
                assert forall|k: Seq<char>|
                    k != key && #[trigger] has_key(prior, k) implies value_sel(entries@, k)
                    == value_sel(prior, k) by {
                    let j = choose|j: int| 0 <= j < prior.len() && prior[j].0@ == k;
                    lemma_key_at(entries@, k, j);
                    lemma_key_at(prior, k, j);
                }
            }
        },
    }
}

/// Removes the binding of `name`, returning the removed value.
pub(crate) fn kv_remove<T>(entries: &mut Vec<(String, T)>, name: &str) -> (r: Option<T>)
    requires
        distinct_keys(old(entries)@),
    ensures
        distinct_keys(final(entries)@),
        !has_key(final(entries)@, name@),
        r is Some <==> has_key(old(entries)@, name@),
        r matches Some(v) ==> v == value_sel(old(entries)@, name@),
        forall|k: Seq<char>|
            k != name@ ==> (#[trigger] has_key(final(entries)@, k) <==> has_key(old(entries)@, k)),
        forall|k: Seq<char>|
            k != name@ && #[trigger] has_key(old(entries)@, k) ==> value_sel(final(entries)@, k)
                == value_sel(old(entries)@, k),
{
    let ghost prior = entries@;
    let ghost key = name@;
    match kv_find(entries, name) {
        Some(i) => {
            proof {
                lemma_key_at(prior, key, i as int);
            }
            let (_, value) = entries.remove(i);
            proof {
                assert(entries@ =~= prior.subrange(0, i as int) + prior.subrange(
                    i + 1,
                    prior.len() as int,
                ));
                assert forall|x: int, y: int|
                    0 <= x < y < entries@.len() implies entries@[x].0@ != entries@[y].0@ by {
                    let px: int = if x < i { x } else { x + 1 };
                    let py: int = if y < i { y } else { y + 1 };
                    assert(entries@[x] == prior[px] && entries@[y] == prior[py]);
                }
                assert forall|j: int| 0 <= j < entries@.len() implies entries@[j].0@ != key by {
                    let pj: int = if j < i { j } else { j + 1 };
                    assert(entries@[j] == prior[pj]);
                }
                assert forall|k: Seq<char>| k != key implies (#[trigger] has_key(entries@, k)
                    <==> has_key(prior, k)) by {
                    if has_key(entries@, k) {
                        let j = key_index(entries@, k);
                        let pj: int = if j < i { j } else { j + 1 };
                        assert(prior[pj].0@ == k);
                    }
                    if has_key(prior, k) {
                        let j = choose|j: int| 0 <= j < prior.len() && prior[j].0@ == k;
                        assert(j != i);
                        let nj: int = if j < i { j } else { j - 1 };
                        assert(entries@[nj] == prior[j]);
                    }
                }
                assert forall|k: Seq<char>|
                    k != key && #[trigger] has_key(prior, k) implies value_sel(entries@, k)
                    == value_sel(prior, k) by {
                    let j = choose|j: int| 0 <= j < prior.len() && prior[j].0@ == k;
                    assert(j != i);
                    let nj: int = if j < i { j } else { j - 1 };
                    assert(entries@[nj] == prior[j]);
                    lemma_key_at(entries@, k, nj);
                    lemma_key_at(prior, k, j);
                }
            }
            Some(value)
        },
        None => None,
    }
}

} // verus!
