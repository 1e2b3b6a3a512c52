//! Helpers for building and grouping vectors.
use vstd::prelude::*;
use vstd::std_specs::hash::obeys_key_model;
use std::collections::HashMap;
use std::hash::Hash;

verus! {

/// Creates a vector of `n` elements by applying a function to each index.
pub fn make_vec<T, F: Fn(usize) -> T>(n: usize, f: F) -> (r: Vec<T>)
    requires
        forall|i: usize| i < n ==> #[trigger] f.requires((i,)),
    ensures
        r@.len() == n,
        forall|i: int| 0 <= i < n ==> f.ensures((i as usize,), #[trigger] r@[i]),
{
    let mut v: Vec<T> = Vec::with_capacity(n);
    let mut i: usize = 0;
    while i < n
        invariant
            i <= n,
            v@.len() == i,
            forall|k: usize| k < n ==> #[trigger] f.requires((k,)),
            forall|k: int| 0 <= k < i ==> f.ensures((k as usize,), #[trigger] v@[k]),
        decreases n - i,
    {
        let val = f(i);
        v.push(val);
        i += 1;
    }
    v
}

/// The elements among the first `n` whose key is `key`, in their order.
pub open spec fn members<V, K>(items: Seq<V>, keys: Seq<K>, key: K, n: nat) -> Seq<V>
    decreases n,
{
    if n == 0 {
        Seq::empty()
    } else {
        let before = members(items, keys, key, (n - 1) as nat);
        if keys[n - 1] == key {
            before.push(items[n - 1])
        } else {
            before
        }
    }
}

/// Whether `groups` holds the first `n` elements grouped by their keys: a
/// group for each key that occurs, with the elements of that key in their order.
pub open spec fn grouped<V, K>(items: Seq<V>, keys: Seq<K>, groups: Map<K, Vec<V>>, n: nat) -> bool {
    &&& forall|k: K| groups.contains_key(k) <==> exists|i: int| 0 <= i < n && #[trigger] keys[i] == k
    &&& forall|k: K| #[trigger] groups.contains_key(k) ==> groups[k]@ == members(items, keys, k, n)
}

/// Whether `groups` holds the elements grouped by keys that the function
/// gave for them.
pub open spec fn groups_of<V, K, F: Fn(&V) -> K>(items: Seq<V>, f: F, groups: Map<K, Vec<V>>) -> bool {
    exists|keys: Seq<K>|
        {
            &&& #[trigger] keys.len() == items.len()
            &&& forall|i: int| 0 <= i < items.len() ==> f.ensures((&items[i],), #[trigger] keys[i])
            &&& grouped(items, keys, groups, items.len())
        }
}

/// Grouping the elements of a collection by a key.
pub trait GroupBy<V>: Sized {
    /// The elements of the collection.
    spec fn items(&self) -> Seq<V>;

    /// Groups the elements by the result of applying a function to each of
    /// them: the map holds, for each key, the elements with that key in
    /// their order.
    fn group_by<K: Hash + Eq, F: Fn(&V) -> K>(self, f: F) -> (out: HashMap<K, Vec<V>>)
        requires
            obeys_key_model::<K>(),
            forall|v: V| #[trigger] f.requires((&v,)),
        ensures
            groups_of(self.items(), f, out@),
    ;
}

/// The elements of a vector in reverse order.
fn turn_round<T>(v: Vec<T>) -> (r: Vec<T>)
    ensures
        r@.len() == v@.len(),
        forall|k: int| 0 <= k < r@.len() ==> #[trigger] r@[k] == v@[v@.len() - 1 - k],
{
    let ghost items = v@;
    let mut rest = v;
    let mut turned: Vec<T> = Vec::new();
    while rest.len() > 0
        invariant
            rest@.len() + turned@.len() == items.len(),
            rest@ == items.take(rest@.len() as int),
            forall|k: int| 0 <= k < turned@.len() ==> #[trigger] turned@[k] == items[items.len() - 1 - k],
        decreases rest@.len(),
    {
        let x = rest.pop().unwrap();
        turned.push(x);
        proof {
            assert(rest@ =~= items.take(rest@.len() as int));
        }
    }
    turned
}

/// Groups the elements by the keys that stand at their indices: the map
/// holds, for each key, the elements with that key in their order.
pub fn group_by_keys<V, K: Hash + Eq>(items: Vec<V>, keys: Vec<K>) -> (out: HashMap<K, Vec<V>>)
    requires
        obeys_key_model::<K>(),
        items@.len() == keys@.len(),
    ensures
        grouped(items@, keys@, out@, items@.len()),
{
    broadcast use vstd::std_specs::hash::group_hash_axioms;

    let total: usize = items.len();
    let mut turned = turn_round(items);
    let mut turned_keys = turn_round(keys);
    let mut out: HashMap<K, Vec<V>> = HashMap::new();
    let mut i: usize = 0;
    while turned.len() > 0
        invariant
            obeys_key_model::<K>(),
            total == items@.len(),
            items@.len() == keys@.len(),
            turned@.len() == turned_keys@.len(),
            i + turned@.len() == items@.len(),
            forall|k: int| 0 <= k < turned@.len() ==> #[trigger] turned@[k] == items@[items@.len() - 1 - k],
            forall|k: int| 0 <= k < turned_keys@.len() ==> #[trigger] turned_keys@[k] == keys@[keys@.len() - 1 - k],
            grouped(items@, keys@, out@, i as nat),
        decreases turned@.len(),
    {
        let elem = turned.pop().unwrap();
        let k = turned_keys.pop().unwrap();
        assert(elem == items@[i as int]);
        assert(k == keys@[i as int]);
        let ghost before = out@;
        let mut group: Vec<V> = match out.remove(&k) {
            Some(group) => group,
            None => Vec::new(),
        };
        proof {
            if before.contains_key(k) {
                assert(group@ == members(items@, keys@, k, i as nat));
            } else {
                lemma_no_members(items@, keys@, k, i as nat);
            }
        }
        group.push(elem);
        out.insert(k, group);
        proof {
            assert(out@ =~= before.insert(k, group));
            assert forall|q: K| out@.contains_key(q) <==> exists|j: int|
                0 <= j < i + 1 && #[trigger] keys@[j] == q by {
                if out@.contains_key(q) {
                    if q == k {
                        assert(keys@[i as int] == q);
                    } else {
                        assert(before.contains_key(q));
                        let j = choose|j: int| 0 <= j < i && #[trigger] keys@[j] == q;
                        assert(keys@[j] == q);
                    }
                }
                if exists|j: int| 0 <= j < i + 1 && #[trigger] keys@[j] == q {
                    let j = choose|j: int| 0 <= j < i + 1 && #[trigger] keys@[j] == q;
                    if j < i {
                        assert(before.contains_key(q));
                    }
                }
            }
            assert forall|q: K| #[trigger] out@.contains_key(q) implies out@[q]@ == members(
                items@,
                keys@,
                q,
                (i + 1) as nat,
            ) by {
                if q != k {
                    assert(before.contains_key(q));
                }
            }
        }
        i += 1;
    }
    out
}

impl<T> GroupBy<T> for Vec<T> {
    open spec fn items(&self) -> Seq<T> {
        self@
    }

    fn group_by<K: Hash + Eq, F: Fn(&T) -> K>(self, f: F) -> (out: HashMap<K, Vec<T>>) {
        let mut keys: Vec<K> = Vec::new();
        let mut i: usize = 0;
        while i < self.len()
            invariant
                i <= self@.len(),
                forall|v: T| #[trigger] f.requires((&v,)),
                keys@.len() == i,
                forall|j: int| 0 <= j < i ==> f.ensures((&self@[j],), #[trigger] keys@[j]),
            decreases self@.len() - i,
        {
            let k = f(&self[i]);
            keys.push(k);
            i += 1;
        }
        let ghost ks = keys@;
        let out = group_by_keys(self, keys);
        proof {
            assert(ks.len() == self@.len());
        }
        out
    }
}

/// A key that does not occur has no members.
proof fn lemma_no_members<V, K>(items: Seq<V>, keys: Seq<K>, key: K, n: nat)
    requires
        n <= keys.len(),
        forall|i: int| 0 <= i < n ==> keys[i] != key,
    ensures
        members(items, keys, key, n) == Seq::<V>::empty(),
    decreases n,
{
    if n > 0 {
        lemma_no_members(items, keys, key, (n - 1) as nat);
    }
}

} // verus!
