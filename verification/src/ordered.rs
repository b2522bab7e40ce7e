//! Association lists keyed by integers, kept in ascending key order: the contract's
//! integer-keyed maps, held in memory.
use vstd::prelude::*;

verus! {

/// Keys strictly ascend (so none occurs twice).
pub open spec fn ascending<V>(v: Seq<(u64, V)>) -> bool {
    forall|i: int, j: int| 0 <= i < j < v.len() ==> v[i].0 < v[j].0
}

pub open spec fn has_id<V>(v: Seq<(u64, V)>, k: u64) -> bool {
    exists|i: int| 0 <= i < v.len() && #[trigger] v[i].0 == k
}

/// The value stored under `k` (meaningful when `has_id(v, k)`).
pub open spec fn value_of<V>(v: Seq<(u64, V)>, k: u64) -> V {
    v[choose|i: int| 0 <= i < v.len() && #[trigger] v[i].0 == k].1
}

/// The list as a map from key to value.
pub open spec fn id_map<V>(v: Seq<(u64, V)>) -> Map<u64, V> {
    Map::new(|k: u64| has_id(v, k), |k: u64| value_of(v, k))
}

/// In an ascending list, the entry at `i` is the one found under its key.
pub proof fn lemma_value_of_index<V>(v: Seq<(u64, V)>, i: int)
    requires
        ascending(v),
        0 <= i < v.len(),
    ensures
        has_id(v, v[i].0),
        value_of(v, v[i].0) == v[i].1,
        id_map(v).contains_key(v[i].0),
        id_map(v)[v[i].0] == v[i].1,
{
    let k = v[i].0;
    assert(v[i].0 == k);
    let j = choose|j: int| 0 <= j < v.len() && #[trigger] v[j].0 == k;
    if j != i {
        if j < i {
            assert(v[j].0 < v[i].0);
        } else {
            assert(v[i].0 < v[j].0);
        }
    }
}

/// The map of an ascending list holds exactly its keys, each with its entry's value.
pub proof fn lemma_id_map_entries<V>(v: Seq<(u64, V)>)
    requires
        ascending(v),
    ensures
        forall|i: int| 0 <= i < v.len() ==> #[trigger] id_map(v).contains_key(v[i].0) && id_map(v)[v[i].0] == v[i].1,
        forall|k: u64| #[trigger] id_map(v).contains_key(k) ==> exists|i: int| 0 <= i < v.len() && v[i].0 == k,
{
    assert forall|i: int| 0 <= i < v.len() implies #[trigger] id_map(v).contains_key(v[i].0) && id_map(v)[v[i].0] == v[i].1 by {
        lemma_value_of_index(v, i);
    }
}

/// Finds the index of key `k`.
pub fn find_id<V>(v: &Vec<(u64, V)>, k: u64) -> (r: Option<usize>)
    requires
        ascending(v@),
    ensures
        r matches Some(i) ==> i < v@.len() && v@[i as int].0 == k,
        r is None ==> !has_id(v@, k) && !id_map(v@).contains_key(k),
{
    let mut i: usize = 0;
    while i < v.len()
        invariant
            i <= v@.len(),
            forall|j: int| 0 <= j < i ==> v@[j].0 != k,
        decreases v.len() - i,
    {
        if v[i].0 == k {
            return Some(i);
        }
        i += 1;
    }
    None
}

/// Position at which key `k` belongs: the number of keys below it.
fn lower_bound<V>(v: &Vec<(u64, V)>, k: u64) -> (p: usize)
    requires
        ascending(v@),
    ensures
        p <= v@.len(),
        forall|j: int| 0 <= j < p ==> v@[j].0 < k,
        forall|j: int| p <= j < v@.len() ==> v@[j].0 >= k,
{
    let mut i: usize = 0;
    while i < v.len() && v[i].0 < k
        invariant
            i <= v@.len(),
            ascending(v@),
            forall|j: int| 0 <= j < i ==> v@[j].0 < k,
        decreases v.len() - i,
    {
        i += 1;
    }
    proof {
        assert forall|j: int| i <= j < v@.len() implies v@[j].0 >= k by {
            if j > i {
                assert(v@[i as int].0 < v@[j].0);
            }
        }
    }
    i
}

/// Replacing the value of an existing key keeps the list ascending and updates its map.
pub proof fn lemma_put_replaced<V>(old_v: Seq<(u64, V)>, p: int, k: u64, val: V)
    requires
        ascending(old_v),
        0 <= p < old_v.len(),
        old_v[p].0 == k,
    ensures
        ascending(old_v.update(p, (k, val))),
        id_map(old_v.update(p, (k, val))) == id_map(old_v).insert(k, val),
{
    let v = old_v.update(p, (k, val));
    assert forall|a: int, b: int| 0 <= a < b < v.len() implies v[a].0 < v[b].0 by {
        assert(old_v[a].0 < old_v[b].0);
    }
    lemma_id_map_entries(v);
    lemma_id_map_entries(old_v);
    assert forall|key: u64| #[trigger] id_map(v).contains_key(key) == id_map(old_v).insert(k, val).contains_key(key) by {
        if id_map(old_v).contains_key(key) {
            let j = choose|j: int| 0 <= j < old_v.len() && old_v[j].0 == key;
            assert(v[j].0 == key);
        }
        if id_map(v).contains_key(key) {
            let j = choose|j: int| 0 <= j < v.len() && v[j].0 == key;
            assert(old_v[j].0 == key);
        }
    }
    assert forall|key: u64| #[trigger] id_map(v).contains_key(key) && key != k implies id_map(v)[key] == id_map(old_v)[key] by {
        let j = choose|j: int| 0 <= j < v.len() && v[j].0 == key;
        assert(v[j] == old_v[j]);
    }
    assert(id_map(v) =~= id_map(old_v).insert(k, val));
}

proof fn lemma_put_inserted_ascending<V>(old_v: Seq<(u64, V)>, p: int, k: u64, val: V)
    requires
        ascending(old_v),
        0 <= p <= old_v.len(),
        forall|j: int| 0 <= j < p ==> old_v[j].0 < k,
        forall|j: int| p <= j < old_v.len() ==> old_v[j].0 > k,
    ensures
        ascending(old_v.insert(p, (k, val))),
{
    let v = old_v.insert(p, (k, val));
    assert forall|a: int, b: int| 0 <= a < b < v.len() implies v[a].0 < v[b].0 by {
        if b < p {
            assert(old_v[a].0 < old_v[b].0);
        } else if b == p {
            assert(v[a] == old_v[a]);
        } else if a < p {
            assert(v[b] == old_v[b - 1]);
        } else if a == p {
            assert(v[b] == old_v[b - 1]);
        } else {
            assert(v[a] == old_v[a - 1] && v[b] == old_v[b - 1]);
            assert(old_v[a - 1].0 < old_v[b - 1].0);
        }
    }
}

proof fn lemma_put_inserted<V>(old_v: Seq<(u64, V)>, p: int, k: u64, val: V)
    requires
        ascending(old_v),
        0 <= p <= old_v.len(),
        forall|j: int| 0 <= j < p ==> old_v[j].0 < k,
        forall|j: int| p <= j < old_v.len() ==> old_v[j].0 > k,
    ensures
        ascending(old_v.insert(p, (k, val))),
        id_map(old_v.insert(p, (k, val))) == id_map(old_v).insert(k, val),
{
    let v = old_v.insert(p, (k, val));
    lemma_put_inserted_ascending(old_v, p, k, val);
    lemma_id_map_entries(v);
    lemma_id_map_entries(old_v);
    assert(v[p] == (k, val));
    assert forall|key: u64| #[trigger] id_map(v).contains_key(key) == id_map(old_v).insert(k, val).contains_key(key) by {
        if key == k {
            assert(v[p].0 == key);
        }
        if id_map(old_v).contains_key(key) {
            let j = choose|j: int| 0 <= j < old_v.len() && old_v[j].0 == key;
            if j < p {
                assert(v[j].0 == key);
            } else {
                assert(v[j + 1].0 == key);
            }
        }
        if id_map(v).contains_key(key) {
            let j = choose|j: int| 0 <= j < v.len() && v[j].0 == key;
            if j < p {
                assert(old_v[j].0 == key);
            } else if j > p {
                assert(old_v[j - 1].0 == key);
            }
        }
    }
    assert forall|key: u64| #[trigger] id_map(v).contains_key(key) && key != k implies id_map(v)[key] == id_map(old_v)[key] by {
        let j = choose|j: int| 0 <= j < v.len() && v[j].0 == key;
        if j < p {
            assert(v[j] == old_v[j]);
        } else {
            assert(j != p);
            assert(v[j] == old_v[j - 1]);
        }
    }
    assert(id_map(v) =~= id_map(old_v).insert(k, val));
}

/// Stores `val` under `k`, replacing any earlier value.
pub fn put_id<V>(v: &mut Vec<(u64, V)>, k: u64, val: V)
    requires
        ascending(old(v)@),
    ensures
        ascending(final(v)@),
        id_map(final(v)@) == id_map(old(v)@).insert(k, val),
{
    let ghost old_v = v@;
    let p = lower_bound(v, k);
    if p < v.len() && v[p].0 == k {
        proof {
            lemma_put_replaced(old_v, p as int, k, val);
        }
        v.set(p, (k, val));
    } else {
        proof {
            assert forall|j: int| p <= j < old_v.len() implies old_v[j].0 > k by {
                if j > p {
                    assert(old_v[p as int].0 < old_v[j].0);
                }
            }
            lemma_put_inserted(old_v, p as int, k, val);
        }
        v.insert(p, (k, val));
    }
}

/// Removes the entry under `k` and hands back its value, if there is one.
pub fn take_id<V>(v: &mut Vec<(u64, V)>, k: u64) -> (r: Option<V>)
    requires
        ascending(old(v)@),
    ensures
        ascending(final(v)@),
        id_map(final(v)@) == id_map(old(v)@).remove(k),
        r == (if id_map(old(v)@).contains_key(k) {
            Some(id_map(old(v)@)[k])
        } else {
            None
        }),
{
    let ghost old_v = v@;
    if let Some(i) = find_id(v, k) {
        let (_, val) = v.remove(i);
        proof {
            lemma_value_of_index(old_v, i as int);
            assert forall|a: int, b: int| 0 <= a < b < v@.len() implies v@[a].0 < v@[b].0 by {
                let a0 = if a < i { a } else { a + 1 };
                let b0 = if b < i { b } else { b + 1 };
                assert(v@[a] == old_v[a0] && v@[b] == old_v[b0]);
                assert(old_v[a0].0 < old_v[b0].0);
            }
            lemma_id_map_entries(v@);
            lemma_id_map_entries(old_v);
            assert forall|key: u64| #[trigger] id_map(v@).contains_key(key) == id_map(old_v).remove(k).contains_key(key) by {
                if id_map(old_v).contains_key(key) && key != k {
                    let j = choose|j: int| 0 <= j < old_v.len() && old_v[j].0 == key;
                    assert(j != i);
                    let j2 = if j < i { j } else { j - 1 };
                    assert(v@[j2].0 == key);
                }
                if id_map(v@).contains_key(key) {
                    let j = choose|j: int| 0 <= j < v@.len() && v@[j].0 == key;
                    let j0 = if j < i { j } else { j + 1 };
                    assert(old_v[j0].0 == key);
                    if key == k {
                        if j0 < i {
                            assert(old_v[j0].0 < old_v[i as int].0);
                        } else {
                            assert(old_v[i as int].0 < old_v[j0].0);
                        }
                    }
                }
            }
            assert forall|key: u64| #[trigger] id_map(v@).contains_key(key) implies id_map(v@)[key] == id_map(old_v)[key] by {
                let j = choose|j: int| 0 <= j < v@.len() && v@[j].0 == key;
                let j0 = if j < i { j } else { j + 1 };
                assert(old_v[j0] == v@[j]);
            }
            assert(id_map(v@) =~= id_map(old_v).remove(k));
        }
        Some(val)
    } else {
        proof {
            assert(id_map(v@) =~= id_map(old_v).remove(k));
        }
        None
    }
}

/// Removes the entry under `k`, if any.
pub fn remove_id<V>(v: &mut Vec<(u64, V)>, k: u64)
    requires
        ascending(old(v)@),
    ensures
        ascending(final(v)@),
        id_map(final(v)@) == id_map(old(v)@).remove(k),
{
    let _ = take_id(v, k);
}

/// A reference to the value stored under `k`, if any.
pub fn get_id<V>(v: &Vec<(u64, V)>, k: u64) -> (r: Option<&V>)
    requires
        ascending(v@),
    ensures
        r == (if id_map(v@).contains_key(k) {
            Some(&id_map(v@)[k])
        } else {
            None
        }),
{
    match find_id(v, k) {
        Some(i) => {
            proof {
                lemma_value_of_index(v@, i as int);
            }
            Some(&v[i].1)
        },
        None => None,
    }
}

/// Two lists with the same keys, in the same places, have maps of the same domain.
pub proof fn lemma_same_keys<A, B>(a: Seq<(u64, A)>, b: Seq<(u64, B)>)
    requires
        a.len() == b.len(),
        forall|i: int| 0 <= i < a.len() ==> #[trigger] a[i].0 == b[i].0,
    ensures
        forall|k: u64| #[trigger] id_map(a).contains_key(k) == id_map(b).contains_key(k),
{
    assert forall|k: u64| #[trigger] id_map(a).contains_key(k) == id_map(b).contains_key(k) by {
        if has_id(a, k) {
            let i = choose|i: int| 0 <= i < a.len() && #[trigger] a[i].0 == k;
            assert(b[i].0 == k);
        }
        if has_id(b, k) {
            let i = choose|i: int| 0 <= i < b.len() && #[trigger] b[i].0 == k;
            assert(a[i].0 == k);
        }
    }
}

/// The keys after `after` (all, if none), ascending, at most `n` of them when `n` is
/// given.
pub open spec fn keys_after<V>(v: Seq<(u64, V)>, after: Option<u64>, n: Option<nat>) -> Seq<u64>
    decreases v.len(),
{
    if v.len() == 0 || n == Some(0nat) {
        seq![]
    } else if after matches Some(a) && v[0].0 <= a {
        keys_after(v.drop_first(), after, n)
    } else {
        seq![v[0].0] + keys_after(
            v.drop_first(),
            after,
            match n {
                Some(k) => Some((k - 1) as nat),
                None => None,
            },
        )
    }
}

/// The keys before `before` (all, if none), descending, at most `n` of them when `n` is
/// given.
pub open spec fn keys_before<V>(v: Seq<(u64, V)>, before: Option<u64>, n: Option<nat>) -> Seq<u64>
    decreases v.len(),
{
    if v.len() == 0 || n == Some(0nat) {
        seq![]
    } else if before matches Some(b) && v.last().0 >= b {
        keys_before(v.drop_last(), before, n)
    } else {
        seq![v.last().0] + keys_before(
            v.drop_last(),
            before,
            match n {
                Some(k) => Some((k - 1) as nat),
                None => None,
            },
        )
    }
}

pub open spec fn count_of(limit: Option<u32>) -> Option<nat> {
    match limit {
        Some(l) => Some(l as nat),
        None => None,
    }
}

/// One page of keys in ascending order.
pub fn page_after<V>(v: &Vec<(u64, V)>, after: Option<u64>, limit: Option<u32>) -> (r: Vec<u64>)
    ensures
        r@ == keys_after(v@, after, count_of(limit)),
{
    let ghost all = v@;
    let mut out: Vec<u64> = Vec::new();
    let mut left: Option<u32> = limit;
    let mut i: usize = 0;
    assert(all.skip(0) =~= all);
    while i < v.len() && left != Some(0u32)
        invariant
            i <= all.len(),
            all == v@,
            out@ + keys_after(all.skip(i as int), after, count_of(left)) == keys_after(
                all,
                after,
                count_of(limit),
            ),
        decreases all.len() - i,
    {
        let k = v[i].0;
        assert(all.skip(i as int).drop_first() =~= all.skip(i + 1));
        let skip = match after {
            Some(a) => k <= a,
            None => false,
        };
        if !skip {
            out.push(k);
            left = match left {
                Some(l) => Some(l - 1),
                None => None,
            };
        }
        i += 1;
    }
    proof {
        if i == all.len() {
            assert(all.skip(i as int).len() == 0);
        }
    }
    assert(out@ =~= keys_after(all, after, count_of(limit)));
    out
}

/// One page of keys in descending order.
pub fn page_before<V>(v: &Vec<(u64, V)>, before: Option<u64>, limit: Option<u32>) -> (r: Vec<u64>)
    ensures
        r@ == keys_before(v@, before, count_of(limit)),
{
    let ghost all = v@;
    let mut out: Vec<u64> = Vec::new();
    let mut left: Option<u32> = limit;
    let mut i: usize = v.len();
    assert(all.take(all.len() as int) =~= all);
    while i > 0 && left != Some(0u32)
        invariant
            i <= all.len(),
            all == v@,
            out@ + keys_before(all.take(i as int), before, count_of(left)) == keys_before(
                all,
                before,
                count_of(limit),
            ),
        decreases i,
    {
        let k = v[i - 1].0;
        assert(all.take(i as int).drop_last() =~= all.take(i - 1));
        let skip = match before {
            Some(b) => k >= b,
            None => false,
        };
        if !skip {
            out.push(k);
            left = match left {
                Some(l) => Some(l - 1),
                None => None,
            };
        }
        i -= 1;
    }
    proof {
        if i == 0 {
            assert(all.take(0).len() == 0);
        }
    }
    assert(out@ =~= keys_before(all, before, count_of(limit)));
    out
}

} // verus!
