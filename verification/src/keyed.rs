//! Association lists keyed by strings: the contract's string-keyed maps, held in memory.
use vstd::prelude::*;

use crate::keyorder::{above, is_key_page, key_less, key_lt, lemma_key_order, opt_view, str_views};

verus! {

/// No key occurs twice.
pub open spec fn keys_unique<V>(v: Seq<(String, V)>) -> bool {
    forall|i: int, j: int| 0 <= i < j < v.len() ==> v[i].0@ != v[j].0@
}

pub open spec fn has_key<V>(v: Seq<(String, V)>, k: Seq<char>) -> bool {
    exists|i: int| 0 <= i < v.len() && #[trigger] v[i].0@ == k
}

/// The value stored under `k` (meaningful when `has_key(v, k)`).
pub open spec fn value_at<V>(v: Seq<(String, V)>, k: Seq<char>) -> V {
    v[choose|i: int| 0 <= i < v.len() && #[trigger] v[i].0@ == k].1
}

/// The list as a map from key to value.
pub open spec fn as_map<V>(v: Seq<(String, V)>) -> Map<Seq<char>, V> {
    Map::new(|k: Seq<char>| has_key(v, k), |k: Seq<char>| value_at(v, k))
}

/// In a list without repeated keys, the entry at `i` is the one found under its key.
pub proof fn lemma_value_at_index<V>(v: Seq<(String, V)>, i: int)
    requires
        keys_unique(v),
        0 <= i < v.len(),
    ensures
        has_key(v, v[i].0@),
        value_at(v, v[i].0@) == v[i].1,
{
    let k = v[i].0@;
    assert(v[i].0@ == k);
    let j = choose|j: int| 0 <= j < v.len() && #[trigger] v[j].0@ == k;
    if j != i {
        if j < i {
            assert(v[j].0@ != v[i].0@);
        } else {
            assert(v[i].0@ != v[j].0@);
        }
    }
}

/// Finds the index of key `k`.
pub fn find_key<V>(v: &Vec<(String, V)>, k: &String) -> (r: Option<usize>)
    ensures
        r matches Some(i) ==> i < v@.len() && v@[i as int].0@ == k@,
        r is None ==> !has_key(v@, k@),
{
    let mut i: usize = 0;
    while i < v.len()
        invariant
            i <= v@.len(),
            forall|j: int| 0 <= j < i ==> v@[j].0@ != k@,
        decreases v.len() - i,
    {
        if v[i].0 == *k {
            return Some(i);
        }
        i += 1;
    }
    None
}

/// Stores `val` under `k`, replacing any earlier value.
pub fn set_key<V>(v: &mut Vec<(String, V)>, k: String, val: V)
    requires
        keys_unique(old(v)@),
    ensures
        keys_unique(final(v)@),
        as_map(final(v)@) == as_map(old(v)@).insert(k@, val),
{
    let ghost old_v = v@;
    match find_key(v, &k) {
        Some(i) => {
            let ghost kk = k@;
            v.set(i, (k, val));
            proof {
                assert forall|a: int, b: int| 0 <= a < b < v@.len() implies v@[a].0@ != v@[b].0@ by {
                    assert(old_v[a].0@ != old_v[b].0@);
                }
                lemma_value_at_index(v@, i as int);
                assert forall|key: Seq<char>| as_map(v@).dom().contains(key) == as_map(old_v).insert(kk, val).dom().contains(key) by {
                    if has_key(old_v, key) {
                        let j = choose|j: int| 0 <= j < old_v.len() && #[trigger] old_v[j].0@ == key;
                        if j != i {
                            assert(v@[j].0@ == key);
                        } else {
                            assert(v@[i as int].0@ == key);
                        }
                    }
                    if has_key(v@, key) {
                        let j = choose|j: int| 0 <= j < v@.len() && #[trigger] v@[j].0@ == key;
                        if j != i {
                            assert(old_v[j].0@ == key);
                        }
                    }
                }
                assert forall|key: Seq<char>| #[trigger] as_map(v@).dom().contains(key) && key != kk implies as_map(v@)[key] == as_map(old_v)[key] by {
                    let j = choose|j: int| 0 <= j < v@.len() && #[trigger] v@[j].0@ == key;
                    lemma_value_at_index(v@, j);
                    assert(j != i);
                    assert(old_v[j] == v@[j]);
                    lemma_value_at_index(old_v, j);
                }
                assert(as_map(v@) =~= as_map(old_v).insert(kk, val));
            }
        },
        None => {
            let ghost kk = k@;
            v.push((k, val));
            proof {
                let n = old_v.len();
                assert forall|a: int, b: int| 0 <= a < b < v@.len() implies v@[a].0@ != v@[b].0@ by {
                    if b < n {
                        assert(old_v[a].0@ != old_v[b].0@);
                    } else {
                        assert(v@[a] == old_v[a]);
                        assert(!(old_v[a].0@ == kk));
                    }
                }
                lemma_value_at_index(v@, n as int);
                assert forall|key: Seq<char>| as_map(v@).dom().contains(key) == as_map(old_v).insert(kk, val).dom().contains(key) by {
                    if has_key(old_v, key) {
                        let j = choose|j: int| 0 <= j < old_v.len() && #[trigger] old_v[j].0@ == key;
                        assert(v@[j].0@ == key);
                    }
                    if has_key(v@, key) {
                        let j = choose|j: int| 0 <= j < v@.len() && #[trigger] v@[j].0@ == key;
                        if j < n {
                            assert(old_v[j].0@ == key);
                        }
                    }
                }
                assert forall|key: Seq<char>| #[trigger] as_map(v@).dom().contains(key) && key != kk implies as_map(v@)[key] == as_map(old_v)[key] by {
                    let j = choose|j: int| 0 <= j < v@.len() && #[trigger] v@[j].0@ == key;
                    lemma_value_at_index(v@, j);
                    assert(j < n);
                    assert(old_v[j] == v@[j]);
                    lemma_value_at_index(old_v, j);
                }
                assert(as_map(v@) =~= as_map(old_v).insert(kk, val));
            }
        },
    }
}

/// Removes the entry under `k` and hands back its value, if there is one.
pub fn take_key<V>(v: &mut Vec<(String, V)>, k: &String) -> (r: Option<V>)
    requires
        keys_unique(old(v)@),
    ensures
        keys_unique(final(v)@),
        as_map(final(v)@) == as_map(old(v)@).remove(k@),
        r == (if as_map(old(v)@).contains_key(k@) {
            Some(as_map(old(v)@)[k@])
        } else {
            None
        }),
{
    let ghost old_v = v@;
    if let Some(i) = find_key(v, k) {
        let (_, val) = v.remove(i);
        proof {
            lemma_value_at_index(old_v, i as int);
            assert forall|a: int, b: int| 0 <= a < b < v@.len() implies v@[a].0@ != v@[b].0@ by {
                let a0 = if a < i { a } else { a + 1 };
                let b0 = if b < i { b } else { b + 1 };
                assert(v@[a] == old_v[a0] && v@[b] == old_v[b0]);
                assert(old_v[a0].0@ != old_v[b0].0@);
            }
            assert forall|key: Seq<char>| as_map(v@).dom().contains(key) == as_map(old_v).remove(k@).dom().contains(key) by {
                if has_key(old_v, key) && key != k@ {
                    let j = choose|j: int| 0 <= j < old_v.len() && #[trigger] old_v[j].0@ == key;
                    assert(j != i);
                    let j2 = if j < i { j } else { j - 1 };
                    assert(v@[j2].0@ == key);
                }
                if has_key(v@, key) {
                    let j = choose|j: int| 0 <= j < v@.len() && #[trigger] v@[j].0@ == key;
                    let j0 = if j < i { j } else { j + 1 };
                    assert(old_v[j0].0@ == key);
                    if key == k@ {
                        assert(old_v[i as int].0@ == key);
                        if j0 < i {
                            assert(old_v[j0].0@ != old_v[i as int].0@);
                        } else {
                            assert(old_v[i as int].0@ != old_v[j0].0@);
                        }
                    }
                }
            }
            assert forall|key: Seq<char>| #[trigger] as_map(v@).dom().contains(key) implies as_map(v@)[key] == as_map(old_v)[key] by {
                let j = choose|j: int| 0 <= j < v@.len() && #[trigger] v@[j].0@ == key;
                lemma_value_at_index(v@, j);
                let j0 = if j < i { j } else { j + 1 };
                assert(old_v[j0] == v@[j]);
                lemma_value_at_index(old_v, j0);
            }
            assert(as_map(v@) =~= as_map(old_v).remove(k@));
        }
        Some(val)
    } else {
        proof {
            assert(as_map(v@) =~= as_map(old_v).remove(k@));
        }
        None
    }
}


/// Removes the entry under `k`, if any.
pub fn remove_key<V>(v: &mut Vec<(String, V)>, k: &String)
    requires
        keys_unique(old(v)@),
    ensures
        keys_unique(final(v)@),
        as_map(final(v)@) == as_map(old(v)@).remove(k@),
{
    let _ = take_key(v, k);
}

/// A reference to the value stored under `k`, if any.
pub fn get_key<'a, V>(v: &'a Vec<(String, V)>, k: &String) -> (r: Option<&'a V>)
    requires
        keys_unique(v@),
    ensures
        r == (if as_map(v@).contains_key(k@) {
            Some(&as_map(v@)[k@])
        } else {
            None
        }),
{
    match find_key(v, k) {
        Some(i) => {
            proof {
                lemma_value_at_index(v@, i as int);
            }
            Some(&v[i].1)
        },
        None => None,
    }
}

/// The index of the first key after `bound` in storage order, if any.
fn next_key_above<V>(v: &Vec<(String, V)>, bound: &Option<String>) -> (r: Option<usize>)
    ensures
        r matches Some(i) ==> i < v@.len() && above(opt_view(*bound), v@[i as int].0@) && forall|j: int|
            0 <= j < v@.len() && above(opt_view(*bound), #[trigger] v@[j].0@) ==> v@[j].0@
                == v@[i as int].0@ || key_lt(v@[i as int].0@, v@[j].0@),
        r is None ==> forall|j: int| 0 <= j < v@.len() ==> !above(opt_view(*bound), #[trigger] v@[j].0@),
{
    let mut best: Option<usize> = None;
    let mut i: usize = 0;
    while i < v.len()
        invariant
            i <= v@.len(),
            best matches Some(b) ==> b < i && above(opt_view(*bound), v@[b as int].0@) && forall|j: int|
                0 <= j < i && above(opt_view(*bound), #[trigger] v@[j].0@) ==> v@[j].0@
                    == v@[b as int].0@ || key_lt(v@[b as int].0@, v@[j].0@),
            best is None ==> forall|j: int| 0 <= j < i ==> !above(opt_view(*bound), #[trigger] v@[j].0@),
        decreases v.len() - i,
    {
        let after = match bound {
            Some(b) => key_less(b, &v[i].0),
            None => true,
        };
        if after {
            match best {
                Some(b) => {
                    if key_less(&v[i].0, &v[b].0) {
                        proof {
                            assert forall|j: int|
                                0 <= j < i + 1 && above(opt_view(*bound), #[trigger] v@[j].0@) implies v@[j].0@
                                == v@[i as int].0@ || key_lt(v@[i as int].0@, v@[j].0@) by {
                                lemma_key_order(v@[i as int].0@, v@[b as int].0@, v@[j].0@);
                            }
                        }
                        best = Some(i);
                    } else {
                        proof {
                            lemma_key_order(v@[i as int].0@, v@[b as int].0@, v@[b as int].0@);
                            lemma_key_order(v@[b as int].0@, v@[i as int].0@, v@[i as int].0@);
                        }
                    }
                },
                None => {
                    best = Some(i);
                },
            }
        }
        i += 1;
    }
    best
}

/// The first `n` keys after `start_after`, in storage order.
pub fn keys_in_order<V>(v: &Vec<(String, V)>, start_after: Option<String>, n: usize) -> (r: Vec<String>)
    ensures
        is_key_page(as_map(v@).dom(), opt_view(start_after), n as int, str_views(r@)),
{
    let ghost start = opt_view(start_after);
    let ghost dom = as_map(v@).dom();
    let mut out: Vec<String> = Vec::new();
    let mut bound = start_after;
    let mut done = false;
    while !done && out.len() < n
        invariant
            out@.len() <= n,
            forall|i: int| 0 <= i < out@.len() ==> dom.contains(#[trigger] out@[i]@) && above(start, out@[i]@),
            forall|i: int, j: int| 0 <= i < j < out@.len() ==> key_lt(#[trigger] out@[i]@, #[trigger] out@[j]@),
            out@.len() == 0 ==> opt_view(bound) == start,
            out@.len() > 0 ==> opt_view(bound) == Some(out@.last()@),
            forall|k: Seq<char>|
                #[trigger] dom.contains(k) && above(start, k) ==> str_views(out@).contains(k) || above(
                    opt_view(bound),
                    k,
                ),
            done ==> forall|k: Seq<char>| #[trigger] dom.contains(k) ==> !above(opt_view(bound), k),
            dom == as_map(v@).dom(),
        decreases n - out@.len() + (if done { 0int } else { 1int }),
    {
        match next_key_above(v, &bound) {
            None => {
                proof {
                    assert forall|k: Seq<char>| #[trigger] dom.contains(k) implies !above(opt_view(bound), k) by {
                        let j = choose|j: int| 0 <= j < v@.len() && #[trigger] v@[j].0@ == k;
                        assert(!above(opt_view(bound), v@[j].0@));
                    }
                }
                done = true;
            },
            Some(i) => {
                let k = v[i].0.clone();
                let ghost m = k@;
                let ghost old_out = out@;
                let ghost old_bound = opt_view(bound);
                proof {
                    assert(has_key(v@, m));
                    if old_out.len() > 0 {
                        assert forall|a: int| 0 <= a < old_out.len() implies key_lt(#[trigger] old_out[a]@, m) by {
                            if a < old_out.len() - 1 {
                                lemma_key_order(old_out[a]@, old_out.last()@, m);
                            }
                        }
                        lemma_key_order(start->0, old_out.last()@, m);
                    }
                }
                out.push(k.clone());
                bound = Some(k);
                proof {
                    assert(str_views(out@) =~= str_views(old_out).push(m));
                    assert forall|kk: Seq<char>| #[trigger] dom.contains(kk) && above(start, kk) implies str_views(
                        out@,
                    ).contains(kk) || above(opt_view(bound), kk) by {
                        if !str_views(old_out).contains(kk) {
                            assert(above(old_bound, kk));
                            let j = choose|j: int| 0 <= j < v@.len() && #[trigger] v@[j].0@ == kk;
                            assert(above(old_bound, v@[j].0@));
                            if kk == m {
                                assert(str_views(out@)[old_out.len() as int] == m);
                            }
                        } else {
                            let a = choose|a: int| 0 <= a < old_out.len() && #[trigger] str_views(old_out)[a] == kk;
                            assert(str_views(out@)[a] == kk);
                        }
                    }
                    assert forall|a: int, b: int| 0 <= a < b < out@.len() implies key_lt(
                        #[trigger] out@[a]@,
                        #[trigger] out@[b]@,
                    ) by {
                        if b < old_out.len() {
                            assert(out@[a] == old_out[a] && out@[b] == old_out[b]);
                        } else {
                            assert(out@[a] == old_out[a]);
                        }
                    }
                }
            },
        }
    }
    proof {
        let r = str_views(out@);
        assert forall|i: int| 0 <= i < r.len() implies dom.contains(#[trigger] r[i]) && above(start, r[i]) by {
            assert(r[i] == out@[i]@);
        }
        assert forall|i: int, j: int| 0 <= i < j < r.len() implies key_lt(#[trigger] r[i], #[trigger] r[j]) by {
            assert(r[i] == out@[i]@ && r[j] == out@[j]@);
        }
        assert forall|k: Seq<char>| #[trigger] dom.contains(k) && above(start, k) implies r.contains(k) || (r.len()
            == n && (n == 0 || key_lt(r.last(), k))) by {
            if !r.contains(k) {
                assert(above(opt_view(bound), k));
                if r.len() > 0 {
                    assert(r.last() == out@.last()@);
                }
            }
        }
    }
    out
}

/// A page of keys with room for as many keys as the list has entries holds every key.
pub proof fn lemma_all_keys_listed<V>(v: Seq<(String, V)>, r: Seq<Seq<char>>)
    requires
        is_key_page(as_map(v).dom(), None, v.len() as int, r),
    ensures
        forall|k: Seq<char>| as_map(v).dom().contains(k) ==> r.contains(k),
{
    let keys = v.map_values(|e: (String, V)| e.0@);
    assert forall|k: Seq<char>| as_map(v).dom().contains(k) implies r.contains(k) by {
        if !r.contains(k) {
            let j = choose|j: int| 0 <= j < v.len() && #[trigger] v[j].0@ == k;
            assert(above(None, k));
            let t = r.push(k);
            assert forall|a: int, b: int| 0 <= a < t.len() && 0 <= b < t.len() && a != b implies t[a] != t[b] by {
                if a < r.len() && b < r.len() {
                    let (x, y) = if a < b { (a, b) } else { (b, a) };
                    assert(key_lt(r[x], r[y]));
                    lemma_key_order(r[x], r[y], r[y]);
                } else if a < r.len() {
                    assert(t[b] == k);
                    assert(t[a] == r[a]);
                } else {
                    assert(t[a] == k);
                    assert(t[b] == r[b]);
                }
            }
            assert(t.no_duplicates());
            t.unique_seq_to_set();
            assert forall|x: Seq<char>| t.to_set().contains(x) implies keys.to_set().contains(x) by {
                let a = choose|a: int| 0 <= a < t.len() && t[a] == x;
                assert(as_map(v).dom().contains(x)) by {
                    if a < r.len() {
                        assert(t[a] == r[a]);
                    }
                }
                let i = choose|i: int| 0 <= i < v.len() && #[trigger] v[i].0@ == x;
                assert(keys[i] == x);
            }
            keys.lemma_cardinality_of_set();
            vstd::set_lib::lemma_len_subset(t.to_set(), keys.to_set());
            assert(false);
        }
    }
}

/// A copy of a list of strings.
pub fn clone_strings(v: &Vec<String>) -> (r: Vec<String>)
    ensures
        r@ == v@,
{
    let mut out: Vec<String> = Vec::new();
    let mut i: usize = 0;
    while i < v.len()
        invariant
            i <= v@.len(),
            out@ == v@.take(i as int),
        decreases v.len() - i,
    {
        out.push(v[i].clone());
        assert(out@ =~= v@.take(i + 1));
        i += 1;
    }
    assert(v@.take(i as int) =~= v@);
    out
}

} // verus!
