//! Summing the values of key/value tables, held as vectors of pairs or as hash maps.
use std::collections::HashMap;
use vstd::prelude::*;
use vstd::std_specs::hash::into_iter;
use vstd::std_specs::iter::IteratorSpec;

verus! {

broadcast use vstd::std_specs::hash::group_hash_axioms;

/// The pairs `(i, 2 * i)` for `i` in `0..num`.
pub open spec fn doubled_pairs(num: nat) -> Seq<(usize, usize)> {
    Seq::new(num, |i: int| (i as usize, (2 * i) as usize))
}

/// Every value `2 * i` for `i` in `0..num` fits in a `usize`.
pub open spec fn doubles_fit(num: nat) -> bool {
    num == 0 || 2 * (num - 1) <= usize::MAX
}

/// The sum of the values (second components) of `s`.
pub open spec fn value_total(s: Seq<(usize, usize)>) -> int
    decreases s.len(),
{
    if s.len() == 0 {
        0
    } else {
        value_total(s.drop_last()) + s.last().1
    }
}

/// The contents of each vector of `vs`, in order.
pub open spec fn tables(vs: Seq<Vec<(usize, usize)>>) -> Seq<Seq<(usize, usize)>> {
    vs.map_values(|v: Vec<(usize, usize)>| v@)
}

/// The sum of the values of every table of `ts`.
pub open spec fn nested_total(ts: Seq<Seq<(usize, usize)>>) -> int
    decreases ts.len(),
{
    if ts.len() == 0 {
        0
    } else {
        nested_total(ts.drop_last()) + value_total(ts.last())
    }
}

proof fn lemma_value_total_nonneg(s: Seq<(usize, usize)>)
    ensures
        value_total(s) >= 0,
    decreases s.len(),
{
    if s.len() > 0 {
        lemma_value_total_nonneg(s.drop_last());
    }
}

proof fn lemma_value_total_prefix(s: Seq<(usize, usize)>, i: int)
    requires
        0 <= i <= s.len(),
    ensures
        value_total(s.take(i)) <= value_total(s),
    decreases s.len(),
{
    if i < s.len() {
        lemma_value_total_prefix(s.drop_last(), i);
        assert(s.drop_last().take(i) =~= s.take(i));
    } else {
        assert(s.take(i) =~= s);
    }
}

proof fn lemma_nested_total_prefix(ts: Seq<Seq<(usize, usize)>>, i: int)
    requires
        0 <= i <= ts.len(),
    ensures
        nested_total(ts.take(i)) <= nested_total(ts),
    decreases ts.len(),
{
    if i < ts.len() {
        lemma_nested_total_prefix(ts.drop_last(), i);
        assert(ts.drop_last().take(i) =~= ts.take(i));
        lemma_value_total_nonneg(ts.last());
    } else {
        assert(ts.take(i) =~= ts);
    }
}

/// The values of the pairs `(i, 2 * i)` for `i` in `0..num` add up to `num * (num - 1)`.
pub proof fn lemma_doubled_pairs_total(num: nat)
    requires
        doubles_fit(num),
    ensures
        value_total(doubled_pairs(num)) == num * (num - 1),
    decreases num,
{
    if num > 0 {
        let n1 = (num - 1) as nat;
        assert(doubled_pairs(num).drop_last() =~= doubled_pairs(n1));
        lemma_doubled_pairs_total(n1);
        assert(doubled_pairs(num).last().1 == 2 * n1);
        assert(n1 * (n1 - 1) + 2 * n1 == num * (num - 1)) by (nonlinear_arith)
            requires
                n1 + 1 == num,
        ;
    } else {
        assert(doubled_pairs(num).len() == 0);
    }
}

/// A vector of the pairs `(i, 2 * i)` for `i` in `0..num`.
pub fn init_vector(num: usize) -> (r: Vec<(usize, usize)>)
    requires
        doubles_fit(num as nat),
    ensures
        r@ == doubled_pairs(num as nat),
{
    let mut v: Vec<(usize, usize)> = Vec::with_capacity(num);
    let mut i: usize = 0;
    while i < num
        invariant
            i <= num,
            doubles_fit(num as nat),
            v@ == doubled_pairs(i as nat),
        decreases num - i,
    {
        v.push((i, i * 2));
        i = i + 1;
        assert(v@ =~= doubled_pairs(i as nat));
    }
    v
}

/// The sum of the values of every pair of every vector of `vectors`.
pub fn do_loop_over_vector(vectors: Vec<Vec<(usize, usize)>>) -> (r: usize)
    requires
        nested_total(tables(vectors@)) <= usize::MAX,
    ensures
        r == nested_total(tables(vectors@)),
{
    let ghost ts = tables(vectors@);
    let mut value_sum: usize = 0;
    let mut i: usize = 0;
    while i < vectors.len()
        invariant
            ts == tables(vectors@),
            i <= vectors.len(),
            nested_total(ts) <= usize::MAX,
            value_sum == nested_total(ts.take(i as int)),
        decreases vectors.len() - i,
    {
        let vector = &vectors[i];
        proof {
            assert(ts.take(i as int + 1).drop_last() =~= ts.take(i as int));
            lemma_nested_total_prefix(ts, i as int + 1);
        }
        let mut j: usize = 0;
        while j < vector.len()
            invariant
                ts == tables(vectors@),
                i < vectors.len(),
                vector@ == ts[i as int],
                j <= vector.len(),
                nested_total(ts.take(i as int)) + value_total(vector@) <= usize::MAX,
                value_sum == nested_total(ts.take(i as int)) + value_total(vector@.take(j as int)),
            decreases vector.len() - j,
        {
            proof {
                assert(vector@.take(j as int + 1).drop_last() =~= vector@.take(j as int));
                lemma_value_total_prefix(vector@, j as int + 1);
            }
            value_sum = value_sum + vector[j].1;
            j = j + 1;
        }
        proof {
            assert(vector@.take(j as int) =~= vector@);
        }
        i = i + 1;
    }
    proof {
        assert(ts.take(i as int) =~= ts);
    }
    value_sum
}

/// The map from each `i` in `0..num` to `2 * i`.
pub open spec fn doubled_map(num: nat) -> Map<usize, usize> {
    Map::new(|k: usize| k < num, |k: usize| (2 * k) as usize)
}

/// The sum of `m[k]` over the keys `k` of `m` below `n`.
pub open spec fn keyed_total(m: Map<usize, usize>, n: nat) -> int
    decreases n,
{
    if n == 0 {
        0
    } else {
        let k = (n - 1) as usize;
        keyed_total(m, (n - 1) as nat) + if m.contains_key(k) {
            m[k] as int
        } else {
            0
        }
    }
}

/// The sum of the values of `m`.
pub open spec fn map_total(m: Map<usize, usize>) -> int {
    keyed_total(m, usize::MAX as nat + 1)
}

/// The sum of the values of every map of `ms`.
pub open spec fn maps_total(ms: Seq<HashMap<usize, usize>>) -> int
    decreases ms.len(),
{
    if ms.len() == 0 {
        0
    } else {
        maps_total(ms.drop_last()) + map_total(ms.last()@)
    }
}

/// `s` lists every entry of `m` exactly once, in some order.
pub open spec fn enumerates(s: Seq<(usize, usize)>, m: Map<usize, usize>) -> bool {
    &&& s.no_duplicates()
    &&& forall|i: int| 0 <= i < s.len() ==> m.contains_key(#[trigger] s[i].0) && m[s[i].0] == s[i].1
    &&& forall|k: usize| #[trigger] m.contains_key(k) ==> s.contains((k, m[k]))
}

proof fn lemma_keyed_total_remove(m: Map<usize, usize>, k: usize, n: nat)
    requires
        n <= usize::MAX as nat + 1,
    ensures
        keyed_total(m, n) == keyed_total(m.remove(k), n) + if k < n && m.contains_key(k) {
            m[k] as int
        } else {
            0
        },
    decreases n,
{
    if n > 0 {
        let j = (n - 1) as usize;
        lemma_keyed_total_remove(m, k, (n - 1) as nat);
        if j != k {
            assert(m.remove(k).contains_key(j) == m.contains_key(j));
            if m.contains_key(j) {
                assert(m.remove(k)[j] == m[j]);
            }
        } else {
            assert(!m.remove(k).contains_key(j));
        }
    }
}

proof fn lemma_keyed_total_empty(m: Map<usize, usize>, n: nat)
    requires
        forall|k: usize| !m.contains_key(k),
    ensures
        keyed_total(m, n) == 0,
    decreases n,
{
    if n > 0 {
        lemma_keyed_total_empty(m, (n - 1) as nat);
    }
}

proof fn lemma_keyed_total_nonneg(m: Map<usize, usize>, n: nat)
    ensures
        keyed_total(m, n) >= 0,
    decreases n,
{
    if n > 0 {
        lemma_keyed_total_nonneg(m, (n - 1) as nat);
    }
}

/// Whatever order the entries of `m` are listed in, their values add up to the
/// total of `m`.
pub proof fn lemma_enumeration_total(s: Seq<(usize, usize)>, m: Map<usize, usize>)
    requires
        enumerates(s, m),
    ensures
        value_total(s) == map_total(m),
    decreases s.len(),
{
    if s.len() == 0 {
        assert forall|k: usize| !m.contains_key(k) by {
            if m.contains_key(k) {
                assert(s.contains((k, m[k])));
            }
        }
        lemma_keyed_total_empty(m, usize::MAX as nat + 1);
    } else {
        let (k, v) = s.last();
        let rest = s.drop_last();
        let m2 = m.remove(k);
        assert(m.contains_key(s[s.len() - 1].0));
        assert forall|i: int| 0 <= i < rest.len() implies m2.contains_key(#[trigger] rest[i].0)
            && m2[rest[i].0] == rest[i].1 by {
            assert(s[i] == rest[i]);
            assert(m.contains_key(s[i].0));
            if rest[i].0 == k {
                assert(s[i] == s[s.len() - 1]);
            }
        }
        assert forall|k2: usize| #[trigger] m2.contains_key(k2) implies rest.contains(
            (k2, m2[k2]),
        ) by {
            assert(m.contains_key(k2));
            assert(s.contains((k2, m[k2])));
            let j = choose|j: int| 0 <= j < s.len() && s[j] == (k2, m[k2]);
            assert(j != s.len() - 1);
            assert(rest[j] == (k2, m2[k2]));
        }
        assert(rest.no_duplicates()) by {
            assert forall|i: int, j: int|
                0 <= i < rest.len() && 0 <= j < rest.len() && i != j implies rest[i] != rest[j] by {
                assert(s[i] == rest[i] && s[j] == rest[j]);
            }
        }
        lemma_enumeration_total(rest, m2);
        lemma_keyed_total_remove(m, k, usize::MAX as nat + 1);
    }
}

proof fn lemma_doubled_pairs_enumerate(num: nat)
    requires
        doubles_fit(num),
    ensures
        enumerates(doubled_pairs(num), doubled_map(num)),
{
    let s = doubled_pairs(num);
    let m = doubled_map(num);
    assert forall|k: usize| #[trigger] m.contains_key(k) implies s.contains((k, m[k])) by {
        assert(s[k as int] == (k, m[k]));
    }
}

/// Both table shapes hold the same values for the same size: the pairs
/// `(i, 2 * i)` and the map `i -> 2 * i` for `i` in `0..num` add up to the same
/// total, `num * (num - 1)`.
pub proof fn lemma_table_strategies_agree(num: nat)
    requires
        doubles_fit(num),
    ensures
        map_total(doubled_map(num)) == value_total(doubled_pairs(num)),
        value_total(doubled_pairs(num)) == num * (num - 1),
{
    lemma_doubled_pairs_total(num);
    lemma_doubled_pairs_enumerate(num);
    lemma_enumeration_total(doubled_pairs(num), doubled_map(num));
}

/// A hash map from each `i` in `0..num` to `2 * i`.
pub fn init_hashmap(num: usize) -> (r: HashMap<usize, usize>)
    requires
        doubles_fit(num as nat),
    ensures
        r@ == doubled_map(num as nat),
{
    let mut m: HashMap<usize, usize> = HashMap::with_capacity(num);
    let mut i: usize = 0;
    while i < num
        invariant
            i <= num,
            doubles_fit(num as nat),
            m@ == doubled_map(i as nat),
        decreases num - i,
    {
        m.insert(i, i * 2);
        i = i + 1;
        assert(m@ =~= doubled_map(i as nat));
    }
    m
}

proof fn lemma_maps_total_prefix(ms: Seq<HashMap<usize, usize>>, i: int)
    requires
        0 <= i <= ms.len(),
    ensures
        maps_total(ms.take(i)) <= maps_total(ms),
    decreases ms.len(),
{
    if i < ms.len() {
        lemma_maps_total_prefix(ms.drop_last(), i);
        assert(ms.drop_last().take(i) =~= ms.take(i));
        lemma_keyed_total_nonneg(ms.last()@, usize::MAX as nat + 1);
    } else {
        assert(ms.take(i) =~= ms);
    }
}

/// The sum of the values of every map of `maps`, each map walked in its own
/// iteration order.
pub fn do_loop_over_hashmap(maps: Vec<HashMap<usize, usize>>) -> (r: usize)
    requires
        maps_total(maps@) <= usize::MAX,
    ensures
        r == maps_total(maps@),
{
    let mut value_sum: usize = 0;
    let mut i: usize = 0;
    while i < maps.len()
        invariant
            i <= maps.len(),
            maps_total(maps@) <= usize::MAX,
            value_sum == maps_total(maps@.take(i as int)),
        decreases maps.len() - i,
    {
        let map = &maps[i];
        let ghost done = value_sum as int;
        proof {
            assert(maps@.take(i as int + 1).drop_last() =~= maps@.take(i as int));
            lemma_maps_total_prefix(maps@, i as int + 1);
        }
        let entries = map.iter();
        proof {
            let s = into_iter(entries);
            assert(s.no_duplicates()) by {
                assert forall|a: int, b: int|
                    0 <= a < s.len() && 0 <= b < s.len() && a != b implies s[a] != s[b] by {
                    assert(s[a] == (*entries.remaining()[a].0, *entries.remaining()[a].1));
                    assert(s[b] == (*entries.remaining()[b].0, *entries.remaining()[b].1));
                }
            }
            assert forall|j: int| 0 <= j < s.len() implies s[j] == (
                *(#[trigger] entries.remaining()[j]).0,
                *entries.remaining()[j].1,
            ) by {}
            assert forall|k: usize| #[trigger] map@.contains_key(k) implies s.contains(
                (k, map@[k]),
            ) by {
                assert(entries.remaining().contains((&k, &map@[k])));
            }
            assert(enumerates(s, map@));
            lemma_enumeration_total(s, map@);
        }
        for entry in it: entries
            invariant
                i < maps.len(),
                map == &maps@[i as int],
                it.seq().unref() == into_iter(entries),
                done == maps_total(maps@.take(i as int)),
                done + value_total(into_iter(entries)) <= usize::MAX,
                value_sum == done + value_total(into_iter(entries).take(it.index())),
                it.index() == it.seq().len() ==> value_sum == done + value_total(
                    into_iter(entries),
                ),
        {
            proof {
                let s = into_iter(entries);
                let n = it.index();
                assert(s.take(n + 1).drop_last() =~= s.take(n));
                lemma_value_total_prefix(s, n + 1);
                if n + 1 == s.len() {
                    assert(s.take(n + 1) =~= s);
                }
            }
            value_sum = value_sum + *entry.1;
        }
        i = i + 1;
    }
    proof {
        assert(maps@.take(i as int) =~= maps@);
    }
    value_sum
}

} // verus!
