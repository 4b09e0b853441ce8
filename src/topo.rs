//! Ordering named entries so that each comes after the entries it depends on.
use crate::name_map::NameMap;
use vstd::prelude::*;
use vstd::set_lib::{lemma_int_range, lemma_len_subset, set_int_range};

verus! {

/// The dependency lists as sequences of names.
pub open spec fn deps_view(deps: Seq<Vec<String>>) -> Seq<Seq<Seq<char>>> {
    deps.map_values(|v: Vec<String>| v@.map_values(|s: String| s@))
}

/// Entry `i` depends on entry `j` when `j`'s name is among `i`'s dependencies.
/// A dependency that names no entry relates to nothing.
pub open spec fn depends_on(
    names: Seq<Seq<char>>,
    deps: Seq<Seq<Seq<char>>>,
    i: int,
    j: int,
) -> bool {
    0 <= j < names.len() && deps[i].contains(names[j])
}

/// `o` lists each index below `n` exactly once.
pub open spec fn is_permutation(o: Seq<usize>, n: int) -> bool {
    &&& o.no_duplicates()
    &&& forall|p: int| 0 <= p < o.len() ==> o[p] < n
    &&& forall|i: usize| i < n ==> #[trigger] o.contains(i)
}

/// Every entry of `o` comes after each entry that it depends on.
pub open spec fn respects_deps(
    names: Seq<Seq<char>>,
    deps: Seq<Seq<Seq<char>>>,
    o: Seq<usize>,
) -> bool {
    forall|p: int, j: int|
        0 <= p < o.len() && #[trigger] depends_on(names, deps, o[p] as int, j) ==> o.take(p).contains(
            j as usize,
        )
}

/// `o` is an order in which all entries can be built.
pub open spec fn is_build_order(
    names: Seq<Seq<char>>,
    deps: Seq<Seq<Seq<char>>>,
    o: Seq<usize>,
) -> bool {
    is_permutation(o, names.len() as int) && respects_deps(names, deps, o)
}

/// Some order exists in which all entries can be built.
pub open spec fn has_build_order(names: Seq<Seq<char>>, deps: Seq<Seq<Seq<char>>>) -> bool {
    exists|o: Seq<usize>| is_build_order(names, deps, o)
}

/// The entries of `pairs` taken in the order `o`.
pub open spec fn permuted<T>(pairs: Seq<T>, o: Seq<usize>) -> Seq<T> {
    o.map_values(|i: usize| pairs[i as int])
}

proof fn lemma_distinct_below(o: Seq<usize>, n: int)
    requires
        0 <= n,
        o.no_duplicates(),
        forall|p: int| 0 <= p < o.len() ==> o[p] < n,
    ensures
        o.len() <= n,
{
    let s = o.map_values(|x: usize| x as int);
    assert(s.no_duplicates()) by {
        assert forall|a: int, b: int| 0 <= a < s.len() && 0 <= b < s.len() && a != b implies s[a]
            != s[b] by {
            assert(o[a] != o[b]);
        }
    }
    s.unique_seq_to_set();
    lemma_int_range(0, n);
    assert(s.to_set().subset_of(set_int_range(0, n))) by {
        assert forall|x: int| s.to_set().contains(x) implies set_int_range(0, n).contains(x) by {
            let p = choose|p: int| 0 <= p < s.len() && s[p] == x;
            assert(o[p] < n);
        }
    }
    lemma_len_subset(s.to_set(), set_int_range(0, n));
}

/// Where every unplaced entry depends on another unplaced one, no entry of a
/// build order is unplaced.
proof fn lemma_prefix_placed(
    names: Seq<Seq<char>>,
    deps: Seq<Seq<Seq<char>>>,
    placed: Seq<bool>,
    o: Seq<usize>,
    p: int,
)
    requires
        names.len() <= usize::MAX,
        placed.len() == names.len(),
        forall|i: int|
            0 <= i < names.len() && !placed[i] ==> exists|j: int|
                depends_on(names, deps, i, j) && !#[trigger] placed[j],
        is_build_order(names, deps, o),
        0 <= p < o.len(),
    ensures
        placed[o[p] as int],
    decreases p,
{
    let i = o[p] as int;
    if !placed[i] {
        let j = choose|j: int| depends_on(names, deps, i, j) && !#[trigger] placed[j];
        assert(o.take(p).contains(j as usize));
        let q = choose|q: int| 0 <= q < o.take(p).len() && o.take(p)[q] == j as usize;
        assert(o[q] as int == j);
        lemma_prefix_placed(names, deps, placed, o, q);
    }
}

#[verifier::rlimit(40)]
proof fn lemma_stuck_has_no_order(
    names: Seq<Seq<char>>,
    deps: Seq<Seq<Seq<char>>>,
    placed: Seq<bool>,
    u: int,
)
    requires
        names.len() <= usize::MAX,
        placed.len() == names.len(),
        0 <= u < names.len(),
        !placed[u],
        forall|i: int|
            0 <= i < names.len() && !placed[i] ==> exists|j: int|
                depends_on(names, deps, i, j) && !#[trigger] placed[j],
    ensures
        !has_build_order(names, deps),
{
    if has_build_order(names, deps) {
        let o = choose|o: Seq<usize>| is_build_order(names, deps, o);
        assert(o.contains(u as usize));
        let p = choose|p: int| 0 <= p < o.len() && o[p] == u as usize;
        lemma_prefix_placed(names, deps, placed, o, p);
    }
}

/// The positions of the entries that entry `i` depends on.
fn dependency_positions<V>(map: &NameMap<V>, deps: &Vec<String>) -> (r: Vec<usize>)
    requires
        map.wf(),
    ensures
        forall|k: int| 0 <= k < r@.len() ==> r@[k] < map.names().len(),
        forall|j: int|
            0 <= j < map.names().len() ==> (r@.contains(j as usize) <==> deps@.map_values(
                |s: String| s@,
            ).contains(map.names()[j])),
{
    let ghost dv = deps@.map_values(|s: String| s@);
    let ghost names = map.names();
    let n = map.len();
    let mut r: Vec<usize> = Vec::new();
    let mut k: usize = 0;
    while k < deps.len()
        invariant
            k <= deps@.len(),
            map.wf(),
            names == map.names(),
            names.len() == n,
            dv == deps@.map_values(|s: String| s@),
            forall|x: int| 0 <= x < r@.len() ==> r@[x] < names.len(),
            forall|j: int|
                0 <= j < names.len() ==> (r@.contains(j as usize) <==> dv.take(k as int).contains(
                    names[j],
                )),
        decreases deps@.len() - k,
    {
        let ghost r0 = r@;
        let ghost t0 = dv.take(k as int);
        let ghost t1 = dv.take(k + 1);
        assert(t1 == t0.push(dv[k as int]));
        match map.position(&deps[k]) {
            Some(j) => {
                r.push(j);
                proof {
                    assert(names[j as int] == dv[k as int]);
                    assert forall|j2: int| 0 <= j2 < names.len() implies (r@.contains(j2 as usize)
                        <==> t1.contains(names[j2])) by {
                        if r@.contains(j2 as usize) {
                            let x = choose|x: int| 0 <= x < r@.len() && r@[x] == j2 as usize;
                            if x < r0.len() {
                                assert(r0[x] == j2 as usize);
                                assert(t0.contains(names[j2]));
                                let y = choose|y: int| 0 <= y < t0.len() && t0[y] == names[j2];
                                assert(t1[y] == names[j2]);
                            } else {
                                assert(j2 == j as int);
                                assert(t1[k as int] == names[j2]);
                            }
                        }
                        if t1.contains(names[j2]) {
                            let y = choose|y: int| 0 <= y < t1.len() && t1[y] == names[j2];
                            if y < k {
                                assert(t0[y] == names[j2]);
                                assert(r0.contains(j2 as usize));
                                let x = choose|x: int| 0 <= x < r0.len() && r0[x] == j2 as usize;
                                assert(r@[x] == j2 as usize);
                            } else {
                                assert(names[j2] == names[j as int]);
                                assert(r@[r@.len() - 1] == j);
                            }
                        }
                    }
                }
            },
            None => {
                proof {
                    crate::name_map::lemma_map_of_dom(map.pairs());
                    assert(!names.contains(dv[k as int]));
                    assert forall|j2: int| 0 <= j2 < names.len() implies (r@.contains(j2 as usize)
                        <==> t1.contains(names[j2])) by {
                        assert(names.contains(names[j2]));
                        if t1.contains(names[j2]) {
                            let y = choose|y: int| 0 <= y < t1.len() && t1[y] == names[j2];
                            assert(t0[y] == names[j2]);
                        }
                        if t0.contains(names[j2]) {
                            let y = choose|y: int| 0 <= y < t0.len() && t0[y] == names[j2];
                            assert(t1[y] == names[j2]);
                        }
                    }
                }
            },
        }
        k += 1;
    }
    assert(dv.take(deps@.len() as int) == dv);
    r
}

/// Whether every position in `ps` is placed.
fn all_placed(ps: &Vec<usize>, placed: &Vec<bool>) -> (r: bool)
    requires
        forall|k: int| 0 <= k < ps@.len() ==> ps@[k] < placed@.len(),
    ensures
        r <==> forall|k: int| 0 <= k < ps@.len() ==> placed@[#[trigger] ps@[k] as int],
{
    let mut k: usize = 0;
    while k < ps.len()
        invariant
            k <= ps@.len(),
            forall|k2: int| 0 <= k2 < ps@.len() ==> ps@[k2] < placed@.len(),
            forall|k2: int| 0 <= k2 < k ==> placed@[#[trigger] ps@[k2] as int],
        decreases ps@.len() - k,
    {
        if !placed[ps[k]] {
            return false;
        }
        k += 1;
    }
    true
}

/// An order in which the entries of `map` can be built, given the names
/// that each entry depends on (`deps[i]` for the entry at position `i`), or
/// `None` where the dependencies form a cycle. Among the entries that are
/// ready to be built, the earliest in insertion order comes first.
pub fn build_order<V>(map: &NameMap<V>, deps: &Vec<Vec<String>>) -> (r: Option<Vec<usize>>)
    requires
        map.wf(),
        deps@.len() == map.names().len(),
    ensures
        match r {
            Some(o) => is_build_order(map.names(), deps_view(deps@), o@),
            None => !has_build_order(map.names(), deps_view(deps@)),
        },
{
    let ghost names = map.names();
    let ghost dv = deps_view(deps@);
    let n = map.len();
    let mut dpos: Vec<Vec<usize>> = Vec::new();
    let mut i: usize = 0;
    while i < n
        invariant
            map.wf(),
            names == map.names(),
            names.len() == n,
            deps@.len() == n,
            dv == deps_view(deps@),
            i <= n,
            dpos@.len() == i,
            forall|a: int, k: int| 0 <= a < i && 0 <= k < dpos@[a]@.len() ==> dpos@[a]@[k] < n,
            forall|a: int, j: int|
                0 <= a < i && 0 <= j < n ==> (dpos@[a]@.contains(j as usize) <==> depends_on(
                    names,
                    dv,
                    a,
                    j,
                )),
        decreases n - i,
    {
        let ps = dependency_positions(map, &deps[i]);
        dpos.push(ps);
        i += 1;
    }
    let mut placed: Vec<bool> = Vec::new();
    let mut k: usize = 0;
    while k < n
        invariant
            k <= n,
            placed@.len() == k,
            forall|x: int| 0 <= x < k ==> !placed@[x],
        decreases n - k,
    {
        placed.push(false);
        k += 1;
    }
    let mut order: Vec<usize> = Vec::new();
    loop
        invariant
            names == map.names(),
            dv == deps_view(deps@),
            names.len() == n,
            dpos@.len() == n,
            forall|a: int, k: int| 0 <= a < n && 0 <= k < dpos@[a]@.len() ==> dpos@[a]@[k] < n,
            forall|a: int, j: int|
                0 <= a < n && 0 <= j < n ==> (dpos@[a]@.contains(j as usize) <==> depends_on(
                    names,
                    dv,
                    a,
                    j,
                )),
            placed@.len() == n,
            order@.len() <= n,
            order@.no_duplicates(),
            forall|p: int| 0 <= p < order@.len() ==> order@[p] < n,
            forall|x: usize| x < n ==> (placed@[x as int] <==> #[trigger] order@.contains(x)),
            respects_deps(names, dv, order@),
        decreases n - order@.len(),
    {
        let mut found: Option<usize> = None;
        let mut unplaced: Option<usize> = None;
        let mut i: usize = 0;
        while i < n && found.is_none()
            invariant
                i <= n,
                names.len() == n,
                placed@.len() == n,
                dpos@.len() == n,
                forall|a: int, k: int| 0 <= a < n && 0 <= k < dpos@[a]@.len() ==> dpos@[a]@[k] < n,
                forall|a: int, j: int|
                    0 <= a < n && 0 <= j < n ==> (dpos@[a]@.contains(j as usize) <==> depends_on(
                        names,
                        dv,
                        a,
                        j,
                    )),
                forall|a: int|
                    0 <= a < i && !placed@[a] && found is None ==> exists|j: int|
                        depends_on(names, dv, a, j) && !#[trigger] placed@[j],
                match unplaced {
                    Some(u) => u < n && !placed@[u as int],
                    None => forall|a: int| 0 <= a < i ==> placed@[a],
                },
                match found {
                    Some(f) => f < n && !placed@[f as int] && forall|j: int|
                        depends_on(names, dv, f as int, j) ==> placed@[j],
                    None => true,
                },
            decreases n - i,
        {
            if !placed[i] {
                if all_placed(&dpos[i], &placed) {
                    proof {
                        assert forall|j: int| depends_on(names, dv, i as int, j) implies placed@[j] by {
                            assert(dpos@[i as int]@.contains(j as usize));
                            let k = choose|k: int|
                                0 <= k < dpos@[i as int]@.len() && dpos@[i as int]@[k] == j as usize;
                            assert(placed@[dpos@[i as int]@[k] as int]);
                        }
                    }
                    found = Some(i);
                } else {
                    proof {
                        let k = choose|k: int|
                            0 <= k < dpos@[i as int]@.len() && !placed@[dpos@[i as int]@[k] as int];
                        let j = dpos@[i as int]@[k] as int;
                        assert(dpos@[i as int]@.contains(j as usize));
                        assert(depends_on(names, dv, i as int, j) && !placed@[j]);
                    }
                }
                unplaced = Some(i);
            }
            i += 1;
        }
        match found {
            Some(f) => {
                let ghost o0 = order@;
                placed.set(f, true);
                order.push(f);
                proof {
                    assert(!o0.contains(f));
                    assert(order@.no_duplicates());
                    assert forall|x: usize| x < n implies (placed@[x as int] <==> #[trigger] order@.contains(x)) by {
                        if x == f {
                            assert(order@[order@.len() - 1] == f);
                        } else {
                            if o0.contains(x) {
                                let p = choose|p: int| 0 <= p < o0.len() && o0[p] == x;
                                assert(order@[p] == x);
                            }
                            if order@.contains(x) {
                                let p = choose|p: int| 0 <= p < order@.len() && order@[p] == x;
                                assert(o0[p] == x);
                            }
                        }
                    }
                    assert forall|p: int, j: int|
                        0 <= p < order@.len() && #[trigger] depends_on(names, dv, order@[p] as int, j)
                        implies order@.take(p).contains(j as usize) by {
                        if p < o0.len() {
                            assert(order@.take(p) == o0.take(p));
                            assert(o0[p] == order@[p]);
                        } else {
                            assert(order@.take(p) == o0);
                            assert(placed@[j] || j == f);
                            assert(o0.contains(j as usize));
                        }
                    }
                    lemma_distinct_below(order@, n as int);
                }
            },
            None => {
                match unplaced {
                    Some(u) => {
                        proof {
                            lemma_stuck_has_no_order(names, dv, placed@, u as int);
                        }
                        return None;
                    },
                    None => {
                        proof {
                            assert forall|x: usize| x < n implies #[trigger] order@.contains(x) by {
                                assert(placed@[x as int]);
                            }
                        }
                        return Some(order);
                    },
                }
            },
        }
    }
}

/// The pairs of a vector of entries, with names as sequences of characters.
pub open spec fn entries_view<V>(entries: Seq<(String, V)>) -> Seq<(Seq<char>, V)> {
    entries.map_values(|p: (String, V)| (p.0@, p.1))
}

/// The entries of `map` in an order where each entry comes after every
/// entry that it depends on (`deps[i]` lists the names that the entry at
/// position `i` depends on), or `None` where no such order exists because
/// the dependencies form a cycle. It is all or nothing: an acyclic part is
/// not returned on its own.
pub fn topological_sort<V>(map: NameMap<V>, deps: &Vec<Vec<String>>) -> (r: Option<
    Vec<(String, V)>,
>)
    requires
        map.wf(),
        deps@.len() == map.names().len(),
    ensures
        r is None <==> !has_build_order(map.names(), deps_view(deps@)),
        match r {
            Some(out) => exists|o: Seq<usize>|
                is_build_order(map.names(), deps_view(deps@), o) && entries_view(out@) == permuted(
                    map.pairs(),
                    o,
                ),
            None => true,
        },
{
    let ghost pv = map.pairs();
    let n = map.len();
    let order = match build_order(&map, deps) {
        Some(o) => o,
        None => return None,
    };
    let mut entries = map.into_entries();
    let mut slots: Vec<Option<(String, V)>> = Vec::new();
    let mut k: usize = 0;
    while k < n
        invariant
            k <= n,
            slots@.len() == k,
        decreases n - k,
    {
        slots.push(None);
        k += 1;
    }
    let mut m: usize = n;
    while m > 0
        invariant
            m <= n,
            slots@.len() == n,
            pv.len() == n,
            entries_view(entries@) == pv.take(m as int),
            forall|x: int|
                m <= x < n ==> (#[trigger] slots@[x] matches Some(e) && (e.0@, e.1) == pv[x]),
        decreases m,
    {
        let ghost e0 = entries@;
        assert(e0.len() == entries_view(e0).len());
        let e = entries.pop().unwrap();
        m -= 1;
        proof {
            assert(entries_view(e0)[m as int] == pv[m as int]);
            assert forall|x: int| 0 <= x < m implies entries_view(entries@)[x] == pv.take(
                m as int,
            )[x] by {
                assert(entries@[x] == e0[x]);
                assert(entries_view(e0)[x] == pv[x]);
            }
            assert(entries_view(entries@) =~= pv.take(m as int));
        }
        slots.set(m, Some(e));
    }
    let mut out: Vec<(String, V)> = Vec::new();
    let len = order.len();
    let mut p: usize = 0;
    while p < len
        invariant
            is_build_order(map.names(), deps_view(deps@), order@),
            pv == map.pairs(),
            pv.len() == n,
            order@.len() == len,
            p <= len,
            slots@.len() == n,
            forall|x: int|
                0 <= x < n && !order@.take(p as int).contains(x as usize) ==> (
                #[trigger] slots@[x] matches Some(e) && (e.0@, e.1) == pv[x]),
            entries_view(out@) == permuted(pv, order@.take(p as int)),
        decreases len - p,
    {
        let i = order[p];
        proof {
            assert(!order@.take(p as int).contains(i)) by {
                if order@.take(p as int).contains(i) {
                    let q = choose|q: int| 0 <= q < p && order@.take(p as int)[q] == i;
                    assert(order@[q] == order@[p as int]);
                }
            }
        }
        let ghost s0 = slots@;
        let ghost out0 = out@;
        assert(out0.len() == entries_view(out0).len());
        assert(out0.len() == p);
        let e = slots[i].take().unwrap();
        assert((e.0@, e.1) == pv[i as int]);
        out.push(e);
        proof {
            assert(order@.take(p + 1) == order@.take(p as int).push(i));
            assert forall|x: int| 0 <= x < p implies entries_view(out@)[x] == permuted(
                pv,
                order@.take(p + 1),
            )[x] by {
                assert(out@[x] == out0[x]);
                assert(entries_view(out0)[x] == permuted(pv, order@.take(p as int))[x]);
            }
            assert(entries_view(out@)[p as int] == permuted(pv, order@.take(p + 1))[p as int]);
            assert(entries_view(out@) =~= permuted(pv, order@.take(p + 1)));
            assert forall|x: int|
                0 <= x < n && !order@.take(p + 1).contains(x as usize) implies (
                #[trigger] slots@[x] matches Some(e) && (e.0@, e.1) == pv[x]) by {
                assert(x != i as int) by {
                    if x == i as int {
                        assert(order@.take(p + 1)[p as int] == i);
                    }
                }
                assert(slots@[x] == s0[x]);
                if order@.take(p as int).contains(x as usize) {
                    let q = choose|q: int| 0 <= q < p && order@.take(p as int)[q] == x as usize;
                    assert(order@.take(p + 1)[q] == x as usize);
                }
            }
        }
        p += 1;
    }
    assert(order@.take(len as int) == order@);
    Some(out)
}

} // verus!
