//! Invariants of the breadth-first search behind navigation, and the
//! lemmas that carry them from one step of the search to the next.
//!
//! The search keeps the sequence `order` of every planet discovered so far,
//! in discovery order; the planets before `head` have been expanded. For each
//! discovered planet it keeps, as ghost state, its hop count from the start
//! (`level`), its parent in the search tree (`parent`) and the neighbor of
//! the start that begins its branch of the tree (`first`).

use vstd::prelude::*;
use common_game::utils::ID;
use super::mapping::{links_of, count_of};
use super::navigation::{within, is_target, target_within, nearest_level, best_hop,
    lemma_within_mono, lemma_within_step, lemma_within_shift, lemma_within_unfold, lemma_within_closed};
use super::sorted_ids::sorted_listing;

verus! {

/// `first` is the smallest neighbor of `c` from which `x` lies `lv - 1` hops away.
pub open spec fn first_is_minimal(links: Map<ID, Set<ID>>, c: ID, x: ID, lv: int, first: ID) -> bool {
    forall|m: ID| #[trigger] within(links, m, lv - 1, x) && links_of(links, c).contains(m) ==> first <= m
}

/// Facts about the discovered planets that hold at every step.
pub closed spec fn search_core(
    links: Map<ID, Set<ID>>,
    c: ID,
    order: Seq<ID>,
    level: Map<ID, int>,
    first: Map<ID, ID>,
    parent: Map<ID, ID>,
) -> bool {
    &&& order.len() >= 1
    &&& order[0] == c
    &&& order.no_duplicates()
    &&& forall|i: int| #![trigger order[i]] 0 <= i < order.len() ==> level.contains_key(order[i])
    &&& level[c] == 0
    &&& forall|i: int| #![trigger order[i]] 1 <= i < order.len() ==> {
        &&& level[order[i]] >= 1
        &&& links.contains_key(order[i])
        &&& !within(links, c, level[order[i]] - 1, order[i])
        &&& first.contains_key(order[i])
        &&& links_of(links, c).contains(first[order[i]])
        &&& within(links, first[order[i]], level[order[i]] - 1, order[i])
        &&& first_is_minimal(links, c, order[i], level[order[i]], first[order[i]])
        &&& parent.contains_key(order[i])
        &&& order.contains(parent[order[i]])
        &&& level[parent[order[i]]] + 1 == level[order[i]]
        &&& level[order[i]] == 1 ==> first[order[i]] == order[i]
        &&& level[order[i]] > 1 ==> first[order[i]] == first[parent[order[i]]]
    }
    &&& forall|i: int| #![trigger order[i]] 0 <= i < order.len() ==> within(links, c, level[order[i]], order[i])
    &&& forall|i: int, j: int|
        #![trigger order[i], order[j]]
        0 <= i <= j < order.len() ==> level[order[i]] <= level[order[j]]
    &&& forall|i: int, j: int|
        #![trigger order[i], order[j]]
        1 <= i < j < order.len() && level[order[i]] == level[order[j]] ==> first[order[i]] <= first[order[j]]
    &&& !parent.contains_key(c)
}

/// The search state between two expansions: the planets before `head`
/// are expanded and none of them is a target.
pub closed spec fn search_outer(
    visits: Map<ID, u32>,
    links: Map<ID, Set<ID>>,
    c: ID,
    order: Seq<ID>,
    head: int,
    level: Map<ID, int>,
    first: Map<ID, ID>,
    parent: Map<ID, ID>,
) -> bool {
    &&& search_core(links, c, order, level, first, parent)
    &&& 0 <= head <= order.len()
    &&& head == 0 ==> order.len() == 1
    &&& forall|i: int| #![trigger order[i]] 0 <= i < head ==> {
        &&& links_of(links, order[i]).subset_of(order.to_set())
        &&& !is_target(visits, c, order[i])
    }
    &&& head < order.len() ==> {
        &&& forall|i: int| #![trigger order[i]] 0 <= i < order.len() ==> level[order[i]] <= level[order[head]] + 1
        &&& forall|k: int, y: ID| 0 <= k <= level[order[head]] && #[trigger] within(links, c, k, y) ==> order.contains(y)
        &&& level[order[head]] >= 1 ==> forall|i: int| #![trigger order[i]]
            1 <= i < order.len() && level[order[i]] == level[order[head]] + 1 ==> first[order[i]] <= first[order[head]]
    }
}

/// The search state while expanding `order[head]`, whose sorted neighbors
/// are `ns`, the first `j` of them handled.
pub closed spec fn search_inner(
    visits: Map<ID, u32>,
    links: Map<ID, Set<ID>>,
    c: ID,
    start: Seq<ID>,
    order: Seq<ID>,
    head: int,
    ns: Seq<ID>,
    j: int,
    level: Map<ID, int>,
    first: Map<ID, ID>,
    parent: Map<ID, ID>,
) -> bool {
    let x = order[head];
    let l = level[x];
    &&& search_core(links, c, order, level, first, parent)
    &&& 0 <= head < start.len() <= order.len()
    &&& forall|i: int| #![trigger order[i]] 0 <= i < start.len() ==> order[i] == start[i]
    &&& sorted_listing(ns, links_of(links, x))
    &&& 0 <= j <= ns.len()
    &&& forall|i: int| #![trigger order[i]] 0 <= i < head ==> {
        &&& links_of(links, order[i]).subset_of(order.to_set())
        &&& !is_target(visits, c, order[i])
    }
    &&& forall|i: int| #![trigger ns[i]] 0 <= i < j ==> order.contains(ns[i])
    &&& forall|i: int| #![trigger order[i]] 0 <= i < order.len() ==> level[order[i]] <= l + 1
    &&& forall|k: int, y: ID| 0 <= k <= l && #[trigger] within(links, c, k, y) ==> order.contains(y)
    &&& l >= 1 ==> forall|i: int| #![trigger order[i]]
        1 <= i < order.len() && level[order[i]] == l + 1 ==> first[order[i]] <= first[x]
    &&& l == 0 ==> forall|i: int, jj: int| #![trigger order[i], ns[jj]]
        1 <= i < order.len() && j <= jj < ns.len() ==> order[i] < ns[jj]
}

/// The search starts from `c` alone.
pub proof fn lemma_search_init(visits: Map<ID, u32>, links: Map<ID, Set<ID>>, c: ID)
    ensures
        search_outer(visits, links, c, seq![c], 0, Map::empty().insert(c, 0int), Map::empty(), Map::empty()),
{
    let order = seq![c];
    let level = Map::<ID, int>::empty().insert(c, 0int);
    assert(within(links, c, 0, c));
    assert forall|k: int, y: ID| 0 <= k <= level[order[0]] && #[trigger] within(links, c, k, y) implies order.contains(y) by {
        assert(k == 0);
        assert(order[0] == y);
    }
}


/// Expanding `order[head]` begins with none of its neighbors handled.
pub proof fn lemma_search_begin_expand(
    visits: Map<ID, u32>,
    links: Map<ID, Set<ID>>,
    c: ID,
    order: Seq<ID>,
    head: int,
    ns: Seq<ID>,
    level: Map<ID, int>,
    first: Map<ID, ID>,
    parent: Map<ID, ID>,
)
    requires
        search_outer(visits, links, c, order, head, level, first, parent),
        head < order.len(),
        sorted_listing(ns, links_of(links, order[head])),
    ensures
        search_inner(visits, links, c, order, order, head, ns, 0, level, first, parent),
        head < order.len(),
{
    let x = order[head];
    if level[x] == 0 {
        if head >= 1 {
            assert(level[order[head]] >= 1);
        }
        assert(order.len() == 1);
    }
}

/// A neighbor already discovered needs nothing more.
pub proof fn lemma_search_skip(
    visits: Map<ID, u32>,
    links: Map<ID, Set<ID>>,
    c: ID,
    start: Seq<ID>,
    order: Seq<ID>,
    head: int,
    ns: Seq<ID>,
    j: int,
    level: Map<ID, int>,
    first: Map<ID, ID>,
    parent: Map<ID, ID>,
)
    requires
        search_inner(visits, links, c, start, order, head, ns, j, level, first, parent),
        j < ns.len(),
        order.contains(ns[j]),
    ensures
        search_inner(visits, links, c, start, order, head, ns, j + 1, level, first, parent),
{
}

/// The level of a discovered planet within `k` hops of the start is at most `k`.
pub proof fn lemma_level_at_most(
    links: Map<ID, Set<ID>>,
    c: ID,
    order: Seq<ID>,
    level: Map<ID, int>,
    first: Map<ID, ID>,
    parent: Map<ID, ID>,
    i: int,
    k: int,
)
    requires
        search_core(links, c, order, level, first, parent),
        0 <= i < order.len(),
        0 <= k,
        within(links, c, k, order[i]),
    ensures
        level[order[i]] <= k,
{
    if i >= 1 && level[order[i]] > k {
        lemma_within_mono(links, c, k, level[order[i]] - 1, order[i]);
    }
    if i == 0 {
        assert(level[order[0]] == 0);
    }
}

/// Once every neighbor of `order[head]` is handled, the search moves on.
#[verifier::rlimit(50)]
pub proof fn lemma_search_end_expand(
    visits: Map<ID, u32>,
    links: Map<ID, Set<ID>>,
    c: ID,
    start: Seq<ID>,
    order: Seq<ID>,
    head: int,
    ns: Seq<ID>,
    level: Map<ID, int>,
    first: Map<ID, ID>,
    parent: Map<ID, ID>,
)
    requires
        search_inner(visits, links, c, start, order, head, ns, ns.len() as int, level, first, parent),
        visits.dom() == links.dom(),
        !(order[head] != c && count_of(visits, order[head]) == 0),
    ensures
        search_outer(visits, links, c, order, head + 1, level, first, parent),
        order.len() >= start.len(),
{
    let x = order[head];
    let l = level[x];
    if head >= 1 {
        assert(links.contains_key(order[head]));
    }
    assert(!is_target(visits, c, x));
    assert(links_of(links, x).subset_of(order.to_set())) by {
        assert forall|y: ID| links_of(links, x).contains(y) implies order.to_set().contains(y) by {
            assert(ns.to_set().contains(y));
            let k = choose|k: int| 0 <= k < ns.len() && ns[k] == y;
            assert(order.contains(ns[k]));
        }
    }
    assert forall|i: int| #![trigger order[i]] 0 <= i < head + 1 implies {
        &&& links_of(links, order[i]).subset_of(order.to_set())
        &&& !is_target(visits, c, order[i])
    } by {
    }
    if head + 1 < order.len() {
        let h1 = head + 1;
        let l1 = level[order[h1]];
        assert(l <= l1 <= l + 1);
        assert forall|k: int, y: ID| 0 <= k <= l1 && #[trigger] within(links, c, k, y) implies order.contains(y) by {
            if k > l {
                assert(k == l + 1);
                lemma_within_unfold(links, c, k, y);
                if !within(links, c, k - 1, y) {
                    let z = choose|z: ID| #[trigger] within(links, c, k - 1, z) && links_of(links, z).contains(y);
                    assert(order.contains(z));
                    let iz = choose|iz: int| 0 <= iz < order.len() && order[iz] == z;
                    lemma_level_at_most(links, c, order, level, first, parent, iz, l);
                    if iz > head {
                        assert(level[order[h1]] <= level[order[iz]]);
                    }
                    assert(iz <= head);
                    assert(links_of(links, order[iz]).subset_of(order.to_set()));
                    assert(order.to_set().contains(y));
                }
            }
        }
        if l1 >= 1 {
            assert forall|i: int| #![trigger order[i]]
                1 <= i < order.len() && level[order[i]] == l1 + 1 implies first[order[i]] <= first[order[h1]] by {
                assert(level[order[i]] <= l + 1);
                assert(l1 == l);
                if l == 0 {
                    assert(level[order[h1]] >= 1);
                }
                assert(first[order[i]] <= first[x]);
                assert(first[order[head]] <= first[order[h1]]);
            }
        }
    }
}

/// Finding a target at `order[head]`: its level is the distance to the
/// nearest target and its first hop is the smallest best hop.
pub proof fn lemma_search_found(
    visits: Map<ID, u32>,
    links: Map<ID, Set<ID>>,
    c: ID,
    order: Seq<ID>,
    head: int,
    level: Map<ID, int>,
    first: Map<ID, ID>,
    parent: Map<ID, ID>,
)
    requires
        search_outer(visits, links, c, order, head, level, first, parent),
        head < order.len(),
        visits.dom() == links.dom(),
        order[head] != c,
        count_of(visits, order[head]) == 0,
    ensures
        search_core(links, c, order, level, first, parent),
        order.contains(order[head]),
        level[order[head]] >= 1,
        nearest_level(visits, links, c, level[order[head]]),
        best_hop(visits, links, c, level[order[head]], first[order[head]]),
        forall|m: ID| #[trigger] best_hop(visits, links, c, level[order[head]], m) ==> first[order[head]] <= m,
{
    let t = order[head];
    let d = level[t];
    assert(head >= 1);
    assert(links.contains_key(order[head]));
    assert(is_target(visits, c, t));
    assert(within(links, c, d, t));
    assert(target_within(visits, links, c, d));
    assert forall|e: int| 0 <= e < d implies !#[trigger] target_within(visits, links, c, e) by {
        if target_within(visits, links, c, e) {
            let u = choose|u: ID| #[trigger] within(links, c, e, u) && is_target(visits, c, u);
            assert(order.contains(u));
            let iu = choose|iu: int| 0 <= iu < order.len() && order[iu] == u;
            lemma_level_at_most(links, c, order, level, first, parent, iu, e);
            if iu >= head {
                assert(level[order[head]] <= level[order[iu]]);
            }
        }
    }
    assert(within(links, first[t], d - 1, t));
    assert(best_hop(visits, links, c, d, first[t]));
    assert forall|m: ID| #[trigger] best_hop(visits, links, c, d, m) implies first[t] <= m by {
        let u = choose|u: ID| #[trigger] within(links, m, d - 1, u) && is_target(visits, c, u);
        lemma_within_shift(links, c, m, d - 1, u);
        assert(order.contains(u));
        let iu = choose|iu: int| 0 <= iu < order.len() && order[iu] == u;
        lemma_level_at_most(links, c, order, level, first, parent, iu, d);
        assert(iu >= head);
        assert(level[order[head]] <= level[order[iu]]);
        assert(level[u] == d);
        assert(within(links, m, level[order[iu]] - 1, order[iu]));
        assert(first_is_minimal(links, c, order[iu], level[order[iu]], first[order[iu]]));
        if iu > head {
            assert(first[order[head]] <= first[order[iu]]);
        }
    }
}

/// When every discovered planet is expanded, nothing reachable is a target.
pub proof fn lemma_search_exhausted(
    visits: Map<ID, u32>,
    links: Map<ID, Set<ID>>,
    c: ID,
    order: Seq<ID>,
    level: Map<ID, int>,
    first: Map<ID, ID>,
    parent: Map<ID, ID>,
)
    requires
        search_outer(visits, links, c, order, order.len() as int, level, first, parent),
    ensures
        forall|k: int, t: ID| 0 <= k && #[trigger] within(links, c, k, t) ==> !is_target(visits, c, t),
{
    let s = order.to_set();
    assert(s.contains(c)) by {
        assert(order[0] == c);
    }
    assert forall|z: ID| #[trigger] s.contains(z) implies links_of(links, z).subset_of(s) by {
        let iz = choose|iz: int| 0 <= iz < order.len() && order[iz] == z;
        assert(links_of(links, order[iz]).subset_of(s));
    }
    assert forall|k: int, t: ID| 0 <= k && #[trigger] within(links, c, k, t) implies !is_target(visits, c, t) by {
        lemma_within_closed(links, c, s, k, t);
        let it = choose|it: int| 0 <= it < order.len() && order[it] == t;
        assert(!is_target(visits, c, order[it]));
    }
}


/// Every recorded neighbor is itself a known planet.
pub open spec fn neighbors_known(links: Map<ID, Set<ID>>) -> bool {
    forall|p: ID, q: ID| #![trigger links[p].contains(q)]
        links.contains_key(p) && links[p].contains(q) ==> links.contains_key(q)
}

/// Discovering the new neighbor `ns[j]` of `order[head]`: it joins the
/// search one level below, with `order[head]` as parent.
#[verifier::rlimit(40)]
#[verifier::spinoff_prover]
pub proof fn lemma_search_discover(
    visits: Map<ID, u32>,
    links: Map<ID, Set<ID>>,
    c: ID,
    start: Seq<ID>,
    order: Seq<ID>,
    head: int,
    ns: Seq<ID>,
    j: int,
    level: Map<ID, int>,
    first: Map<ID, ID>,
    parent: Map<ID, ID>,
)
    requires
        neighbors_known(links),
        search_inner(visits, links, c, start, order, head, ns, j, level, first, parent),
        j < ns.len(),
        !order.contains(ns[j]),
    ensures
        ({
            let x = order[head];
            let y = ns[j];
            let l = level[x];
            search_inner(
                visits,
                links,
                c,
                start,
                order.push(y),
                head,
                ns,
                j + 1,
                level.insert(y, l + 1),
                first.insert(y, if l == 0 { y } else { first[x] }),
                parent.insert(y, x),
            )
        }),
{
    let x = order[head];
    let y = ns[j];
    let l = level[x];
    let fy = if l == 0 { y } else { first[x] };
    let order2 = order.push(y);
    let level2 = level.insert(y, l + 1);
    let first2 = first.insert(y, fy);
    let parent2 = parent.insert(y, x);
    let n = order.len() as int;
    assert(ns.to_set().contains(y)) by {
        assert(ns[j] == y);
    }
    assert(links_of(links, x).contains(y));
    assert(links.contains_key(y)) by {
        assert(links.contains_key(x));
        assert(links[x].contains(y));
    }
    assert(y != c) by {
        assert(order[0] == c);
    }
    assert(within(links, c, l, x));
    lemma_within_step(links, c, l, x, y);
    assert(!within(links, c, l, y));
    // the first hop of y starts a path of l hops to y
    if l >= 1 {
        assert(head >= 1) by {
            if head == 0 {
                assert(order[0] == c);
            }
        }
        assert(within(links, first[x], l - 1, x));
        lemma_within_step(links, first[x], l - 1, x, y);
        assert(links_of(links, c).contains(first[x]));
    } else {
        assert(x == c) by {
            if head >= 1 {
                assert(level[order[head]] >= 1);
            }
        }
        assert(within(links, y, 0, y));
    }
    // and it is the smallest such neighbor of c
    assert forall|m: ID| #[trigger] within(links, m, l, y) && links_of(links, c).contains(m) implies fy <= m by {
        if l == 0 {
        } else {
            lemma_within_unfold(links, m, l, y);
            if within(links, m, l - 1, y) {
                lemma_within_shift(links, c, m, l - 1, y);
            } else {
                let z = choose|z: ID| #[trigger] within(links, m, l - 1, z) && links_of(links, z).contains(y);
                lemma_within_shift(links, c, m, l - 1, z);
                assert(order.contains(z));
                let iz = choose|iz: int| 0 <= iz < order.len() && order[iz] == z;
                lemma_level_at_most(links, c, order, level, first, parent, iz, l);
                if iz < head {
                    assert(links_of(links, order[iz]).subset_of(order.to_set()));
                    assert(order.to_set().contains(y));
                }
                assert(iz >= head);
                assert(level[order[head]] <= level[order[iz]]);
                assert(level[z] == l);
                assert(iz >= 1);
                assert(within(links, m, level[order[iz]] - 1, order[iz]));
                assert(first_is_minimal(links, c, order[iz], level[order[iz]], first[order[iz]]));
                assert(first[z] <= m);
                if iz > head {
                    assert(first[order[head]] <= first[order[iz]]);
                }
            }
        }
    }
    assert(first_is_minimal(links, c, y, l + 1, fy));
    assert(order2[n] == y);
    assert forall|i: int| #![trigger order2[i]] 0 <= i < n implies order2[i] == order[i] && order[i] != y by {
    }
    assert(order2.no_duplicates());
    assert forall|i: int| #![trigger order2[i]] 1 <= i < order2.len() implies {
        &&& level2[order2[i]] >= 1
        &&& links.contains_key(order2[i])
        &&& !within(links, c, level2[order2[i]] - 1, order2[i])
        &&& first2.contains_key(order2[i])
        &&& links_of(links, c).contains(first2[order2[i]])
        &&& within(links, first2[order2[i]], level2[order2[i]] - 1, order2[i])
        &&& first_is_minimal(links, c, order2[i], level2[order2[i]], first2[order2[i]])
        &&& parent2.contains_key(order2[i])
        &&& order2.contains(parent2[order2[i]])
        &&& level2[parent2[order2[i]]] + 1 == level2[order2[i]]
        &&& level2[order2[i]] == 1 ==> first2[order2[i]] == order2[i]
        &&& level2[order2[i]] > 1 ==> first2[order2[i]] == first2[parent2[order2[i]]]
    } by {
        if i < n {
            let w = order[i];
            assert(order.contains(parent[w]));
            let ip = choose|ip: int| 0 <= ip < order.len() && order[ip] == parent[w];
            assert(order2[ip] == parent[w]);
            assert(parent[w] != y);
        } else {
            assert(order2[head] == x);
            assert(x != y);
        }
    }
    assert forall|i: int, k: int| #![trigger order2[i], order2[k]]
        0 <= i <= k < order2.len() implies level2[order2[i]] <= level2[order2[k]] by {
        if k < n {
            assert(order[i] == order2[i] && order[k] == order2[k]);
        }
    }
    assert forall|i: int, k: int| #![trigger order2[i], order2[k]]
        1 <= i < k < order2.len() && level2[order2[i]] == level2[order2[k]] implies first2[order2[i]] <= first2[order2[k]] by {
        if k < n {
            assert(order[i] == order2[i] && order[k] == order2[k]);
        } else {
            let w = order[i];
            assert(level[w] == l + 1);
            if l >= 1 {
                assert(first[order[i]] <= first[x]);
            } else {
                assert(order[i] < ns[j]);
                assert(first[w] == w);
            }
        }
    }
    assert(search_core(links, c, order2, level2, first2, parent2));
    assert forall|i: int| #![trigger ns[i]] 0 <= i < j + 1 implies order2.contains(ns[i]) by {
        if i < j {
            assert(order.contains(ns[i]));
            let k = choose|k: int| 0 <= k < order.len() && order[k] == ns[i];
            assert(order2[k] == ns[i]);
        } else {
            assert(order2[n] == ns[i]);
        }
    }
    assert forall|i: int| #![trigger order2[i]] 0 <= i < head implies {
        &&& links_of(links, order2[i]).subset_of(order2.to_set())
        &&& !is_target(visits, c, order2[i])
    } by {
        assert(order2[i] == order[i]);
        assert forall|q: ID| links_of(links, order[i]).contains(q) implies order2.to_set().contains(q) by {
            assert(order.to_set().contains(q));
            let k = choose|k: int| 0 <= k < order.len() && order[k] == q;
            assert(order2[k] == q);
        }
    }
    assert forall|k: int, z: ID| 0 <= k <= l && #[trigger] within(links, c, k, z) implies order2.contains(z) by {
        assert(order.contains(z));
        let kk = choose|kk: int| 0 <= kk < order.len() && order[kk] == z;
        assert(order2[kk] == z);
    }
    if l == 0 {
        assert forall|i: int, jj: int| #![trigger order2[i], ns[jj]]
            1 <= i < order2.len() && j + 1 <= jj < ns.len() implies order2[i] < ns[jj] by {
            if i < n {
                assert(order2[i] == order[i]);
            } else {
                assert(ns[j] < ns[jj]);
            }
        }
    }
}


/// The discovered planets are known planets or the start, each once.
pub proof fn lemma_search_len_bound(
    links: Map<ID, Set<ID>>,
    c: ID,
    order: Seq<ID>,
    level: Map<ID, int>,
    first: Map<ID, ID>,
    parent: Map<ID, ID>,
)
    requires
        search_core(links, c, order, level, first, parent),
        links.dom().finite(),
    ensures
        order.len() <= links.dom().insert(c).len(),
        order.len() >= 1,
        order[0] == c,
{
    let all = links.dom().insert(c);
    assert(order.to_set().subset_of(all)) by {
        assert forall|y: ID| order.to_set().contains(y) implies all.contains(y) by {
            let i = choose|i: int| 0 <= i < order.len() && order[i] == y;
            if i >= 1 {
                assert(links.contains_key(order[i]));
            }
        }
    }
    order.unique_seq_to_set();
    vstd::set_lib::lemma_len_subset(order.to_set(), all);
}


/// Climbing the search tree from a discovered planet other than the start:
/// its parent is the start exactly when it is one hop away, and otherwise
/// the parent is closer to the start and on the same branch.
pub proof fn lemma_search_parent(
    links: Map<ID, Set<ID>>,
    c: ID,
    order: Seq<ID>,
    level: Map<ID, int>,
    first: Map<ID, ID>,
    parent: Map<ID, ID>,
    x: ID,
)
    requires
        search_core(links, c, order, level, first, parent),
        order.contains(x),
        x != c,
    ensures
        parent.contains_key(x),
        level[x] >= 1,
        order.contains(parent[x]),
        parent[x] == c ==> first[x] == x,
        parent[x] != c ==> 1 <= level[parent[x]] < level[x] && first[parent[x]] == first[x],
{
    let ix = choose|ix: int| 0 <= ix < order.len() && order[ix] == x;
    assert(ix >= 1);
    assert(order.contains(parent[order[ix]]));
    let ip = choose|ip: int| 0 <= ip < order.len() && order[ip] == parent[x];
    if ip >= 1 {
        assert(level[order[ip]] >= 1);
    }
}

/// The start of a search that has just begun is its only planet.
pub proof fn lemma_search_core_of_outer(
    visits: Map<ID, u32>,
    links: Map<ID, Set<ID>>,
    c: ID,
    order: Seq<ID>,
    head: int,
    level: Map<ID, int>,
    first: Map<ID, ID>,
    parent: Map<ID, ID>,
)
    requires
        search_outer(visits, links, c, order, head, level, first, parent),
    ensures
        search_core(links, c, order, level, first, parent),
        0 <= head <= order.len(),
{
}

} // verus!
