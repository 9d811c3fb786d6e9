//! # Navigation
//!
//! Picks the next destination planet for Jebediah.
//!
//! Priority:
//! 1. If there is an unvisited neighbor, go there immediately.
//! 2. Otherwise, find the shortest known path to the nearest unvisited planet.
//! 3. If all known planets are already visited, keep moving to the least-visited neighbor.
//!
//! This keeps Jebediah focused on fast exploration.
//!
//! Distances are counted in hops along recorded links: `within(links, s, k, y)`
//! holds when `y` can be reached from `s` in at most `k` hops.

use vstd::prelude::*;
use common_game::utils::ID;
use std::collections::{HashMap, HashSet};
use super::mapping::{GalaxyMap, links_of, count_of};
use super::search_facts::{search_core, search_outer, search_inner, neighbors_known, lemma_search_init,
    lemma_search_begin_expand, lemma_search_skip, lemma_search_discover, lemma_search_end_expand,
    lemma_search_found, lemma_search_exhausted, lemma_search_len_bound, lemma_search_parent,
    lemma_search_core_of_outer};

verus! {

/// `y` can be reached from `src` in at most `k` hops along `links`.
pub open spec fn within(links: Map<ID, Set<ID>>, src: ID, k: int, y: ID) -> bool {
    reach(links, src, k).contains(y)
}

/// The planets within `k` hops of `src`.
pub open spec fn reach(links: Map<ID, Set<ID>>, src: ID, k: int) -> Set<ID>
    decreases k,
{
    if k <= 0 {
        Set::empty().insert(src)
    } else {
        let r = reach(links, src, k - 1);
        r.union(Set::new(|y: ID| exists|z: ID| #[trigger] r.contains(z) && links_of(links, z).contains(y)))
    }
}

/// `t` is a known planet, never visited, other than the current planet `c`.
pub open spec fn is_target(visits: Map<ID, u32>, c: ID, t: ID) -> bool {
    &&& visits.contains_key(t)
    &&& visits[t] == 0
    &&& t != c
}

/// Some target lies within `k` hops of `c`.
pub open spec fn target_within(visits: Map<ID, u32>, links: Map<ID, Set<ID>>, c: ID, k: int) -> bool {
    exists|t: ID| #[trigger] within(links, c, k, t) && is_target(visits, c, t)
}

/// `d` is the number of hops from `c` to its nearest target.
pub open spec fn nearest_level(visits: Map<ID, u32>, links: Map<ID, Set<ID>>, c: ID, d: int) -> bool {
    &&& target_within(visits, links, c, d)
    &&& forall|e: int| 0 <= e < d ==> !#[trigger] target_within(visits, links, c, e)
}

/// `n` is a neighbor of `c` that starts a shortest path (of `d` hops) to a
/// target.
pub open spec fn best_hop(visits: Map<ID, u32>, links: Map<ID, Set<ID>>, c: ID, d: int, n: ID) -> bool {
    &&& links_of(links, c).contains(n)
    &&& exists|t: ID| #[trigger] within(links, n, d - 1, t) && is_target(visits, c, t)
}

/// `n` is a recorded neighbor of `c` never visited.
pub open spec fn unvisited_neighbor(visits: Map<ID, u32>, links: Map<ID, Set<ID>>, c: ID, n: ID) -> bool {
    links_of(links, c).contains(n) && count_of(visits, n) == 0
}

/// Some target can be reached from `c` at all.
pub open spec fn target_reachable(visits: Map<ID, u32>, links: Map<ID, Set<ID>>, c: ID) -> bool {
    exists|k: int| 0 <= k && #[trigger] target_within(visits, links, c, k)
}

/// `n` comes before `m` when ordered by visit count, then by identifier.
pub open spec fn visited_no_more_than(visits: Map<ID, u32>, n: ID, m: ID) -> bool {
    ||| count_of(visits, n) < count_of(visits, m)
    ||| count_of(visits, n) == count_of(visits, m) && n <= m
}

/// `r` is where Jebediah goes next from `c`:
/// nowhere when no neighbor is recorded; else the smallest unvisited
/// neighbor; else, when some unvisited planet is reachable, the smallest
/// neighbor that starts a shortest path to a nearest one; else the
/// neighbor with the fewest visits, the smallest on a tie.
pub open spec fn is_destination(visits: Map<ID, u32>, links: Map<ID, Set<ID>>, c: ID, r: Option<ID>) -> bool {
    if links_of(links, c) == Set::<ID>::empty() {
        r is None
    } else if exists|n: ID| #[trigger] unvisited_neighbor(visits, links, c, n) {
        &&& r is Some
        &&& unvisited_neighbor(visits, links, c, r->0)
        &&& forall|m: ID| #[trigger] unvisited_neighbor(visits, links, c, m) ==> r->0 <= m
    } else if target_reachable(visits, links, c) {
        &&& r is Some
        &&& exists|d: int|
            d >= 1 && nearest_level(visits, links, c, d) && best_hop(visits, links, c, d, r->0) && (forall|m: ID|
                #[trigger] best_hop(visits, links, c, d, m) ==> r->0 <= m)
    } else {
        &&& r is Some
        &&& links_of(links, c).contains(r->0)
        &&& forall|m: ID| #[trigger] links_of(links, c).contains(m) ==> visited_no_more_than(visits, r->0, m)
    }
}

/// A planet within `k > 0` hops is within `k - 1` hops or one link away
/// from such a planet.
pub proof fn lemma_within_unfold(links: Map<ID, Set<ID>>, src: ID, k: int, y: ID)
    requires
        k > 0,
        within(links, src, k, y),
    ensures
        within(links, src, k - 1, y) || exists|z: ID|
            #[trigger] within(links, src, k - 1, z) && links_of(links, z).contains(y),
{
    let r = reach(links, src, k - 1);
    if !r.contains(y) {
        let z = choose|z: ID| #[trigger] r.contains(z) && links_of(links, z).contains(y);
        assert(within(links, src, k - 1, z));
    }
}

/// Reaching more hops never loses a planet.
pub proof fn lemma_within_mono(links: Map<ID, Set<ID>>, src: ID, k1: int, k2: int, y: ID)
    requires
        within(links, src, k1, y),
        0 <= k1 <= k2,
    ensures
        within(links, src, k2, y),
    decreases k2,
{
    if k1 < k2 {
        lemma_within_mono(links, src, k1, k2 - 1, y);
    }
}

/// One more hop along a link.
pub proof fn lemma_within_step(links: Map<ID, Set<ID>>, src: ID, k: int, z: ID, y: ID)
    requires
        0 <= k,
        within(links, src, k, z),
        links_of(links, z).contains(y),
    ensures
        within(links, src, k + 1, y),
{
    let k1 = k + 1;
    assert(within(links, src, k1 - 1, z) && links_of(links, z).contains(y));
    assert(exists|w: ID| #[trigger] within(links, src, k1 - 1, w) && links_of(links, w).contains(y));
    assert(within(links, src, k1, y));
}

/// A path from a neighbor `m` of `c` is a path from `c`, one hop longer.
pub proof fn lemma_within_shift(links: Map<ID, Set<ID>>, c: ID, m: ID, k: int, y: ID)
    requires
        0 <= k,
        links_of(links, c).contains(m),
        within(links, m, k, y),
    ensures
        within(links, c, k + 1, y),
    decreases k,
{
    if k == 0 {
        assert(within(links, c, 0, c));
        lemma_within_step(links, c, 0, c, y);
    } else {
        lemma_within_unfold(links, m, k, y);
    }
    if k == 0 {
    } else if within(links, m, k - 1, y) {
        lemma_within_shift(links, c, m, k - 1, y);
        lemma_within_mono(links, c, k, k + 1, y);
    } else {
        let z = choose|z: ID| #[trigger] within(links, m, k - 1, z) && links_of(links, z).contains(y);
        lemma_within_shift(links, c, m, k - 1, z);
        lemma_within_step(links, c, k, z, y);
    }
}

/// A set holding `c` and closed under links holds everything reachable from `c`.
pub proof fn lemma_within_closed(links: Map<ID, Set<ID>>, c: ID, s: Set<ID>, k: int, y: ID)
    requires
        s.contains(c),
        forall|z: ID| #[trigger] s.contains(z) ==> links_of(links, z).subset_of(s),
        0 <= k,
        within(links, c, k, y),
    ensures
        s.contains(y),
    decreases k,
{
    if k > 0 {
        lemma_within_unfold(links, c, k, y);
        if within(links, c, k - 1, y) {
            lemma_within_closed(links, c, s, k - 1, y);
        } else {
            let z = choose|z: ID| #[trigger] within(links, c, k - 1, z) && links_of(links, z).contains(y);
            lemma_within_closed(links, c, s, k - 1, z);
        }
    }
}


/// Finds the next hop toward the nearest known unvisited planet using BFS.
///
/// Returns `None` if no unvisited known planet is reachable through the known map.
fn next_hop_towards_nearest_unvisited(current_planet: ID, map: &GalaxyMap) -> (r: Option<ID>)
    requires
        map.wf(),
    ensures
        match r {
            None => forall|k: int, t: ID|
                0 <= k && #[trigger] within(map.links(), current_planet, k, t) ==> !is_target(
                    map.visits(),
                    current_planet,
                    t,
                ),
            Some(n) => exists|d: int|
                d >= 1 && nearest_level(map.visits(), map.links(), current_planet, d) && best_hop(
                    map.visits(),
                    map.links(),
                    current_planet,
                    d,
                    n,
                ) && (forall|m: ID| #[trigger] best_hop(map.visits(), map.links(), current_planet, d, m) ==> n <= m),
        },
{
    let ghost links = map.links();
    let ghost visits = map.visits();
    let mut queue: Vec<ID> = Vec::new();
    queue.push(current_planet);
    let mut head: usize = 0;
    let mut visited: HashSet<ID> = HashSet::new();
    visited.insert(current_planet);
    let mut previous: HashMap<ID, ID> = HashMap::new();
    let ghost mut level: Map<ID, int> = Map::empty().insert(current_planet, 0int);
    let ghost mut first: Map<ID, ID> = Map::empty();
    proof {
        lemma_search_init(visits, links, current_planet);
        assert(queue@ =~= seq![current_planet]);
        assert(queue@.to_set() =~= Set::<ID>::empty().insert(current_planet)) by {
            assert(queue@[0] == current_planet);
        }
        assert(visited@ =~= queue@.to_set());
        assert(previous@ =~= Map::<ID, ID>::empty());
    }
    let ghost bound = links.dom().insert(current_planet).len();
    while head < queue.len()
        invariant
            map.wf(),
            visits.dom() == links.dom(),
            links == map.links(),
            visits == map.visits(),
            neighbors_known(links),
            links.dom().finite(),
            bound == links.dom().insert(current_planet).len(),
            search_outer(visits, links, current_planet, queue@, head as int, level, first, previous@),
            visited@ == queue@.to_set(),
        decreases bound - head,
    {
        proof {
            lemma_search_core_of_outer(visits, links, current_planet, queue@, head as int, level, first, previous@);
            lemma_search_len_bound(links, current_planet, queue@, level, first, previous@);
        }
        let planet = queue[head];
        if planet != current_planet && !map.is_visited(planet) {
            proof {
                lemma_search_found(visits, links, current_planet, queue@, head as int, level, first, previous@);
            }
            return reconstruct_next_hop(
                current_planet,
                planet,
                &previous,
                Ghost(links),
                Ghost(queue@),
                Ghost(level),
                Ghost(first),
            );
        }
        let neighbors = map.known_neighbors(planet);
        proof {
            lemma_search_begin_expand(visits, links, current_planet, queue@, head as int, neighbors@, level, first, previous@);
        }
        let ghost start = queue@;
        let mut j: usize = 0;
        while j < neighbors.len()
            invariant
                neighbors_known(links),
                visits.dom() == links.dom(),
                head < start.len(),
                head < queue@.len(),
                planet == queue@[head as int],
                !(planet != current_planet && count_of(visits, planet) == 0),
                j <= neighbors.len(),
                search_inner(visits, links, current_planet, start, queue@, head as int, neighbors@, j as int, level, first, previous@),
                visited@ == queue@.to_set(),
            decreases neighbors.len() - j,
        {
            let neighbor = neighbors[j];
            let ghost old_queue = queue@;
            let ghost old_previous = previous@;
            if visited.insert(neighbor) {
                proof {
                    lemma_search_discover(visits, links, current_planet, start, queue@, head as int, neighbors@, j as int, level, first, previous@);
                    let l = level[planet];
                    first = first.insert(neighbor, if l == 0 { neighbor } else { first[planet] });
                    level = level.insert(neighbor, l + 1);
                }
                previous.insert(neighbor, planet);
                queue.push(neighbor);
                proof {
                    assert(queue@ == old_queue.push(neighbor));
                    assert(previous@ == old_previous.insert(neighbor, planet));
                    old_queue.lemma_push_to_set_commute(neighbor);
                    assert(queue@[head as int] == planet);
                }
            } else {
                proof {
                    lemma_search_skip(visits, links, current_planet, start, queue@, head as int, neighbors@, j as int, level, first, previous@);
                }
            }
            j = j + 1;
        }
        proof {
            lemma_search_end_expand(visits, links, current_planet, start, queue@, head as int, neighbors@, level, first, previous@);
        }
        head = head + 1;
    }
    proof {
        lemma_search_core_of_outer(visits, links, current_planet, queue@, head as int, level, first, previous@);
        lemma_search_exhausted(visits, links, current_planet, queue@, level, first, previous@);
    }
    None
}

/// Reconstructs only the first step from `start` toward `target`.
fn reconstruct_next_hop(
    start: ID,
    target: ID,
    previous: &HashMap<ID, ID>,
    Ghost(links): Ghost<Map<ID, Set<ID>>>,
    Ghost(order): Ghost<Seq<ID>>,
    Ghost(level): Ghost<Map<ID, int>>,
    Ghost(first): Ghost<Map<ID, ID>>,
) -> (r: Option<ID>)
    requires
        search_core(links, start, order, level, first, previous@),
        order.contains(target),
        target != start,
    ensures
        r == Some(first[target]),
{
    proof {
        lemma_search_parent(links, start, order, level, first, previous@, target);
    }
    let mut current = target;
    loop
        invariant
            search_core(links, start, order, level, first, previous@),
            order.contains(current),
            current != start,
            first[current] == first[target],
            level[current] >= 1,
        decreases level[current],
    {
        proof {
            lemma_search_parent(links, start, order, level, first, previous@, current);
        }
        match previous.get(&current) {
            Some(parent) => {
                let parent = *parent;
                if parent == start {
                    return Some(current);
                }
                current = parent;
            }
            None => {
                return None;
            }
        }
    }
}


/// Returns the next planet Jeb should travel to.
///
/// Important:
/// this returns the **next hop**, not necessarily the final target.
///
/// Example:
///
/// ```text
/// current = 1
/// unvisited target = 4
/// known path = 1 -> 2 -> 3 -> 4
/// returns 2
/// ```
pub fn pick_destination(current_planet: ID, map: &GalaxyMap) -> (r: Option<ID>)
    requires
        map.wf(),
    ensures
        is_destination(map.visits(), map.links(), current_planet, r),
{
    let neighbors = map.known_neighbors(current_planet);
    let ghost nbrs = links_of(map.links(), current_planet);
    if neighbors.len() == 0 {
        proof {
            assert(neighbors@.to_set() =~= Set::<ID>::empty());
        }
        return None;
    }
    proof {
        assert(nbrs.contains(neighbors@[0]));
    }
    // 1. Fastest case: directly move to an unvisited neighbor.
    if let Some(destination) = pick_unvisited_neighbor(neighbors.as_slice(), map) {
        proof {
            assert(unvisited_neighbor(map.visits(), map.links(), current_planet, destination));
        }
        return Some(destination);
    }
    // 2. If no direct neighbor is unvisited, search the known map for the
    // shortest path to any known unvisited planet.
    if let Some(destination) = next_hop_towards_nearest_unvisited(current_planet, map) {
        proof {
            let d = choose|d: int|
                d >= 1 && nearest_level(map.visits(), map.links(), current_planet, d) && best_hop(
                    map.visits(),
                    map.links(),
                    current_planet,
                    d,
                    destination,
                ) && (forall|m: ID| #[trigger] best_hop(map.visits(), map.links(), current_planet, d, m) ==> destination <= m);
            assert(target_within(map.visits(), map.links(), current_planet, d));
            assert(target_reachable(map.visits(), map.links(), current_planet));
        }
        return Some(destination);
    }
    proof {
        if target_reachable(map.visits(), map.links(), current_planet) {
            let k = choose|k: int| 0 <= k && #[trigger] target_within(map.visits(), map.links(), current_planet, k);
            let t = choose|t: ID| #[trigger] within(map.links(), current_planet, k, t) && is_target(map.visits(), current_planet, t);
        }
    }
    // 3. If everything known is already visited, keep moving.
    // Pick the least visited neighbor to avoid getting stuck in a tiny loop.
    pick_least_visited_neighbor(neighbors, map)
}

/// Prefer an immediately reachable unvisited planet.
fn pick_unvisited_neighbor(neighbors: &[ID], map: &GalaxyMap) -> (r: Option<ID>)
    ensures
        match r {
            None => forall|i: int| 0 <= i < neighbors@.len() ==> count_of(map.visits(), #[trigger] neighbors@[i]) > 0,
            Some(n) => neighbors@.contains(n) && count_of(map.visits(), n) == 0 && forall|i: int|
                0 <= i < neighbors@.len() && count_of(map.visits(), #[trigger] neighbors@[i]) == 0 ==> n <= neighbors@[i],
        },
{
    let mut best: Option<ID> = None;
    let mut i: usize = 0;
    while i < neighbors.len()
        invariant
            0 <= i <= neighbors@.len(),
            match best {
                None => forall|k: int| 0 <= k < i ==> count_of(map.visits(), #[trigger] neighbors@[k]) > 0,
                Some(n) => neighbors@.contains(n) && count_of(map.visits(), n) == 0 && forall|k: int|
                    0 <= k < i && count_of(map.visits(), #[trigger] neighbors@[k]) == 0 ==> n <= neighbors@[k],
            },
        decreases neighbors@.len() - i,
    {
        let planet_id = neighbors[i];
        if !map.is_visited(planet_id) {
            match best {
                None => {
                    best = Some(planet_id);
                }
                Some(b) => {
                    if planet_id < b {
                        best = Some(planet_id);
                    }
                }
            }
        }
        i = i + 1;
    }
    best
}

/// If all known planets are already visited, keep moving through the graph.
///
/// Strategy:
/// choose the neighbor with the lowest visit count.
/// If two neighbors have the same visit count, choose the smaller ID for stable behavior.
fn pick_least_visited_neighbor(neighbors: Vec<ID>, map: &GalaxyMap) -> (r: Option<ID>)
    ensures
        match r {
            None => neighbors@.len() == 0,
            Some(n) => neighbors@.contains(n) && forall|i: int|
                0 <= i < neighbors@.len() ==> visited_no_more_than(map.visits(), n, #[trigger] neighbors@[i]),
        },
{
    if neighbors.len() == 0 {
        return None;
    }
    let mut best: ID = neighbors[0];
    let mut best_count: u32 = map.visit_count(best);
    let mut i: usize = 1;
    while i < neighbors.len()
        invariant
            1 <= i <= neighbors@.len(),
            neighbors@.contains(best),
            best_count == count_of(map.visits(), best),
            forall|k: int| 0 <= k < i ==> visited_no_more_than(map.visits(), best, #[trigger] neighbors@[k]),
        decreases neighbors@.len() - i,
    {
        let planet_id = neighbors[i];
        let count = map.visit_count(planet_id);
        if count < best_count || (count == best_count && planet_id < best) {
            best = planet_id;
            best_count = count;
        }
        i = i + 1;
    }
    Some(best)
}


/// The choice of destination is determined by the map: two results that
/// both meet `is_destination` for the same map and planet are equal.
pub proof fn lemma_destination_unique(
    visits: Map<ID, u32>,
    links: Map<ID, Set<ID>>,
    c: ID,
    r1: Option<ID>,
    r2: Option<ID>,
)
    requires
        is_destination(visits, links, c, r1),
        is_destination(visits, links, c, r2),
    ensures
        r1 == r2,
{
    if links_of(links, c) == Set::<ID>::empty() {
    } else if exists|n: ID| #[trigger] unvisited_neighbor(visits, links, c, n) {
        assert(r1->0 <= r2->0);
        assert(r2->0 <= r1->0);
    } else if target_reachable(visits, links, c) {
        let d1 = choose|d: int|
            d >= 1 && nearest_level(visits, links, c, d) && best_hop(visits, links, c, d, r1->0) && (forall|m: ID|
                #[trigger] best_hop(visits, links, c, d, m) ==> r1->0 <= m);
        let d2 = choose|d: int|
            d >= 1 && nearest_level(visits, links, c, d) && best_hop(visits, links, c, d, r2->0) && (forall|m: ID|
                #[trigger] best_hop(visits, links, c, d, m) ==> r2->0 <= m);
        if d1 < d2 {
            assert(!target_within(visits, links, c, d1));
        }
        if d2 < d1 {
            assert(!target_within(visits, links, c, d2));
        }
        assert(d1 == d2);
        assert(r1->0 <= r2->0);
        assert(r2->0 <= r1->0);
    } else {
        assert(visited_no_more_than(visits, r1->0, r2->0));
        assert(visited_no_more_than(visits, r2->0, r1->0));
    }
}

/// A destination is always a recorded neighbor of the current planet, and
/// one exists exactly when the current planet has a recorded neighbor.
pub proof fn lemma_destination_is_neighbor(visits: Map<ID, u32>, links: Map<ID, Set<ID>>, c: ID, r: Option<ID>)
    requires
        is_destination(visits, links, c, r),
    ensures
        r is None <==> links_of(links, c) == Set::<ID>::empty(),
        r matches Some(n) ==> links_of(links, c).contains(n),
{
    if links_of(links, c) == Set::<ID>::empty() {
    } else if exists|n: ID| #[trigger] unvisited_neighbor(visits, links, c, n) {
    } else if target_reachable(visits, links, c) {
        let d = choose|d: int|
            d >= 1 && nearest_level(visits, links, c, d) && best_hop(visits, links, c, d, r->0) && (forall|m: ID|
                #[trigger] best_hop(visits, links, c, d, m) ==> r->0 <= m);
    }
}

/// The hop chosen while a target is reachable brings Jebediah one hop
/// closer: from it, a nearest unvisited planet is one hop nearer than from
/// where he stands (a visited planet), and no unvisited planet is nearer still.
pub proof fn lemma_destination_gets_closer(visits: Map<ID, u32>, links: Map<ID, Set<ID>>, c: ID, r: Option<ID>)
    requires
        is_destination(visits, links, c, r),
        !(exists|n: ID| #[trigger] unvisited_neighbor(visits, links, c, n)),
        target_reachable(visits, links, c),
        count_of(visits, c) > 0,
    ensures
        r is Some,
        exists|d: int| #![trigger nearest_level(visits, links, c, d)]
            d >= 1 && nearest_level(visits, links, c, d) && target_within(visits, links, r->0, d - 1)
                && forall|e: int| 0 <= e < d - 1 ==> !#[trigger] target_within(visits, links, r->0, e),
{
    assert(links_of(links, c) != Set::<ID>::empty()) by {
        let k = choose|k: int| 0 <= k && #[trigger] target_within(visits, links, c, k);
        let t = choose|t: ID| #[trigger] within(links, c, k, t) && is_target(visits, c, t);
        if links_of(links, c) == Set::<ID>::empty() {
            let s = Set::<ID>::empty().insert(c);
            assert forall|z: ID| #[trigger] s.contains(z) implies links_of(links, z).subset_of(s) by {
                assert(z == c);
            }
            lemma_within_closed(links, c, s, k, t);
        }
    }
    let n = r->0;
    let d = choose|d: int|
        d >= 1 && nearest_level(visits, links, c, d) && best_hop(visits, links, c, d, n) && (forall|m: ID|
            #[trigger] best_hop(visits, links, c, d, m) ==> n <= m);
    let t = choose|t: ID| #[trigger] within(links, n, d - 1, t) && is_target(visits, c, t);
    assert(target_within(visits, links, n, d - 1)) by {
        assert(n != t) by {
            if n == t {
                assert(unvisited_neighbor(visits, links, c, n));
            }
        }
        assert(within(links, n, d - 1, t) && is_target(visits, n, t));
    }
    assert forall|e: int| 0 <= e < d - 1 implies !#[trigger] target_within(visits, links, n, e) by {
        if target_within(visits, links, n, e) {
            let u = choose|u: ID| #[trigger] within(links, n, e, u) && is_target(visits, n, u);
            lemma_within_shift(links, c, n, e, u);
            assert(is_target(visits, c, u));
            assert(target_within(visits, links, c, e + 1));
        }
    }
}

} // verus!
