//! # Galaxy map
//!
//! Tracks everything Jebediah has learned about the galaxy:
//! - which planets exist;
//! - how many times he has visited each planet;
//! - bilateral adjacency between planets;
//! - starting planet;
//! - current exploration progress.
//!
//! Jebediah's priority is fast exploration. The map therefore keeps enough
//! information to help navigation prefer unvisited planets and still move
//! through already visited planets when needed.
//!
//! Mathematically the map is three values: `visits()`, a finite map from
//! each known planet to its visit count; `links()`, a map from each known
//! planet to the set of planets recorded as its neighbors; and `home()`,
//! the starting planet.

use vstd::prelude::*;
use std::collections::{HashMap, HashSet};
use common_game::utils::ID;
use super::sorted_ids::{strictly_increasing, sorted_listing, insert_sorted, lemma_sorted_listing_len};

verus! {

broadcast use vstd::std_specs::hash::group_hash_axioms;

/// Visit count of `p`, 0 for a planet the map does not know.
pub open spec fn count_of(visits: Map<ID, u32>, p: ID) -> u32 {
    if visits.contains_key(p) {
        visits[p]
    } else {
        0
    }
}

/// Recorded neighbors of `p`, empty for a planet the map does not know.
pub open spec fn links_of(links: Map<ID, Set<ID>>, p: ID) -> Set<ID> {
    if links.contains_key(p) {
        links[p]
    } else {
        Set::empty()
    }
}

/// The invariant of a map's mathematical value: both maps know the same
/// finite set of planets, the home planet among them; every recorded
/// neighbor is itself known; and every connection is stored both ways.
pub open spec fn valid_map(visits: Map<ID, u32>, links: Map<ID, Set<ID>>, home: ID) -> bool {
    &&& visits.dom() == links.dom()
    &&& visits.dom().finite()
    &&& visits.contains_key(home)
    &&& forall|p: ID, q: ID|
        #![trigger links[p].contains(q)]
        links.contains_key(p) && links[p].contains(q) ==> links.contains_key(q) && links[q].contains(p)
}

/// Visit counts after recording the neighbor list `ns` of planet `p`:
/// every planet named there becomes known, unknown ones with count 0.
pub open spec fn recorded_visits(visits: Map<ID, u32>, p: ID, ns: Seq<ID>) -> Map<ID, u32> {
    Map::new(|q: ID| visits.contains_key(q) || q == p || ns.contains(q), |q: ID| count_of(visits, q))
}

/// Adjacency after recording the neighbor list `ns` of planet `p`: `p` is
/// linked to every planet of `ns` and each of them back to `p`.
pub open spec fn recorded_links(links: Map<ID, Set<ID>>, p: ID, ns: Seq<ID>) -> Map<ID, Set<ID>> {
    Map::new(
        |q: ID| links.contains_key(q) || q == p || ns.contains(q),
        |q: ID|
            links_of(links, q).union(
                if q == p {
                    ns.to_set()
                } else {
                    Set::empty()
                },
            ).union(
                if ns.contains(q) {
                    Set::empty().insert(p)
                } else {
                    Set::empty()
                },
            ),
    )
}

/// Known planets visited at least once.
pub open spec fn visited_set(visits: Map<ID, u32>) -> Set<ID> {
    visits.dom().filter(|p: ID| visits[p] > 0)
}

/// Known planets never visited.
pub open spec fn unvisited_set(visits: Map<ID, u32>) -> Set<ID> {
    visits.dom().filter(|p: ID| visits[p] == 0)
}

/// `entries` lists every known planet in increasing order, each with its
/// recorded neighbors in increasing order.
pub open spec fn adjacency_listing(entries: Seq<(ID, Seq<ID>)>, links: Map<ID, Set<ID>>) -> bool {
    &&& sorted_listing(entries.map_values(|e: (ID, Seq<ID>)| e.0), links.dom())
    &&& forall|i: int| #![trigger entries[i]] 0 <= i < entries.len() ==> sorted_listing(entries[i].1, links_of(links, entries[i].0))
}

/// `entries` lists every known planet in increasing order, each with its
/// visit count.
pub open spec fn counts_listing(entries: Seq<(ID, u32)>, visits: Map<ID, u32>) -> bool {
    &&& sorted_listing(entries.map_values(|e: (ID, u32)| e.0), visits.dom())
    &&& forall|i: int| #![trigger entries[i]] 0 <= i < entries.len() ==> entries[i].1 == visits[entries[i].0]
}

/// The text that `{:?}` makes of a list of planets with their neighbor lists.
pub uninterp spec fn adjacency_text(entries: Seq<(ID, Seq<ID>)>) -> Seq<char>;

/// The text that `{:?}` makes of a list of planets with their visit counts.
pub uninterp spec fn counts_text(entries: Seq<(ID, u32)>) -> Seq<char>;

/// The decimal digit `d`, for `d < 10`.
pub open spec fn digit(d: nat) -> char {
    seq!['0', '1', '2', '3', '4', '5', '6', '7', '8', '9'][d as int]
}

/// The decimal writing of `n`, without leading zeros.
pub open spec fn decimal(n: nat) -> Seq<char>
    decreases n,
{
    if n < 10 {
        seq![digit(n)]
    } else {
        decimal(n / 10).push(digit(n % 10))
    }
}

/// The one-line summary of the map written for the logs:
/// `known=K visited=V uncharted=U home=H visits=.. adjacency=..`, the
/// numbers in decimal.
pub open spec fn summary_line(
    known: nat,
    visited: nat,
    uncharted: nat,
    home: nat,
    visits: Seq<char>,
    adjacency: Seq<char>,
) -> Seq<char> {
    "known="@ + decimal(known) + " visited="@ + decimal(visited) + " uncharted="@ + decimal(uncharted) + " home="@
        + decimal(home) + " visits="@ + visits + " adjacency="@ + adjacency
}

/// `format!("{entries:?}")`: the debug text of the entries, a function of
/// their values alone.
#[verifier::external_body]
fn format_adjacency(entries: &Vec<(ID, Vec<ID>)>) -> (text: String)
    ensures
        text@ == adjacency_text(entries.deep_view()),
{
    format!("{entries:?}")
}

/// `format!("{entries:?}")`: the debug text of the entries, a function of
/// their values alone.
#[verifier::external_body]
fn format_counts(entries: &Vec<(ID, u32)>) -> (text: String)
    ensures
        text@ == counts_text(entries.deep_view()),
{
    format!("{entries:?}")
}

/// `format!` of the log line `known=.. visited=.. uncharted=.. home=..
/// visits=.. adjacency=..`: `{}` writes an integer in decimal and a string
/// as it is.
#[verifier::external_body]
fn format_summary(
    known: usize,
    visited: usize,
    uncharted: usize,
    home: ID,
    visits: &String,
    adjacency: &String,
) -> (text: String)
    ensures
        text@ == summary_line(known as nat, visited as nat, uncharted as nat, home as nat, visits@, adjacency@),
{
    format!(
        "known={} visited={} uncharted={} home={} visits={} adjacency={}",
        known,
        visited,
        uncharted,
        home,
        visits,
        adjacency,
    )
}

/// Which known planets a listing keeps.
enum Selection {
    All,
    Visited,
    Unvisited,
}

spec fn selects(selection: Selection, count: u32) -> bool {
    match selection {
        Selection::All => true,
        Selection::Visited => count > 0,
        Selection::Unvisited => count == 0,
    }
}

/// Running knowledge of the galaxy accumulated during exploration.
pub struct GalaxyMap {
    /// Visit count per known planet.
    ///
    /// A count of 0 means the planet is known because it appeared as a neighbor,
    /// but Jebediah has never visited it.
    visit_counts: HashMap<ID, u32>,
    /// Known bilateral adjacency.
    ///
    /// If we discover `A -> B`, we also store `B -> A`.
    adjacency: HashMap<ID, HashSet<ID>>,
    /// First planet where Jebediah spawned.
    starting_planet: ID,
}

impl GalaxyMap {
    /// Visit count of every known planet.
    pub closed spec fn visits(&self) -> Map<ID, u32> {
        self.visit_counts@
    }

    /// Recorded neighbors of every known planet.
    pub closed spec fn links(&self) -> Map<ID, Set<ID>> {
        Map::new(|p: ID| self.adjacency@.contains_key(p), |p: ID| self.adjacency@[p]@)
    }

    /// The starting planet.
    pub closed spec fn home(&self) -> ID {
        self.starting_planet
    }

    /// The map's invariant.
    pub open spec fn wf(&self) -> bool {
        valid_map(self.visits(), self.links(), self.home())
    }

    proof fn lemma_links_dom(&self)
        ensures
            self.links().dom() == self.adjacency@.dom(),
            forall|p: ID| #[trigger] self.adjacency@.contains_key(p) ==> self.links()[p] == self.adjacency@[p]@,
    {
        assert(self.links().dom() =~= self.adjacency@.dom());
    }

    /// Creates a new map seeded with the starting planet.
    ///
    /// The starting planet is considered already visited once.
    pub fn new(starting_planet: ID) -> (map: Self)
        ensures
            map.wf(),
            map.visits() == Map::<ID, u32>::empty().insert(starting_planet, 1u32),
            map.links() == Map::<ID, Set<ID>>::empty().insert(starting_planet, Set::<ID>::empty()),
            map.home() == starting_planet,
    {
        let mut visit_counts: HashMap<ID, u32> = HashMap::new();
        visit_counts.insert(starting_planet, 1);
        let mut adjacency: HashMap<ID, HashSet<ID>> = HashMap::new();
        adjacency.insert(starting_planet, HashSet::new());
        let map = GalaxyMap { visit_counts, adjacency, starting_planet };
        proof {
            map.lemma_links_dom();
            assert(map.links() =~= Map::<ID, Set<ID>>::empty().insert(starting_planet, Set::<ID>::empty()));
        }
        map
    }

    /// Visit count for `planet_id`.
    ///
    /// Returns 0 for unknown planets.
    pub fn visit_count(&self, planet_id: ID) -> (count: u32)
        ensures
            count == count_of(self.visits(), planet_id),
    {
        match self.visit_counts.get(&planet_id) {
            Some(c) => *c,
            None => 0,
        }
    }

    /// Returns true if the planet is known by the map.
    pub fn knows_planet(&self, planet_id: ID) -> (known: bool)
        ensures
            known == self.visits().contains_key(planet_id),
    {
        self.visit_counts.contains_key(&planet_id)
    }

    /// Returns true if the planet has been visited at least once.
    pub fn is_visited(&self, planet_id: ID) -> (visited: bool)
        ensures
            visited == (count_of(self.visits(), planet_id) > 0),
    {
        self.visit_count(planet_id) > 0
    }

    /// Makes `p` known: count 0 and no neighbors when it was unknown.
    fn ensure_known(&mut self, p: ID)
        requires
            old(self).visits().dom() == old(self).links().dom(),
        ensures
            final(self).visits() == (if old(self).visits().contains_key(p) {
                old(self).visits()
            } else {
                old(self).visits().insert(p, 0u32)
            }),
            final(self).links() == (if old(self).links().contains_key(p) {
                old(self).links()
            } else {
                old(self).links().insert(p, Set::<ID>::empty())
            }),
            final(self).home() == old(self).home(),
    {
        proof { old(self).lemma_links_dom(); }
        if !self.visit_counts.contains_key(&p) {
            self.visit_counts.insert(p, 0);
        }
        if !self.adjacency.contains_key(&p) {
            self.adjacency.insert(p, HashSet::new());
        }
        proof {
            self.lemma_links_dom();
            if !old(self).links().contains_key(p) {
                assert(self.links() =~= old(self).links().insert(p, Set::<ID>::empty()));
            } else {
                assert(self.links() =~= old(self).links());
            }
        }
    }

    /// Adds `b` to the recorded neighbors of the known planet `a`.
    fn link_one_way(&mut self, a: ID, b: ID)
        requires
            old(self).links().contains_key(a),
        ensures
            final(self).links() == old(self).links().insert(a, old(self).links()[a].insert(b)),
            final(self).visits() == old(self).visits(),
            final(self).home() == old(self).home(),
    {
        proof { old(self).lemma_links_dom(); }
        let mut set = match self.adjacency.remove(&a) {
            Some(s) => s,
            None => HashSet::new(),
        };
        set.insert(b);
        self.adjacency.insert(a, set);
        proof {
            self.lemma_links_dom();
            assert(self.links() =~= old(self).links().insert(a, old(self).links()[a].insert(b)));
        }
    }

    /// Records one visit to `planet_id`, adding it to the map if unknown.
    pub fn visit(&mut self, planet_id: ID)
        requires
            old(self).wf(),
            count_of(old(self).visits(), planet_id) < u32::MAX,
        ensures
            final(self).wf(),
            final(self).visits() == old(self).visits().insert(
                planet_id,
                (count_of(old(self).visits(), planet_id) + 1) as u32,
            ),
            final(self).links() == (if old(self).links().contains_key(planet_id) {
                old(self).links()
            } else {
                old(self).links().insert(planet_id, Set::<ID>::empty())
            }),
            final(self).home() == old(self).home(),
    {
        self.ensure_known(planet_id);
        let count = self.visit_count(planet_id);
        self.visit_counts.insert(planet_id, count + 1);
        proof {
            assert(self.visits().dom() =~= self.links().dom());
        }
    }

    /// Records the neighbor list for `planet_id`.
    ///
    /// Important:
    /// this stores connections bilaterally.
    ///
    /// Example:
    ///
    /// ```text
    /// record_neighbors(3, vec![2, 4])
    /// ```
    ///
    /// stores:
    ///
    /// ```text
    /// 3 -> 2
    /// 2 -> 3
    /// 3 -> 4
    /// 4 -> 3
    /// ```
    ///
    /// Unknown neighbors are added with visit count 0 so they appear in
    /// `unvisited()`.
    pub fn record_neighbors(&mut self, planet_id: ID, neighbors: Vec<ID>)
        requires
            old(self).wf(),
        ensures
            final(self).wf(),
            final(self).visits() == recorded_visits(old(self).visits(), planet_id, neighbors@),
            final(self).links() == recorded_links(old(self).links(), planet_id, neighbors@),
            final(self).home() == old(self).home(),
    {
        let ghost v0 = self.visits();
        let ghost l0 = self.links();
        self.ensure_known(planet_id);
        proof {
            assert(self.visits() =~= recorded_visits(v0, planet_id, neighbors@.take(0)));
            let e = neighbors@.take(0);
            assert(e.to_set() =~= Set::<ID>::empty());
            let goal = recorded_links(l0, planet_id, e);
            assert(self.links().dom() =~= goal.dom());
            assert forall|q: ID| #[trigger] goal.contains_key(q) implies self.links()[q] =~= goal[q] by {
            }
            assert(self.links() =~= goal);
        }
        let mut i: usize = 0;
        while i < neighbors.len()
            invariant
                0 <= i <= neighbors.len(),
                valid_map(v0, l0, self.home()),
                self.home() == old(self).home(),
                self.visits() == recorded_visits(v0, planet_id, neighbors@.take(i as int)),
                self.links() == recorded_links(l0, planet_id, neighbors@.take(i as int)),
            decreases neighbors.len() - i,
        {
            let n = neighbors[i];
            let ghost before_v = self.visits();
            let ghost before_l = self.links();
            self.ensure_known(n);
            self.link_one_way(planet_id, n);
            self.link_one_way(n, planet_id);
            proof {
                let pre = neighbors@.take(i as int);
                let post = neighbors@.take(i + 1);
                assert(post =~= pre.push(n));
                pre.lemma_push_to_set_commute(n);
                assert(forall|q: ID| post.contains(q) <==> (pre.contains(q) || q == n)) by {
                    assert forall|q: ID| post.contains(q) implies (pre.contains(q) || q == n) by {
                        let k = choose|k: int| 0 <= k < post.len() && post[k] == q;
                        if k < pre.len() {
                            assert(pre[k] == q);
                        }
                    }
                    assert forall|q: ID| (pre.contains(q) || q == n) implies post.contains(q) by {
                        if q == n {
                            assert(post[pre.len() as int] == n);
                        } else {
                            let k = choose|k: int| 0 <= k < pre.len() && pre[k] == q;
                            assert(post[k] == q);
                        }
                    }
                }
                assert(self.visits() =~= recorded_visits(v0, planet_id, post));
                let goal = recorded_links(l0, planet_id, post);
                assert(self.links().dom() =~= goal.dom());
                assert forall|q: ID| #[trigger] goal.contains_key(q) implies self.links()[q] =~= goal[q] by {
                }
                assert(self.links() =~= goal);
            }
            i = i + 1;
        }
        proof {
            assert(neighbors@.take(neighbors@.len() as int) =~= neighbors@);
            let v = self.visits();
            let l = self.links();
            assert(v.dom() =~= l.dom());
            assert forall|p: ID, q: ID| #![trigger l[p].contains(q)]
                l.contains_key(p) && l[p].contains(q) implies l.contains_key(q) && l[q].contains(p) by {
                if links_of(l0, p).contains(q) {
                    assert(l0[p].contains(q));
                }
            }
        }
    }

    /// Neighbors of `planet_id` that have been recorded so far.
    ///
    /// The output is sorted to make behavior and logs more deterministic.
    pub fn known_neighbors(&self, planet_id: ID) -> (r: Vec<ID>)
        ensures
            sorted_listing(r@, links_of(self.links(), planet_id)),
    {
        proof { self.lemma_links_dom(); }
        let mut out: Vec<ID> = Vec::new();
        match self.adjacency.get(&planet_id) {
            None => {
                assert(out@.to_set() =~= Set::<ID>::empty());
            }
            Some(set) => {
                for n in it: set.iter()
                    invariant
                        strictly_increasing(out@),
                        out@.to_set() == it.seq().unref().take(it.index()).to_set(),
                        it.seq().unref().no_duplicates(),
                        it.seq().unref().to_set() == set@,
                        it.index() == it.seq().len() ==> out@.to_set() == set@,
                {
                    let ghost s = it.seq().unref();
                    let ghost i = it.index();
                    assert(s[i] == *n);
                    assert(!out@.contains(*n)) by {
                        if out@.contains(*n) {
                            assert(out@.to_set().contains(*n));
                            let k = choose|k: int| 0 <= k < i && s.take(i)[k] == *n;
                            assert(s[k] == s[i]);
                        }
                    }
                    insert_sorted(&mut out, *n);
                    assert(s.take(i + 1) =~= s.take(i).push(*n));
                    assert(s.take(i + 1).to_set() =~= s.take(i).to_set().insert(*n)) by {
                        s.take(i).lemma_push_to_set_commute(*n);
                    }
                    assert(s.take(s.len() as int) =~= s);
                }
            }
        }
        out
    }

    /// Returns true if two planets are known as connected.
    pub fn are_connected(&self, a: ID, b: ID) -> (connected: bool)
        ensures
            connected == links_of(self.links(), a).contains(b),
    {
        proof { self.lemma_links_dom(); }
        match self.adjacency.get(&a) {
            Some(neighbors) => neighbors.contains(&b),
            None => false,
        }
    }

    /// Known planets whose count the selection keeps, sorted.
    fn planets_where(&self, selection: Selection) -> (r: Vec<ID>)
        ensures
            sorted_listing(r@, self.visits().dom().filter(|p: ID| selects(selection, self.visits()[p]))),
    {
        let ghost want = self.visits().dom().filter(|p: ID| selects(selection, self.visits()[p]));
        let mut out: Vec<ID> = Vec::new();
        for k in it: self.visit_counts.keys()
            invariant
                strictly_increasing(out@),
                out@.to_set() == it.seq().unref().take(it.index()).to_set().filter(
                    |p: ID| selects(selection, self.visits()[p]),
                ),
                it.seq().unref().no_duplicates(),
                it.seq().unref().to_set() == self.visits().dom(),
                want == self.visits().dom().filter(|p: ID| selects(selection, self.visits()[p])),
                it.index() == it.seq().len() ==> out@.to_set() == want,
        {
            let ghost s = it.seq().unref();
            let ghost i = it.index();
            let ghost pred = |p: ID| selects(selection, self.visits()[p]);
            assert(s[i] == *k);
            assert(s.to_set().contains(*k));
            let count = self.visit_count(*k);
            let keep = match selection {
                Selection::All => true,
                Selection::Visited => count > 0,
                Selection::Unvisited => count == 0,
            };
            let ghost before = out@;
            if keep {
                assert(!out@.contains(*k)) by {
                    if out@.contains(*k) {
                        assert(out@.to_set().contains(*k));
                        let j = choose|j: int| 0 <= j < i && s.take(i)[j] == *k;
                        assert(s[j] == s[i]);
                    }
                }
                insert_sorted(&mut out, *k);
            }
            proof {
                assert(s.take(i + 1) =~= s.take(i).push(*k));
                s.take(i).lemma_push_to_set_commute(*k);
                assert(out@.to_set() =~= s.take(i + 1).to_set().filter(pred));
                assert(s.take(s.len() as int) =~= s);
                assert(s.to_set().filter(pred) =~= want);
            }
        }
        out
    }

    /// Total distinct planets known, visited or only discovered as neighbors.
    pub fn known_planet_count(&self) -> (n: usize)
        ensures
            n == self.visits().dom().len(),
    {
        self.visit_counts.len()
    }

    /// Planets with at least one visit recorded.
    pub fn visited_planet_count(&self) -> (n: usize)
        ensures
            n == visited_set(self.visits()).len(),
    {
        let planets = self.planets_where(Selection::Visited);
        proof {
            assert(visited_set(self.visits()) =~= self.visits().dom().filter(
                |p: ID| selects(Selection::Visited, self.visits()[p]),
            ));
            lemma_sorted_listing_len(planets@, visited_set(self.visits()));
        }
        planets.len()
    }

    /// Planets known but never visited.
    pub fn unvisited_planet_count(&self) -> (n: usize)
        ensures
            n == unvisited_set(self.visits()).len(),
    {
        let planets = self.planets_where(Selection::Unvisited);
        proof {
            assert(unvisited_set(self.visits()) =~= self.visits().dom().filter(
                |p: ID| selects(Selection::Unvisited, self.visits()[p]),
            ));
            lemma_sorted_listing_len(planets@, unvisited_set(self.visits()));
        }
        planets.len()
    }

    /// Returns true if every known planet has been visited at least once.
    pub fn all_known_planets_visited(&self) -> (all: bool)
        requires
            self.wf(),
        ensures
            all == (forall|p: ID| #[trigger] self.visits().contains_key(p) ==> self.visits()[p] > 0),
    {
        let n = self.unvisited_planet_count();
        proof {
            let u = unvisited_set(self.visits());
            assert(u.finite());
            if n == 0 {
                assert forall|p: ID| #[trigger] self.visits().contains_key(p) implies self.visits()[p] > 0 by {
                    if self.visits()[p] == 0 {
                        assert(u.contains(p));
                        vstd::set_lib::lemma_set_empty_equivalency_len(u);
                    }
                }
            } else {
                vstd::set_lib::lemma_set_empty_equivalency_len(u);
                let p = u.choose();
                assert(u.contains(p));
            }
        }
        n == 0
    }

    /// Known planets with zero visits, sorted.
    pub fn unvisited(&self) -> (r: Vec<ID>)
        ensures
            sorted_listing(r@, unvisited_set(self.visits())),
    {
        self.unvisited_planets()
    }

    /// Returns the known unvisited planets as a sorted vector.
    pub fn unvisited_planets(&self) -> (r: Vec<ID>)
        ensures
            sorted_listing(r@, unvisited_set(self.visits())),
    {
        let planets = self.planets_where(Selection::Unvisited);
        proof {
            assert(unvisited_set(self.visits()) =~= self.visits().dom().filter(
                |p: ID| selects(Selection::Unvisited, self.visits()[p]),
            ));
        }
        planets
    }

    /// Returns visited planets as a sorted vector.
    pub fn visited_planets(&self) -> (r: Vec<ID>)
        ensures
            sorted_listing(r@, visited_set(self.visits())),
    {
        let planets = self.planets_where(Selection::Visited);
        proof {
            assert(visited_set(self.visits()) =~= self.visits().dom().filter(
                |p: ID| selects(Selection::Visited, self.visits()[p]),
            ));
        }
        planets
    }

    /// Returns known planets as a sorted vector.
    pub fn known_planets(&self) -> (r: Vec<ID>)
        ensures
            sorted_listing(r@, self.visits().dom()),
    {
        let planets = self.planets_where(Selection::All);
        proof {
            assert(self.visits().dom() =~= self.visits().dom().filter(
                |p: ID| selects(Selection::All, self.visits()[p]),
            ));
        }
        planets
    }

    /// Human-readable adjacency summary.
    pub fn adjacency_summary(&self) -> (text: String)
        requires
            self.wf(),
        ensures
            exists|entries: Seq<(ID, Seq<ID>)>|
                #[trigger] adjacency_listing(entries, self.links()) && text@ == adjacency_text(entries),
    {
        let planets = self.known_planets();
        let mut entries: Vec<(ID, Vec<ID>)> = Vec::new();
        let mut i: usize = 0;
        while i < planets.len()
            invariant
                i <= planets@.len(),
                sorted_listing(planets@, self.visits().dom()),
                self.wf(),
                entries@.len() == i,
                forall|k: int| #![trigger entries@[k]] 0 <= k < i ==> entries@[k].0 == planets@[k],
                forall|k: int| #![trigger entries@[k]] 0 <= k < i ==> sorted_listing(
                    entries@[k].1@,
                    links_of(self.links(), entries@[k].0),
                ),
            decreases planets@.len() - i,
        {
            let p = planets[i];
            let neighbors = self.known_neighbors(p);
            entries.push((p, neighbors));
            i = i + 1;
        }
        let text = format_adjacency(&entries);
        proof {
            let e = entries.deep_view();
            assert(e.map_values(|x: (ID, Seq<ID>)| x.0) =~= planets@);
            assert forall|k: int| #![trigger e[k]] 0 <= k < e.len() implies sorted_listing(e[k].1, links_of(self.links(), e[k].0)) by {
                assert(e[k].1 == entries@[k].1@);
            }
            assert(adjacency_listing(e, self.links()));
        }
        text
    }

    /// Human-readable visit count summary.
    pub fn visit_counts_summary(&self) -> (text: String)
        requires
            self.wf(),
        ensures
            exists|entries: Seq<(ID, u32)>| #[trigger] counts_listing(entries, self.visits()) && text@ == counts_text(entries),
    {
        let planets = self.known_planets();
        let mut entries: Vec<(ID, u32)> = Vec::new();
        let mut i: usize = 0;
        while i < planets.len()
            invariant
                i <= planets@.len(),
                sorted_listing(planets@, self.visits().dom()),
                entries@.len() == i,
                forall|k: int| #![trigger entries@[k]] 0 <= k < i ==> entries@[k].0 == planets@[k],
                forall|k: int| #![trigger entries@[k]] 0 <= k < i ==> entries@[k].1 == self.visits()[entries@[k].0],
            decreases planets@.len() - i,
        {
            let p = planets[i];
            proof {
                assert(planets@.to_set().contains(planets@[i as int]));
            }
            let count = self.visit_count(p);
            entries.push((p, count));
            i = i + 1;
        }
        let text = format_counts(&entries);
        proof {
            let e = entries.deep_view();
            assert(e =~= entries@);
            assert(e.map_values(|x: (ID, u32)| x.0) =~= planets@);
            assert(counts_listing(e, self.visits()));
        }
        text
    }

    /// Compact summary for logs.
    pub fn log_summary(&self) -> (text: String)
        requires
            self.wf(),
        ensures
            exists|visits_text: Seq<char>, adjacency_line: Seq<char>|
                {
                    &&& (exists|e: Seq<(ID, u32)>| #[trigger] counts_listing(e, self.visits()) && visits_text == counts_text(e))
                    &&& (exists|e: Seq<(ID, Seq<ID>)>| #[trigger] adjacency_listing(e, self.links()) && adjacency_line == adjacency_text(e))
                    &&& text@ == #[trigger] summary_line(
                        self.visits().dom().len(),
                        visited_set(self.visits()).len(),
                        unvisited_set(self.visits()).len(),
                        self.home() as nat,
                        visits_text,
                        adjacency_line,
                    )
                },
    {
        let known = self.known_planet_count();
        let visited = self.visited_planet_count();
        let uncharted = self.unvisited_planet_count();
        let visits = self.visit_counts_summary();
        let adjacency = self.adjacency_summary();
        let text = format_summary(known, visited, uncharted, self.starting_planet, &visits, &adjacency);
        proof {
            assert(self.visits().dom().len() as usize == known);
            assert(visited_set(self.visits()).len() as usize == visited);
            assert(unvisited_set(self.visits()).len() as usize == uncharted);
            assert(text@ == summary_line(
                self.visits().dom().len(),
                visited_set(self.visits()).len(),
                unvisited_set(self.visits()).len(),
                self.home() as nat,
                visits@,
                adjacency@,
            ));
        }
        text
    }
}


/// Connections are symmetric: `a` is a recorded neighbor of `b` exactly
/// when `b` is one of `a`.
pub proof fn lemma_connections_symmetric(visits: Map<ID, u32>, links: Map<ID, Set<ID>>, home: ID, a: ID, b: ID)
    requires
        valid_map(visits, links, home),
    ensures
        links_of(links, a).contains(b) == links_of(links, b).contains(a),
{
    if links_of(links, a).contains(b) {
        assert(links[a].contains(b));
    }
    if links_of(links, b).contains(a) {
        assert(links[b].contains(a));
    }
}

/// Recording the neighbors `ns` of `p` connects `p` with each of them both
/// ways, and keeps every connection recorded before.
pub proof fn lemma_recorded_links_bilateral(links: Map<ID, Set<ID>>, p: ID, ns: Seq<ID>, a: ID, b: ID)
    ensures
        ns.contains(b) ==> links_of(recorded_links(links, p, ns), p).contains(b) && links_of(
            recorded_links(links, p, ns),
            b,
        ).contains(p),
        links_of(links, a).contains(b) ==> links_of(recorded_links(links, p, ns), a).contains(b),
{
    let r = recorded_links(links, p, ns);
    if ns.contains(b) {
        let k = choose|k: int| 0 <= k < ns.len() && ns[k] == b;
        assert(ns.to_set().contains(b));
        assert(r.contains_key(p));
        assert(r.contains_key(b));
    }
    if links_of(links, a).contains(b) {
        assert(r.contains_key(a));
    }
}

/// Recording neighbors keeps every visit count; the planets it adds are
/// unvisited.
pub proof fn lemma_recorded_visits_keep_counts(visits: Map<ID, u32>, p: ID, ns: Seq<ID>, q: ID)
    ensures
        count_of(recorded_visits(visits, p, ns), q) == count_of(visits, q),
        visits.dom().subset_of(recorded_visits(visits, p, ns).dom()),
        (q == p || ns.contains(q)) ==> recorded_visits(visits, p, ns).contains_key(q),
{
}

/// Recording the neighbors `ns` of `p` adds no other connection: after it,
/// `q` is linked to `r` only if it was before, or `q` is `p` and `r` is
/// listed, or `r` is `p` and `q` is listed. Nor does it add a planet other
/// than `p` and the listed ones.
pub proof fn lemma_recorded_links_add_nothing_else(
    visits: Map<ID, u32>,
    links: Map<ID, Set<ID>>,
    p: ID,
    ns: Seq<ID>,
    q: ID,
    r: ID,
)
    ensures
        links_of(recorded_links(links, p, ns), q).contains(r) ==> {
            ||| links_of(links, q).contains(r)
            ||| (q == p && ns.contains(r))
            ||| (r == p && ns.contains(q))
        },
        recorded_visits(visits, p, ns).contains_key(q) ==> visits.contains_key(q) || q == p || ns.contains(q),
        recorded_links(links, p, ns).contains_key(q) ==> links.contains_key(q) || q == p || ns.contains(q),
{
    if links_of(recorded_links(links, p, ns), q).contains(r) && q == p && !links_of(links, q).contains(r) && !(r == p
        && ns.contains(q)) {
        assert(ns.to_set().contains(r));
    }
}

/// Recording the same neighbor list of a planet a second time changes
/// nothing: neither a visit count, nor the known planets, nor a connection.
pub proof fn lemma_record_neighbors_idempotent(visits: Map<ID, u32>, links: Map<ID, Set<ID>>, p: ID, ns: Seq<ID>)
    ensures
        recorded_visits(recorded_visits(visits, p, ns), p, ns) == recorded_visits(visits, p, ns),
        recorded_links(recorded_links(links, p, ns), p, ns) == recorded_links(links, p, ns),
{
    let v1 = recorded_visits(visits, p, ns);
    let v2 = recorded_visits(v1, p, ns);
    assert(v2 =~= v1);
    let l1 = recorded_links(links, p, ns);
    let l2 = recorded_links(l1, p, ns);
    assert forall|q: ID| l1.contains_key(q) implies #[trigger] l2[q] == l1[q] by {
        assert(links_of(l1, q) == l1[q]);
        assert(l2[q] =~= l1[q]);
    }
    assert(l2 =~= l1);
}

/// Every known planet is visited or unvisited, never both, so the two
/// counts add up to the number of known planets.
pub proof fn lemma_visited_unvisited_partition(visits: Map<ID, u32>)
    requires
        visits.dom().finite(),
    ensures
        visited_set(visits).union(unvisited_set(visits)) == visits.dom(),
        visited_set(visits).disjoint(unvisited_set(visits)),
        visited_set(visits).len() + unvisited_set(visits).len() == visits.dom().len(),
{
    let a = visited_set(visits);
    let b = unvisited_set(visits);
    assert(a.union(b) =~= visits.dom());
    assert(a.disjoint(b));
    vstd::set_lib::lemma_set_disjoint_lens(a, b);
}

} // verus!
