use jebediah_explorer::explorer::mapping::GalaxyMap;

#[test]
fn new_map_has_starting_planet_visited_once() {
    let map = GalaxyMap::new(1);

    assert_eq!(map.visit_count(1), 1);
    assert_eq!(map.visited_planet_count(), 1);
    assert_eq!(map.known_planet_count(), 1);
    assert!(map.is_visited(1));
}

#[test]
fn recording_neighbors_adds_them_as_unvisited() {
    let mut map = GalaxyMap::new(1);

    map.record_neighbors(1, vec![2, 3, 4]);

    assert_eq!(map.known_planet_count(), 4);
    assert_eq!(map.visit_count(2), 0);
    assert_eq!(map.visit_count(3), 0);
    assert_eq!(map.visit_count(4), 0);

    assert!(!map.is_visited(2));
    assert!(!map.is_visited(3));
    assert!(!map.is_visited(4));
}

#[test]
fn recording_neighbors_stores_connections_bilaterally() {
    let mut map = GalaxyMap::new(1);

    map.record_neighbors(1, vec![2, 3]);

    assert!(map.are_connected(1, 2));
    assert!(map.are_connected(2, 1));

    assert!(map.are_connected(1, 3));
    assert!(map.are_connected(3, 1));
}

#[test]
fn known_neighbors_are_sorted() {
    let mut map = GalaxyMap::new(1);

    map.record_neighbors(1, vec![4, 2, 3]);

    assert_eq!(map.known_neighbors(1), vec![2, 3, 4]);
}

#[test]
fn unvisited_iterator_skips_visited_planets() {
    let mut map = GalaxyMap::new(1);

    map.record_neighbors(1, vec![2, 3, 4]);
    map.visit(2);

    let unvisited: Vec<u32> = map.unvisited().into_iter().collect();

    assert!(!unvisited.contains(&1));
    assert!(!unvisited.contains(&2));
    assert!(unvisited.contains(&3));
    assert!(unvisited.contains(&4));
}

#[test]
fn visit_increments_count() {
    let mut map = GalaxyMap::new(5);

    map.visit(5);
    map.visit(5);

    assert_eq!(map.visit_count(5), 3);
}

#[test]
fn all_known_planets_visited_returns_true_only_when_no_uncharted_planets_exist() {
    let mut map = GalaxyMap::new(1);

    assert!(map.all_known_planets_visited());

    map.record_neighbors(1, vec![2]);

    assert!(!map.all_known_planets_visited());

    map.visit(2);

    assert!(map.all_known_planets_visited());
}

#[test]
fn visited_planets_are_sorted() {
    let mut map = GalaxyMap::new(3);

    map.record_neighbors(3, vec![5, 1]);
    map.visit(5);
    map.visit(1);

    assert_eq!(map.visited_planets(), vec![1, 3, 5]);
}

#[test]
fn unvisited_planets_are_sorted() {
    let mut map = GalaxyMap::new(3);

    map.record_neighbors(3, vec![5, 1, 2]);
    map.visit(1);

    assert_eq!(map.unvisited_planets(), vec![2, 5]);
}

#[test]
fn visiting_an_unknown_planet_makes_it_known_and_visited() {
    let mut map = GalaxyMap::new(1);

    assert!(!map.knows_planet(9));
    map.visit(9);

    assert!(map.knows_planet(9));
    assert_eq!(map.visit_count(9), 1);
    assert_eq!(map.known_neighbors(9), Vec::<u32>::new());
    assert!(!map.are_connected(1, 9));
}

#[test]
fn unknown_planets_have_no_visits_and_no_neighbors() {
    let map = GalaxyMap::new(1);

    assert_eq!(map.visit_count(42), 0);
    assert!(!map.knows_planet(42));
    assert!(!map.is_visited(42));
    assert!(map.known_neighbors(42).is_empty());
    assert!(!map.are_connected(42, 1));
}

#[test]
fn recording_neighbors_keeps_earlier_visits_and_links() {
    let mut map = GalaxyMap::new(1);
    map.record_neighbors(1, vec![2]);
    map.visit(2);
    map.visit(2);

    map.record_neighbors(2, vec![1, 3]);

    assert_eq!(map.visit_count(1), 1);
    assert_eq!(map.visit_count(2), 2);
    assert_eq!(map.visit_count(3), 0);
    assert_eq!(map.known_neighbors(2), vec![1, 3]);
    assert_eq!(map.known_neighbors(1), vec![2]);
    assert_eq!(map.known_neighbors(3), vec![2]);
    assert_eq!(map.known_planets(), vec![1, 2, 3]);
}

#[test]
fn duplicate_neighbors_are_stored_once() {
    let mut map = GalaxyMap::new(1);

    map.record_neighbors(1, vec![2, 2, 2]);

    assert_eq!(map.known_neighbors(1), vec![2]);
    assert_eq!(map.known_planet_count(), 2);
}

#[test]
fn a_planet_listed_as_its_own_neighbor_links_to_itself() {
    let mut map = GalaxyMap::new(1);

    map.record_neighbors(1, vec![1, 2]);

    assert!(map.are_connected(1, 1));
    assert_eq!(map.known_neighbors(1), vec![1, 2]);
}

#[test]
fn counts_of_visited_and_unvisited_planets_add_up() {
    let mut map = GalaxyMap::new(4);
    map.record_neighbors(4, vec![1, 2, 3]);
    map.visit(3);

    assert_eq!(map.visited_planet_count(), 2);
    assert_eq!(map.unvisited_planet_count(), 2);
    assert_eq!(
        map.visited_planet_count() + map.unvisited_planet_count(),
        map.known_planet_count()
    );
}

#[test]
fn summaries_list_planets_in_order() {
    let mut map = GalaxyMap::new(3);
    map.record_neighbors(3, vec![5, 1]);

    assert_eq!(map.visit_counts_summary(), "[(1, 0), (3, 1), (5, 0)]");
    assert_eq!(map.adjacency_summary(), "[(1, [3]), (3, [1, 5]), (5, [3])]");
    assert_eq!(
        map.log_summary(),
        "known=3 visited=1 uncharted=2 home=3 visits=[(1, 0), (3, 1), (5, 0)] adjacency=[(1, [3]), (3, [1, 5]), (5, [3])]"
    );
}

#[test]
fn recording_the_same_neighbors_twice_changes_nothing() {
    let mut once = GalaxyMap::new(2);
    once.record_neighbors(2, vec![7, 3, 7]);
    let mut twice = GalaxyMap::new(2);
    twice.record_neighbors(2, vec![7, 3, 7]);
    twice.record_neighbors(2, vec![7, 3, 7]);

    assert_eq!(twice.known_planets(), once.known_planets());
    for planet in [2, 3, 7] {
        assert_eq!(twice.visit_count(planet), once.visit_count(planet));
        assert_eq!(twice.known_neighbors(planet), once.known_neighbors(planet));
    }
    assert_eq!(twice.log_summary(), once.log_summary());
}

#[test]
fn the_log_summary_writes_numbers_in_decimal() {
    let mut map = GalaxyMap::new(305);
    map.record_neighbors(305, vec![12]);

    assert_eq!(
        map.log_summary(),
        "known=2 visited=1 uncharted=1 home=305 visits=[(12, 0), (305, 1)] adjacency=[(12, [305]), (305, [12])]"
    );
}
