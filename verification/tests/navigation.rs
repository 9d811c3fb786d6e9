use jebediah_explorer::explorer::mapping::GalaxyMap;
use jebediah_explorer::explorer::navigation::pick_destination;

#[test]
fn picks_unvisited_neighbor_first() {
    let mut map = GalaxyMap::new(1);
    map.record_neighbors(1, vec![2, 3]);

    let destination = pick_destination(1, &map);

    assert_eq!(destination, Some(2));
}

#[test]
fn picks_nearest_unvisited_through_known_path() {
    let mut map = GalaxyMap::new(1);

    map.record_neighbors(1, vec![2]);
    map.visit(2);

    map.record_neighbors(2, vec![1, 3]);
    map.visit(3);

    map.record_neighbors(3, vec![2, 4]);

    let destination = pick_destination(1, &map);

    assert_eq!(destination, Some(2));
}

#[test]
fn picks_least_visited_neighbor_when_everything_is_visited() {
    let mut map = GalaxyMap::new(1);

    map.record_neighbors(1, vec![2, 3]);

    map.visit(2);
    map.visit(2);

    map.visit(3);

    let destination = pick_destination(1, &map);

    assert_eq!(destination, Some(3));
}

#[test]
fn returns_none_when_no_neighbors_are_known() {
    let map = GalaxyMap::new(1);

    let destination = pick_destination(1, &map);

    assert_eq!(destination, None);
}

#[test]
fn chooses_stable_lowest_id_when_unvisited_neighbors_tie() {
    let mut map = GalaxyMap::new(1);

    map.record_neighbors(1, vec![4, 2, 3]);

    let destination = pick_destination(1, &map);

    assert_eq!(destination, Some(2));
}

#[test]
fn the_hop_is_the_first_step_of_a_longer_known_path() {
    // 1 - 2 - 3 - 4, all visited but 4: from 1 the next hop is 2.
    let mut map = GalaxyMap::new(1);
    map.record_neighbors(1, vec![2]);
    map.visit(2);
    map.record_neighbors(2, vec![3]);
    map.visit(3);
    map.record_neighbors(3, vec![4]);

    assert_eq!(pick_destination(1, &map), Some(2));
    assert_eq!(pick_destination(2, &map), Some(3));
    assert_eq!(pick_destination(3, &map), Some(4));
}

#[test]
fn prefers_the_shorter_path_over_the_lower_identifier() {
    // 1 - 2 - 5 - 6 - 9 and 1 - 7 - 9 where only 9 is unvisited: through 7 is shorter.
    let mut map = GalaxyMap::new(1);
    map.record_neighbors(1, vec![2, 7]);
    map.visit(2);
    map.visit(7);
    map.record_neighbors(2, vec![5]);
    map.visit(5);
    map.record_neighbors(5, vec![6]);
    map.visit(6);
    map.record_neighbors(6, vec![9]);
    map.record_neighbors(7, vec![9]);

    assert_eq!(pick_destination(1, &map), Some(7));
}

#[test]
fn on_equal_distance_the_lowest_first_hop_wins() {
    // 1 - 3 - 8 and 1 - 2 - 9, with 8 and 9 unvisited: both two hops away, 2 < 3.
    let mut map = GalaxyMap::new(1);
    map.record_neighbors(1, vec![3, 2]);
    map.visit(2);
    map.visit(3);
    map.record_neighbors(3, vec![8]);
    map.record_neighbors(2, vec![9]);

    assert_eq!(pick_destination(1, &map), Some(2));
}

#[test]
fn unreachable_unvisited_planets_do_not_steer_the_choice() {
    // 1 - 2 visited; 5 - 6 known from another part of the map, 6 unvisited but
    // not connected to 1: fall back on the least visited neighbor.
    let mut map = GalaxyMap::new(1);
    map.record_neighbors(1, vec![2]);
    map.visit(2);
    map.visit(5);
    map.record_neighbors(5, vec![6]);

    assert_eq!(pick_destination(1, &map), Some(2));
}

#[test]
fn least_visited_tie_goes_to_the_lowest_identifier() {
    let mut map = GalaxyMap::new(1);
    map.record_neighbors(1, vec![4, 3]);
    map.visit(4);
    map.visit(3);

    assert_eq!(pick_destination(1, &map), Some(3));
}
