use solar_sonar::star_map::{StarMap, StarNavigator, StarSystem};

fn sys(id: u32, name: &str, gates: &[u32]) -> StarSystem {
    StarSystem { id, name: name.to_string(), gates: gates.to_vec() }
}

fn chain() -> StarMap {
    // 1 - 2 - 3 - 4 - 5, and 2 - 6
    StarMap {
        systems: vec![
            sys(1, "ALPHA", &[2]),
            sys(2, "BETA", &[1, 3, 6]),
            sys(3, "GAMMA", &[2, 4]),
            sys(4, "DELTA", &[3, 5]),
            sys(5, "EPSILON", &[4]),
            sys(6, "ZETA", &[2]),
        ],
    }
}

fn ids(v: &[&StarSystem]) -> Vec<u32> {
    v.iter().map(|s| s.id).collect()
}

#[test]
fn finds_systems_by_id_and_name() {
    let map = chain();
    assert_eq!(map.get_system(3).map(|s| s.name.as_str()), Some("GAMMA"));
    assert!(map.get_system(9).is_none());
    assert_eq!(map.get_system_named("ZETA").map(|s| s.id), Some(6));
    assert!(map.get_system_named("zeta").is_none());
    assert_eq!(ids(&map.systems(vec![5, 1])), vec![5, 1]);
}

#[test]
fn range_of_zero_one_and_two_jumps() {
    let map = chain();
    let nav = StarNavigator::new(&map);
    let from = map.system(&1);
    assert!(nav.systems_in_range(0, from).is_empty());
    assert_eq!(ids(&nav.systems_in_range(1, from)), vec![2]);
    assert_eq!(ids(&nav.systems_in_range(2, from)), vec![2, 1, 3, 6]);
}

#[test]
fn range_is_reachable_within_jumps() {
    // every reported system is within the jumps of the start
    let map = chain();
    let nav = StarNavigator::new(&map);
    let from = map.system(&3);
    let found = ids(&nav.systems_in_range(2, from));
    let within_two = [1u32, 2, 3, 4, 5, 6];
    for id in &found {
        assert!(within_two.contains(id));
    }
    assert!(found.starts_with(&[2, 4]));
    assert!(!found.is_empty());
}

#[test]
fn range_search_covers_two_jumps_but_not_every_longer_route() {
    // S=1 -> B=2, C=3; B -> P=4; P -> Q=5; C -> Q; Q -> R=6
    let map = StarMap {
        systems: vec![
            sys(1, "S", &[2, 3]),
            sys(2, "B", &[4]),
            sys(3, "C", &[5]),
            sys(4, "P", &[5]),
            sys(5, "Q", &[6]),
            sys(6, "R", &[]),
        ],
    };
    let nav = StarNavigator::new(&map);
    let from = map.system(&1);
    let two = ids(&nav.systems_in_range(2, from));
    for id in [2u32, 3, 4, 5] {
        assert!(two.contains(&id));
    }
    // R is three jumps away (S -> C -> Q -> R), but Q was first met at its third
    // jump through B and P, so the search does not go on from it.
    assert_eq!(ids(&nav.systems_in_range(3, from)), vec![2, 3, 4, 5]);
}

#[test]
fn closed_maps_lead_nowhere_else() {
    assert!(chain().is_closed());
    let open = StarMap { systems: vec![sys(1, "ALPHA", &[2]), sys(2, "BETA", &[1, 9])] };
    assert!(!open.is_closed());
    assert!(StarMap { systems: vec![] }.is_closed());
}

#[test]
fn range_lists_each_system_once() {
    let map = chain();
    let nav = StarNavigator::new(&map);
    for jumps in 0..6u8 {
        let found = ids(&nav.systems_in_range(jumps, map.system(&3)));
        let mut sorted = found.clone();
        sorted.sort();
        sorted.dedup();
        assert_eq!(sorted.len(), found.len());
    }
}
