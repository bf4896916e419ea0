use hexlife::{ConfigError, Coord, Rule, Type, World, DEFAULT_RADIUS};

fn rule(survival: Vec<u8>, birth: Vec<u8>, states: u8) -> Rule {
    Rule { survival, birth, states }
}

fn index_of(w: &World, c: Coord) -> usize {
    w.cells().iter().position(|(p, _)| *p == c).unwrap()
}

/// A world of the given radius with exactly the listed cells alive.
fn world_with(radius: i32, r: Rule, on: &[Coord]) -> World {
    let blank = World::with_seed(radius, rule(vec![], vec![], 2), &vec![]).unwrap();
    let alive: Vec<bool> = blank.cells().iter().map(|(p, _)| on.contains(p)).collect();
    World::with_seed(radius, r, &alive).unwrap()
}

#[test]
fn cell_count_matches_disc_size() {
    for radius in 1..6 {
        let mut w = World::with_seed(radius, rule(vec![2, 1], vec![2], 3), &vec![true; 40]).unwrap();
        let expected = (3 * radius * radius + 3 * radius + 1) as usize;
        assert_eq!(w.cells().len(), expected);
        for _ in 0..3 {
            w.iterate();
            assert_eq!(w.cells().len(), expected);
        }
    }
}

#[test]
fn cells_are_distinct_and_inside_the_disc() {
    let w = World::with_seed(3, rule(vec![2], vec![2], 3), &vec![]).unwrap();
    let cells = w.cells();
    for (i, (a, _)) in cells.iter().enumerate() {
        assert!(a.x.abs() <= 3 && a.y.abs() <= 3 && (a.x + a.y).abs() <= 3);
        for (b, _) in cells.iter().skip(i + 1) {
            assert_ne!(a, b);
        }
    }
}

#[test]
fn seeding_follows_the_flags() {
    let w = World::with_seed(1, rule(vec![2], vec![2], 4), &vec![true, false, true]).unwrap();
    let cells = w.cells();
    assert_eq!(cells[0].1, Type::On(3));
    assert_eq!(cells[1].1, Type::Off);
    assert_eq!(cells[2].1, Type::On(3));
    for c in cells.iter().skip(3) {
        assert_eq!(c.1, Type::Off);
    }
}

#[test]
fn invalid_radius_is_refused() {
    let r = World::with_seed(0, rule(vec![2], vec![2], 3), &vec![]);
    assert!(matches!(r, Err(ConfigError::InvalidRadius)));
    let r = World::with_seed(-4, rule(vec![2], vec![2], 3), &vec![]);
    assert!(matches!(r, Err(ConfigError::InvalidRadius)));
}

#[test]
fn too_few_states_is_refused() {
    let r = World::with_seed(2, rule(vec![2], vec![2], 1), &vec![]);
    assert!(matches!(r, Err(ConfigError::TooFewStates)));
}

#[test]
fn out_of_range_counts_are_refused() {
    let r = World::with_seed(2, rule(vec![7], vec![2], 3), &vec![]);
    assert!(matches!(r, Err(ConfigError::CountOutOfRange)));
    let r = World::with_seed(2, rule(vec![2], vec![1, 9], 3), &vec![]);
    assert!(matches!(r, Err(ConfigError::CountOutOfRange)));
    let r = World::with_seed(2, rule(vec![6, 0], vec![6], 3), &vec![]);
    assert!(r.is_ok());
}

#[test]
fn default_world_has_radius_twenty() {
    let w = World::new();
    assert_eq!(w.radius, DEFAULT_RADIUS);
    assert_eq!(w.rule.survival, vec![2, 1]);
    assert_eq!(w.rule.birth, vec![2]);
    assert_eq!(w.rule.states, 3);
    let cells = w.cells();
    assert_eq!(cells.len(), 1261);
    assert!(cells.iter().all(|(_, s)| *s == Type::Off || *s == Type::On(2)));
}

#[test]
fn live_count_stays_within_six() {
    let mut w = World::with_seed(3, rule(vec![2, 3], vec![2], 3), &vec![true; 100]).unwrap();
    for _ in 0..4 {
        for i in 0..w.cells().len() {
            assert!(w.live_count(i) <= 6);
        }
        w.iterate();
    }
    let full = World::with_seed(2, rule(vec![2], vec![2], 3), &vec![true; 19]).unwrap();
    for i in 0..19 {
        assert_eq!(full.live_count(i), 6);
    }
}

#[test]
fn radius_one_ring_scenario() {
    let origin = Coord { x: 0, y: 0 };
    let ring: Vec<Coord> = vec![
        Coord { x: 0, y: 1 },
        Coord { x: 1, y: 0 },
        Coord { x: 1, y: -1 },
        Coord { x: 0, y: -1 },
        Coord { x: -1, y: 0 },
        Coord { x: -1, y: 1 },
    ];
    let mut w = world_with(1, rule(vec![2], vec![2], 2), &ring);
    assert_eq!(w.get(origin), Some(Type::Off));
    for c in &ring {
        assert_eq!(w.get(*c), Some(Type::On(1)));
    }
    // On the seven-cell torus every cell borders all six others.
    assert_eq!(w.live_count(index_of(&w, origin)), 6);
    for c in &ring {
        assert_eq!(w.live_count(index_of(&w, *c)), 5);
    }
    w.iterate();
    assert_eq!(w.get(origin), Some(Type::Off));
    for c in &ring {
        assert_eq!(w.get(*c), Some(Type::Off));
    }
}

#[test]
fn wraparound_counts_the_cell_on_the_opposite_edge() {
    let edge = Coord { x: 2, y: 0 };
    let across = Coord { x: -2, y: 2 };
    let w = world_with(2, rule(vec![], vec![1], 3), &[edge]);
    assert_eq!(w.live_count(index_of(&w, across)), 1);
    let inner = Coord { x: 1, y: 0 };
    assert_eq!(w.live_count(index_of(&w, inner)), 1);
    let far = Coord { x: -1, y: 0 };
    assert_eq!(w.live_count(index_of(&w, far)), 0);
}

#[test]
fn pattern_crossing_an_edge_reappears_opposite() {
    let edge = Coord { x: 2, y: 0 };
    let across = Coord { x: -2, y: 2 };
    let mut w = world_with(2, rule(vec![], vec![1], 3), &[edge]);
    w.iterate();
    assert_eq!(w.get(across), Some(Type::On(1)));
    // Seeded fully vital (level two), the edge cell loses one level.
    assert_eq!(w.get(edge), Some(Type::On(1)));
    assert_eq!(w.get(Coord { x: 0, y: 0 }), Some(Type::Off));
}

#[test]
fn every_cell_has_six_distinct_neighbours_after_wrapping() {
    for radius in 1..4 {
        let n = (3 * radius * radius + 3 * radius + 1) as usize;
        let blank = World::with_seed(radius, rule(vec![], vec![], 2), &vec![]).unwrap();
        for i in 0..n {
            let mut alive = vec![false; n];
            alive[i] = true;
            let w = World::with_seed(radius, rule(vec![], vec![], 2), &alive).unwrap();
            let seen: usize = (0..n).map(|j| w.live_count(j) as usize).sum();
            assert_eq!(seen, 6, "cell {:?}", blank.cells()[i].0);
        }
    }
}

#[test]
fn identical_worlds_step_identically() {
    let seed: Vec<bool> = (0..37).map(|i| i % 3 == 0 || i % 5 == 1).collect();
    let mut a = World::with_seed(3, rule(vec![2, 1], vec![2], 3), &seed).unwrap();
    let mut b = World::with_seed(3, rule(vec![2, 1], vec![2], 3), &seed).unwrap();
    for _ in 0..5 {
        a.iterate();
        b.iterate();
        assert_eq!(a.cells(), b.cells());
    }
}

#[test]
fn get_outside_the_disc_is_none() {
    let w = World::with_seed(2, rule(vec![2], vec![2], 3), &vec![true; 19]).unwrap();
    assert_eq!(w.get(Coord { x: 3, y: 0 }), None);
    assert_eq!(w.get(Coord { x: 2, y: 1 }), None);
    assert_eq!(w.get(Coord { x: i32::MAX, y: 0 }), None);
    assert_eq!(w.get(Coord { x: 2, y: -2 }), Some(Type::On(2)));
}

#[test]
fn step_uses_the_previous_generation_only() {
    // Two adjacent live cells, each with one live neighbour: under birth {1}
    // and no survival both decay while their shared neighbours are born.
    let a = Coord { x: 0, y: 0 };
    let b = Coord { x: 1, y: 0 };
    let mut w = world_with(3, rule(vec![], vec![1], 2), &[a, b]);
    w.iterate();
    assert_eq!(w.get(a), Some(Type::Off));
    assert_eq!(w.get(b), Some(Type::Off));
    assert_eq!(w.get(Coord { x: 0, y: 1 }), Some(Type::Off));
    assert_eq!(w.get(Coord { x: 1, y: -1 }), Some(Type::Off));
    assert_eq!(w.get(Coord { x: -1, y: 0 }), Some(Type::On(1)));
    assert_eq!(w.get(Coord { x: 2, y: 0 }), Some(Type::On(1)));
}
