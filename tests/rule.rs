use hexlife::{Rule, Type};

fn rule(survival: Vec<u8>, birth: Vec<u8>, states: u8) -> Rule {
    Rule { survival, birth, states }
}

#[test]
fn decay_steps_down_one_level() {
    let r = rule(vec![2], vec![3], 4);
    assert_eq!(r.apply(Type::On(3), 0), Type::On(2));
    assert_eq!(r.apply(Type::On(2), 5), Type::On(1));
}

#[test]
fn decay_from_level_one_goes_dormant() {
    let r = rule(vec![2], vec![3], 3);
    assert_eq!(r.apply(Type::On(1), 4), Type::Off);
}

#[test]
fn survival_raises_vitality_to_the_cap() {
    let r = rule(vec![2, 1], vec![2], 3);
    assert_eq!(r.apply(Type::On(1), 2), Type::On(2));
    assert_eq!(r.apply(Type::On(2), 1), Type::On(2));
}

#[test]
fn survival_with_two_states_stays_at_one() {
    let r = rule(vec![2], vec![2], 2);
    assert_eq!(r.apply(Type::On(1), 2), Type::On(1));
}

#[test]
fn birth_starts_at_level_one() {
    let r = rule(vec![2], vec![2, 3], 5);
    assert_eq!(r.apply(Type::Off, 3), Type::On(1));
    assert_eq!(r.apply(Type::Off, 2), Type::On(1));
}

#[test]
fn dormant_cell_without_birth_stays_dormant() {
    let r = rule(vec![2], vec![2], 3);
    assert_eq!(r.apply(Type::Off, 6), Type::Off);
    assert_eq!(r.apply(Type::Off, 0), Type::Off);
}
