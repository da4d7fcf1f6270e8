use evogrid::policy::{Decision, DecisionMaker};

fn weight(m: &DecisionMaker, d: Decision) -> u32 {
    match d {
        Decision::MoveUp => m.move_up,
        Decision::MoveDown => m.move_down,
        Decision::MoveLeft => m.move_left,
        Decision::MoveRight => m.move_right,
        Decision::Interact => m.interact,
        Decision::Build => m.build,
        Decision::Wait => m.wait,
    }
}

const ALL: [Decision; 7] = [
    Decision::MoveUp,
    Decision::MoveDown,
    Decision::MoveLeft,
    Decision::MoveRight,
    Decision::Interact,
    Decision::Build,
    Decision::Wait,
];

#[test]
fn default_weights() {
    let m = DecisionMaker::default();
    assert_eq!(m.move_up, 2);
    assert_eq!(m.move_down, 2);
    assert_eq!(m.move_left, 2);
    assert_eq!(m.move_right, 2);
    assert_eq!(m.interact, 2);
    assert_eq!(m.build, 0);
    assert_eq!(m.wait, 10);
    assert_eq!(m.total_weight(), 20);
}

#[test]
fn sampling_is_deterministic_for_a_fixed_stream() {
    let m = DecisionMaker::default();
    let mut rng1 = oorandom::Rand32::new(64);
    let mut rng2 = oorandom::Rand32::new(64);
    for _ in 0..1000 {
        let d1 = m.make_decision(&mut rng1);
        let d2 = m.make_decision(&mut rng2);
        assert_eq!(d1, d2);
    }
}

#[test]
fn sample_with_is_a_function_of_weights_and_draw() {
    let m = DecisionMaker {
        move_up: 2,
        move_down: 0,
        move_left: 0,
        move_right: 0,
        interact: 0,
        build: 0,
        wait: 10,
    };
    for draw in 0..12u64 {
        assert_eq!(m.sample_with(draw), m.sample_with(draw));
    }
}

#[test]
fn sample_bands_follow_cumulative_weights() {
    // weights {MoveUp: 2, Wait: 10}: a draw picks the first action whose
    // cumulative weight reaches it, so draws 0..=2 pick MoveUp and 3..=11
    // pick Wait.
    let m = DecisionMaker {
        move_up: 2,
        move_down: 0,
        move_left: 0,
        move_right: 0,
        interact: 0,
        build: 0,
        wait: 10,
    };
    let mut up = 0;
    let mut wait = 0;
    for draw in 0..12u64 {
        match m.sample_with(draw) {
            Decision::MoveUp => up += 1,
            Decision::Wait => wait += 1,
            other => panic!("unexpected action {:?}", other),
        }
    }
    assert_eq!(up, 3);
    assert_eq!(wait, 9);
}

#[test]
fn zero_total_weight_falls_back_to_wait() {
    let m = DecisionMaker {
        move_up: 0,
        move_down: 0,
        move_left: 0,
        move_right: 0,
        interact: 0,
        build: 0,
        wait: 0,
    };
    let mut rng = oorandom::Rand32::new(7);
    for _ in 0..20 {
        assert_eq!(m.make_decision(&mut rng), Decision::Wait);
    }
}

#[test]
fn decrease_clamps_at_zero() {
    for d in ALL {
        let mut m = DecisionMaker::default();
        m.decrease_chance(d, u32::MAX);
        assert_eq!(weight(&m, d), 0);
        for other in ALL {
            if other != d {
                assert_eq!(weight(&m, other), weight(&DecisionMaker::default(), other));
            }
        }
    }
}

#[test]
fn decrease_to_exactly_zero() {
    let mut m = DecisionMaker::default();
    m.decrease_chance(Decision::Wait, 10);
    assert_eq!(m.wait, 0);
}

#[test]
fn increase_caps_at_max() {
    let mut m = DecisionMaker::default();
    m.move_up = u32::MAX - 1;
    m.increase_chance(Decision::MoveUp, 5);
    assert_eq!(m.move_up, u32::MAX);
}

#[test]
fn mutate_changes_every_weight_by_exactly_the_magnitude() {
    let mut rng = oorandom::Rand32::new(99);
    for _ in 0..50 {
        let mut m = DecisionMaker {
            move_up: 10,
            move_down: 10,
            move_left: 10,
            move_right: 10,
            interact: 10,
            build: 10,
            wait: 10,
        };
        m.mutate_chance(3, &mut rng);
        for d in ALL {
            let w = weight(&m, d);
            assert!(w == 13 || w == 7, "weight {} moved by something else than 3", w);
        }
    }
}

#[test]
fn mutate_clamps_decreases_at_zero() {
    let mut rng = oorandom::Rand32::new(5);
    for _ in 0..50 {
        let mut m = DecisionMaker {
            move_up: 1,
            move_down: 1,
            move_left: 1,
            move_right: 1,
            interact: 1,
            build: 1,
            wait: 1,
        };
        m.mutate_chance(3, &mut rng);
        for d in ALL {
            let w = weight(&m, d);
            assert!(w == 4 || w == 0);
        }
    }
}
