use evogrid::perception::{DecisionFactor, Direction, factor_le, sort_factors};
use evogrid::policy::Decision;
use evogrid::tree::DecisionMakingTree;
use evogrid::world::{Animal, EnvironmentTag, make_challenge, make_danger, make_shelter};

fn test_animal(pos: (i32, i32)) -> Animal {
    Animal {
        alive: true,
        hp: 10,
        ability: 5,
        lifetime: 0,
        position: pos,
        view_distance: 5,
        next_decision: Decision::Wait,
    }
}

#[test]
fn factors_of_a_small_scene() {
    let t = DecisionMakingTree::new();
    let a = test_animal((2, 2));
    let ve = vec![make_challenge((2, 3)), make_shelter((2, 2))];
    let key = t.calculate_decision_factors(&a, &ve);
    assert_eq!(
        key,
        vec![
            DecisionFactor::DistanceDirection(1, Direction::Right, EnvironmentTag::CHALLENGE),
            DecisionFactor::CurrentLocation(EnvironmentTag::SHELTER),
            DecisionFactor::CurrentHp(10),
        ]
    );
}

#[test]
fn equal_observations_give_an_identical_key_whatever_the_order() {
    let t = DecisionMakingTree::new();
    let a = test_animal((2, 2));
    let e1 = make_challenge((2, 3));
    let e2 = make_shelter((2, 2));
    let e3 = make_danger((4, 2));
    let k1 = t.calculate_decision_factors(&a, &vec![e1.clone(), e2.clone(), e3.clone()]);
    let k2 = t.calculate_decision_factors(&a, &vec![e3, e1, e2]);
    assert_eq!(k1, k2);
}

#[test]
fn dominant_axis_direction_resolution() {
    let t = DecisionMakingTree::new();
    let a = test_animal((2, 2));
    // strictly larger vertical delta: up or down by the sign
    let up = t.calculate_decision_factors(&a, &vec![make_danger((5, 2))]);
    assert_eq!(
        up[0],
        DecisionFactor::DistanceDirection(3, Direction::Up, EnvironmentTag::DANGER)
    );
    let down = t.calculate_decision_factors(&a, &vec![make_danger((0, 2))]);
    assert_eq!(
        down[0],
        DecisionFactor::DistanceDirection(2, Direction::Down, EnvironmentTag::DANGER)
    );
    // otherwise horizontal, by the sign; ties go horizontal
    let left = t.calculate_decision_factors(&a, &vec![make_danger((2, 0))]);
    assert_eq!(
        left[0],
        DecisionFactor::DistanceDirection(2, Direction::Left, EnvironmentTag::DANGER)
    );
    let tie = t.calculate_decision_factors(&a, &vec![make_danger((4, 4))]);
    assert_eq!(
        tie[0],
        DecisionFactor::DistanceDirection(4, Direction::Right, EnvironmentTag::DANGER)
    );
}

#[test]
fn sorting_orders_factors_canonically() {
    let unsorted = vec![
        DecisionFactor::CurrentHp(3),
        DecisionFactor::CurrentLocation(EnvironmentTag::DANGER),
        DecisionFactor::DistanceDirection(2, Direction::Up, EnvironmentTag::SHELTER),
        DecisionFactor::DistanceDirection(1, Direction::Left, EnvironmentTag::DANGER),
    ];
    let sorted = sort_factors(unsorted);
    assert_eq!(
        sorted,
        vec![
            DecisionFactor::DistanceDirection(1, Direction::Left, EnvironmentTag::DANGER),
            DecisionFactor::DistanceDirection(2, Direction::Up, EnvironmentTag::SHELTER),
            DecisionFactor::CurrentLocation(EnvironmentTag::DANGER),
            DecisionFactor::CurrentHp(3),
        ]
    );
}

#[test]
fn factor_order_is_total_on_samples() {
    let xs = vec![
        DecisionFactor::DistanceDirection(1, Direction::Up, EnvironmentTag::DANGER),
        DecisionFactor::DistanceDirection(1, Direction::Down, EnvironmentTag::DANGER),
        DecisionFactor::CurrentLocation(EnvironmentTag::CHALLENGE),
        DecisionFactor::CurrentHp(-3),
        DecisionFactor::CurrentHp(7),
    ];
    for x in &xs {
        assert!(factor_le(x, x));
        for y in &xs {
            assert!(factor_le(x, y) || factor_le(y, x));
            if factor_le(x, y) && factor_le(y, x) {
                assert_eq!(x, y);
            }
        }
    }
}
