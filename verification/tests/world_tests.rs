use evogrid::policy::Decision;
use evogrid::world::{
    Animal, Environment, EnvironmentTag, Tickable, distance, find_environments,
    garbage_collection, generate_map, make_challenge, make_danger, make_shelter,
    place_cell_object,
};

fn test_animal(pos: (i32, i32)) -> Animal {
    Animal {
        alive: true,
        hp: 10,
        ability: 5,
        lifetime: 0,
        position: pos,
        view_distance: 5,
        next_decision: Decision::Wait,
    }
}

#[test]
fn movement_clamps_into_the_grid() {
    let mut a = test_animal((0, 0));
    a.move_inc((-5, -7), 5, 5);
    assert_eq!(a.position, (0, 0));
    a.move_inc((1, 2), 5, 5);
    assert_eq!(a.position, (1, 2));
    a.move_inc((100, 100), 5, 5);
    assert_eq!(a.position, (4, 4));
}

#[test]
fn movement_clamps_for_increments_larger_than_any_grid() {
    let mut a = test_animal((2, 2));
    a.move_inc((i32::MAX, i32::MIN), 5, 5);
    assert_eq!(a.position, (4, 0));
    let mut b = test_animal((2, 2));
    b.move_inc((i32::MIN, i32::MAX), 5, 5);
    assert_eq!(b.position, (0, 4));
}

#[test]
fn garbage_collection_removes_exactly_the_dead_in_order() {
    let mut e1 = make_shelter((1, 1));
    let e2 = make_challenge((2, 2));
    let mut e3 = make_danger((3, 3));
    let e4 = make_shelter((4, 4));
    e1.alive = false;
    e3.alive = false;
    let ve = vec![e1, e2.clone(), e3, e4.clone()];
    let swept = garbage_collection(ve);
    assert_eq!(swept.len(), 2);
    assert_eq!(swept[0], e2);
    assert_eq!(swept[1], e4);
}

#[test]
fn garbage_collection_keeps_everything_alive() {
    let ve = vec![make_shelter((1, 1)), make_challenge((2, 2))];
    let swept = garbage_collection(ve.clone());
    assert_eq!(swept, ve);
}

#[test]
fn garbage_collection_of_an_empty_world() {
    let swept = garbage_collection(Vec::new());
    assert!(swept.is_empty());
}

#[test]
fn manhattan_distance() {
    let a = test_animal((3, 4));
    let e = make_shelter((1, 1));
    assert_eq!(distance(&e, &a), 5);
    let e2 = make_shelter((3, 4));
    assert_eq!(distance(&e2, &a), 0);
}

#[test]
fn visibility_filters_by_view_radius() {
    let a = test_animal((0, 0));
    let near = make_shelter((2, 3));
    let edge = make_challenge((5, 0));
    let far = make_danger((4, 4));
    let ve = vec![near.clone(), edge.clone(), far];
    let seen = find_environments(&a, &ve);
    assert_eq!(seen.len(), 2);
    assert_eq!(seen[0], near);
    assert_eq!(seen[1], edge);
}

#[test]
fn consume_kills_at_zero_and_dead_stays_dead() {
    let mut a = test_animal((0, 0));
    a.consume(10);
    assert!(!a.alive);
    assert_eq!(a.hp, 0);
    a.consume(-5);
    assert_eq!(a.hp, 0, "a dead agent is terminal");
    let mut e = make_challenge((0, 0));
    e.consume(1);
    assert!(!e.alive);
    let hp = e.hp;
    e.consume(3);
    assert_eq!(e.hp, hp);
}

#[test]
fn tick_decays_and_ends_a_life() {
    let mut a = test_animal((0, 0));
    a.hp = 2;
    a.tick();
    assert!(a.alive);
    assert_eq!(a.hp, 1);
    assert_eq!(a.lifetime, 1);
    a.tick();
    assert!(!a.alive);
    assert_eq!(a.hp, 0);
    assert_eq!(a.lifetime, 2);
    a.tick();
    assert_eq!(a.lifetime, 2, "a dead agent no longer ticks");
}

#[test]
fn spwan_copies_the_template_onto_the_cell() {
    let template = test_animal((9, 9));
    let a = Animal::spwan(&template, (1, 2));
    assert!(a.alive);
    assert_eq!(a.position, (1, 2));
    assert_eq!(a.lifetime, 0);
    assert_eq!(a.hp, template.hp);
    let es = make_shelter((0, 0));
    let e = Environment::spwan(&es, (3, 4));
    assert!(e.alive);
    assert_eq!(e.position, (3, 4));
    assert_eq!(e.tag, EnvironmentTag::SHELTER);
}

#[test]
fn generated_maps_are_reproducible_from_the_seed() {
    let mut rng1 = oorandom::Rand32::new(64);
    let mut rng2 = oorandom::Rand32::new(64);
    let (ve1, va1, _) = generate_map(50, 50, &mut rng1);
    let (ve2, va2, _) = generate_map(50, 50, &mut rng2);
    assert_eq!(ve1, ve2);
    assert_eq!(va1, va2);
}

#[test]
fn generated_objects_sit_on_interior_cells() {
    let mut rng = oorandom::Rand32::new(64);
    let (ve, va, _) = generate_map(10, 10, &mut rng);
    for e in &ve {
        assert!(e.position.0 >= 1 && e.position.0 < 10);
        assert!(e.position.1 >= 1 && e.position.1 < 10);
        assert!(e.alive);
    }
    assert_eq!(va.len(), 1);
    assert_eq!(va[0].position, (5, 5));
    assert_eq!(va[0].hp, 10);
    assert_eq!(va[0].ability, 5);
}

#[test]
fn pixel_centers_of_grid_cells() {
    let a = test_animal((0, 0));
    assert_eq!(a.get_center_pixel_pos(), (5, 5));
    let e = make_shelter((49, 49));
    assert_eq!(e.get_center_pixel_pos(), (495, 495));
}

#[test]
fn roll_bands_place_the_dictated_template() {
    let pos = (3, 4);
    for roll in 0..20u32 {
        let placed = place_cell_object(roll, pos);
        if roll >= 10 {
            assert_eq!(placed, Some(make_shelter(pos)));
        } else if roll >= 8 {
            assert_eq!(placed, Some(make_challenge(pos)));
        } else if roll >= 6 {
            assert_eq!(placed, Some(make_danger(pos)));
        } else {
            assert_eq!(placed, None);
        }
    }
}

#[test]
fn generated_maps_hold_at_most_one_object_per_cell() {
    let mut rng = oorandom::Rand32::new(64);
    let (ve, _, _) = generate_map(20, 20, &mut rng);
    for a in 0..ve.len() {
        for b in a + 1..ve.len() {
            assert_ne!(ve[a].position, ve[b].position);
        }
    }
}
