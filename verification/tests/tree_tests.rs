use evogrid::policy::{Decision, DecisionMaker};
use evogrid::perception::DecisionFactor;
use evogrid::tree::DecisionMakingTree;
use evogrid::world::EnvironmentTag;

fn key_a() -> Vec<DecisionFactor> {
    vec![DecisionFactor::CurrentHp(5)]
}

fn key_b() -> Vec<DecisionFactor> {
    vec![
        DecisionFactor::CurrentLocation(EnvironmentTag::SHELTER),
        DecisionFactor::CurrentHp(9),
    ]
}

#[test]
fn get_or_create_inserts_a_default_once() {
    let mut t = DecisionMakingTree::new();
    let m1 = t.get_decision_maker(key_a());
    assert_eq!(t.decision_chain.len(), 1);
    let m2 = t.get_decision_maker(key_a());
    assert_eq!(t.decision_chain.len(), 1);
    assert_eq!(m1, DecisionMaker::default());
    assert_eq!(m1, m2);
}

#[test]
fn updates_through_the_table_are_seen_by_both_lookups() {
    // getOrCreate twice yields the same underlying entry: a reinforcement
    // applied through the table is visible to a later lookup of either
    // caller's key copy.
    let mut t = DecisionMakingTree::new();
    let _ = t.get_decision_maker(key_a());
    t.decision_history.push((0u128, key_a(), Decision::MoveUp));
    let r = t.reward(2);
    let seen1 = r.lookup(&key_a()).unwrap();
    let seen2 = r.lookup(&key_a()).unwrap();
    assert_eq!(seen1, seen2);
    assert_eq!(seen1.move_up, DecisionMaker::default().move_up + 2);
}

#[test]
fn reward_reinforces_exactly_the_logged_pairs() {
    let mut t = DecisionMakingTree::new();
    let _ = t.get_decision_maker(key_a());
    let _ = t.get_decision_maker(key_b());
    t.decision_history.push((0u128, key_a(), Decision::MoveUp));
    t.decision_history.push((1u128, key_a(), Decision::Wait));
    t.decision_history.push((2u128, key_a(), Decision::MoveUp));
    let r = t.reward(3);
    let ma = r.lookup(&key_a()).unwrap();
    let mb = r.lookup(&key_b()).unwrap();
    let d = DecisionMaker::default();
    // logged pairs grow once per occurrence
    assert_eq!(ma.move_up, d.move_up + 6);
    assert_eq!(ma.wait, d.wait + 3);
    // unlogged weights of the logged key are untouched
    assert_eq!(ma.move_down, d.move_down);
    assert_eq!(ma.build, d.build);
    // a key never logged is untouched entirely
    assert_eq!(mb, d);
    // the log carries over to the rewarded copy
    assert_eq!(r.decision_history.len(), 3);
}

#[test]
fn reward_with_zero_delta_changes_nothing() {
    let mut t = DecisionMakingTree::new();
    let _ = t.get_decision_maker(key_a());
    t.decision_history.push((0u128, key_a(), Decision::Interact));
    let r = t.reward(0);
    assert_eq!(r.lookup(&key_a()).unwrap(), DecisionMaker::default());
}

#[test]
fn mutate_and_reward_never_touch_the_receiver() {
    let mut t = DecisionMakingTree::new();
    let _ = t.get_decision_maker(key_a());
    t.decision_history.push((0u128, key_a(), Decision::MoveUp));
    let before = t.lookup(&key_a()).unwrap();
    let hist_before = t.decision_history.len();
    let mut rng = oorandom::Rand32::new(1);
    let _mutated = t.mutate(5, &mut rng);
    let _rewarded = t.reward(4);
    assert_eq!(t.lookup(&key_a()).unwrap(), before);
    assert_eq!(t.decision_history.len(), hist_before);
    assert_eq!(t.decision_chain.len(), 1);
}

#[test]
fn mutate_keeps_keys_and_starts_a_fresh_log() {
    let mut t = DecisionMakingTree::new();
    let _ = t.get_decision_maker(key_a());
    let _ = t.get_decision_maker(key_b());
    t.decision_history.push((0u128, key_a(), Decision::MoveUp));
    let mut rng = oorandom::Rand32::new(3);
    let m = t.mutate(2, &mut rng);
    assert_eq!(m.decision_chain.len(), 2);
    assert!(m.lookup(&key_a()).is_some());
    assert!(m.lookup(&key_b()).is_some());
    assert_eq!(m.decision_history.len(), 0);
}

#[test]
fn mutate_moves_every_weight_by_the_magnitude() {
    let mut t = DecisionMakingTree::new();
    let _ = t.get_decision_maker(key_a());
    let mut rng = oorandom::Rand32::new(11);
    let m = t.mutate(2, &mut rng);
    let got = m.lookup(&key_a()).unwrap();
    let d = DecisionMaker::default();
    let pairs = [
        (got.move_up, d.move_up),
        (got.move_down, d.move_down),
        (got.move_left, d.move_left),
        (got.move_right, d.move_right),
        (got.interact, d.interact),
        (got.build, d.build),
        (got.wait, d.wait),
    ];
    for (new_w, old_w) in pairs {
        let up = old_w.saturating_add(2);
        let down = if old_w > 2 { old_w - 2 } else { 0 };
        assert!(new_w == up || new_w == down);
    }
}

#[test]
fn lookup_of_a_missing_key_is_none() {
    let t = DecisionMakingTree::new();
    assert!(t.lookup(&key_a()).is_none());
}

#[test]
fn check_wf_accepts_tables_built_through_the_api() {
    let mut t = DecisionMakingTree::new();
    assert!(t.check_wf());
    let _ = t.get_decision_maker(key_a());
    t.decision_history.push((0u128, key_a(), Decision::Wait));
    assert!(t.check_wf());
}

#[test]
fn check_wf_rejects_duplicate_keys_and_dangling_log_entries() {
    let mut dup = DecisionMakingTree::new();
    dup.decision_chain.push((key_a(), DecisionMaker::default()));
    dup.decision_chain.push((key_a(), DecisionMaker::default()));
    assert!(!dup.check_wf());

    let mut dangling = DecisionMakingTree::new();
    dangling.decision_history.push((0u128, key_a(), Decision::Wait));
    assert!(!dangling.check_wf());
}

#[test]
fn decide_samples_logs_and_creates_the_entry() {
    let mut t = DecisionMakingTree::new();
    let a = evogrid::world::Animal {
        alive: true,
        hp: 10,
        ability: 5,
        lifetime: 0,
        position: (2, 2),
        view_distance: 5,
        next_decision: Decision::Wait,
    };
    let expected_key = t.calculate_decision_factors(&a, &Vec::new());
    let mut rng = oorandom::Rand32::new(42);
    let d = t.make_a_decision(7u128, &a, Vec::new(), &mut rng);
    assert_eq!(t.decision_chain.len(), 1);
    assert_eq!(t.decision_history.len(), 1);
    let (tick, key, action) = &t.decision_history[0];
    assert_eq!(*tick, 7u128);
    assert_eq!(*key, expected_key);
    assert_eq!(*action, d);
    assert_eq!(t.lookup(&expected_key), Some(DecisionMaker::default()));
}
