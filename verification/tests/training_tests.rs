use evogrid::engine::decision_making_single_loop;
use evogrid::perception::DecisionFactor;
use evogrid::policy::{Decision, DecisionMaker};
use evogrid::training::{decision_making_run, select_best};
use evogrid::tree::DecisionMakingTree;

fn marked_tree(mark: u128) -> DecisionMakingTree {
    let mut t = DecisionMakingTree::new();
    let key = vec![DecisionFactor::CurrentHp(1)];
    let _ = t.get_decision_maker(key.clone());
    t.decision_history.push((mark, key, Decision::Wait));
    t
}

#[test]
fn select_best_takes_the_strictly_greatest() {
    let results = vec![
        (marked_tree(0), 3u64),
        (marked_tree(1), 9u64),
        (marked_tree(2), 5u64),
    ];
    let (best, ticks) = select_best(results);
    assert_eq!(ticks, 9);
    assert_eq!(best.decision_history[0].0, 1);
}

#[test]
fn select_best_keeps_the_first_on_ties() {
    let results = vec![
        (marked_tree(0), 5u64),
        (marked_tree(1), 7u64),
        (marked_tree(2), 7u64),
        (marked_tree(3), 6u64),
    ];
    let (best, ticks) = select_best(results);
    assert_eq!(ticks, 7);
    assert_eq!(best.decision_history[0].0, 1);
}

#[test]
fn select_best_of_a_single_sample() {
    let (best, ticks) = select_best(vec![(marked_tree(4), 2u64)]);
    assert_eq!(ticks, 2);
    assert_eq!(best.decision_history[0].0, 4);
}

fn weight(m: &DecisionMaker, d: Decision) -> u32 {
    match d {
        Decision::MoveUp => m.move_up,
        Decision::MoveDown => m.move_down,
        Decision::MoveLeft => m.move_left,
        Decision::MoveRight => m.move_right,
        Decision::Interact => m.interact,
        Decision::Build => m.build,
        Decision::Wait => m.wait,
    }
}

#[test]
fn scenario_one_generation_selects_and_reinforces_the_best_sample() {
    // one generation, five samples on a tiny fixed map: the sample with the
    // highest tick count becomes the base, and after reward(2) every action
    // of its decision log has a weight no smaller than before the reward.
    let base = DecisionMakingTree::new();
    let mut mutator = oorandom::Rand32::new(64);
    let mut results: Vec<(DecisionMakingTree, u64)> = Vec::new();
    for _ in 0..5 {
        let sample = base.mutate(2, &mut mutator);
        let r = decision_making_single_loop(sample, 9, 9, 64, 64, 500);
        results.push(r);
    }
    let max_ticks = results.iter().map(|r| r.1).max().unwrap();
    let first_best = results.iter().position(|r| r.1 == max_ticks).unwrap();
    let expected_log_len = results[first_best].0.decision_history.len();
    let (best, ticks) = select_best(results);
    assert_eq!(ticks, max_ticks);
    assert_eq!(best.decision_history.len(), expected_log_len);

    let rewarded = best.reward(2);
    for (_, key, action) in &best.decision_history {
        let before = best.lookup(key).unwrap();
        let after = rewarded.lookup(key).unwrap();
        assert!(
            weight(&after, *action) >= weight(&before, *action),
            "a logged action's weight never shrinks under reward"
        );
        assert!(weight(&after, *action) >= weight(&before, *action).saturating_add(2));
    }
}

#[test]
fn training_runs_to_completion_and_returns_a_well_formed_table() {
    let base = DecisionMakingTree::new();
    let trained = decision_making_run(2, 2, 2, 3, base, 12, 12, 64, 64, 64, 300);
    assert!(trained.check_wf());
}

#[test]
fn training_is_reproducible_from_its_seeds() {
    let t1 = decision_making_run(2, 2, 2, 3, DecisionMakingTree::new(), 12, 12, 64, 64, 64, 300);
    let t2 = decision_making_run(2, 2, 2, 3, DecisionMakingTree::new(), 12, 12, 64, 64, 64, 300);
    assert_eq!(t1.decision_chain.len(), t2.decision_chain.len());
    assert_eq!(t1.decision_history.len(), t2.decision_history.len());
    for (key, maker) in &t1.decision_chain {
        assert_eq!(t2.lookup(key), Some(*maker));
    }
}

#[test]
fn training_keeps_the_base_keys_and_carries_the_winning_log() {
    let mut base = DecisionMakingTree::new();
    let key = vec![DecisionFactor::CurrentHp(3)];
    let _ = base.get_decision_maker(key.clone());
    let trained = decision_making_run(1, 2, 2, 3, base, 12, 12, 64, 64, 64, 300);
    assert!(trained.lookup(&key).is_some(), "a key of the base survives training");
    assert!(trained.decision_history.len() >= 1, "the winner's log is carried");
}
