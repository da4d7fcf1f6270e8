//! The evolutionary training loop: per generation, mutated samples of the
//! current base table each drive a fresh simulation; the longest-surviving
//! sample (first found on ties) is reinforced from its own decision log and
//! becomes the next base.
use vstd::prelude::*;
use crate::engine::{decision_making_single_loop, run_outcome};
use crate::perception::DecisionFactor;
use crate::tree::{
    DecisionMakingTree, has_key, lemma_pointwise_keys_preserve_has_key, mutated_from,
    rewarded_from,
};
use crate::world::dim_ok;

verus! {

/// What a selection returns: some sample holds exactly this table and tick
/// count, every sample before it survived strictly fewer ticks, and no
/// sample survived more.
pub open spec fn selected_first_best(
    samples: Seq<(DecisionMakingTree, u64)>,
    w: DecisionMakingTree,
    tw: u64,
) -> bool {
    &&& exists|i: int|
        #![trigger samples[i]]
        0 <= i < samples.len() && samples[i].0 == w && samples[i].1 == tw && (forall|j: int|
            0 <= j < i ==> (#[trigger] samples[j]).1 < tw)
    &&& forall|j: int| 0 <= j < samples.len() ==> (#[trigger] samples[j]).1 <= tw
}

/// One generation: `sample_count` tables, each mutated from the base and
/// each run to its outcome; the first longest-surviving one is selected and
/// the next base is its log-replayed reward.
pub open spec fn generation_step(
    base: DecisionMakingTree,
    next: DecisionMakingTree,
    mutate_factor: u32,
    reward_factor: u32,
    sample_count: u32,
    max_ticks: u64,
) -> bool {
    exists|samples: Seq<(DecisionMakingTree, u64)>, w: DecisionMakingTree, tw: u64|
        #![trigger selected_first_best(samples, w, tw)]
        {
            &&& samples.len() == sample_count as int
            &&& forall|i: int|
                0 <= i < samples.len() ==> exists|m: DecisionMakingTree|
                    #![trigger mutated_from(m, base, mutate_factor)]
                    mutated_from(m, base, mutate_factor) && run_outcome(
                        (#[trigger] samples[i]).0,
                        samples[i].1,
                        m,
                        max_ticks,
                    )
            &&& selected_first_best(samples, w, tw)
            &&& rewarded_from(next, w, reward_factor)
        }
}

/// `generations` rounds of `generation_step`, chained from the base.
pub open spec fn evolved(
    base: DecisionMakingTree,
    r: DecisionMakingTree,
    mutate_factor: u32,
    reward_factor: u32,
    sample_count: u32,
    max_ticks: u64,
    generations: int,
) -> bool
    decreases generations,
{
    if generations <= 0 {
        r == base
    } else {
        exists|mid: DecisionMakingTree|
            #![trigger generation_step(mid, r, mutate_factor, reward_factor, sample_count, max_ticks)]
            evolved(
                base,
                mid,
                mutate_factor,
                reward_factor,
                sample_count,
                max_ticks,
                generations - 1,
            ) && generation_step(mid, r, mutate_factor, reward_factor, sample_count, max_ticks)
    }
}

/// Chaining one more generation step onto an evolution extends it by one
/// generation.
pub proof fn lemma_evolved_step(
    base: DecisionMakingTree,
    mid: DecisionMakingTree,
    next: DecisionMakingTree,
    mutate_factor: u32,
    reward_factor: u32,
    sample_count: u32,
    max_ticks: u64,
    generations: int,
)
    requires
        generations >= 1,
        evolved(base, mid, mutate_factor, reward_factor, sample_count, max_ticks, generations - 1),
        generation_step(mid, next, mutate_factor, reward_factor, sample_count, max_ticks),
    ensures
        evolved(base, next, mutate_factor, reward_factor, sample_count, max_ticks, generations),
{
}

/// Picks the sample with the strictly greatest tick count; ties keep the
/// first one found, scanning in order.
pub fn select_best(results: Vec<(DecisionMakingTree, u64)>) -> (r: (DecisionMakingTree, u64))
    requires
        results@.len() >= 1,
    ensures
        selected_first_best(results@, r.0, r.1),
{
    let ghost rv = results@;
    let mut results = results;
    let mut best = results.pop().unwrap();
    proof {
        assert(results@ =~= rv.subrange(0, rv.len() - 1));
    }
    while results.len() > 0
        invariant
            results@ == rv.subrange(0, results@.len() as int),
            results@.len() < rv.len(),
            exists|i: int|
                #![trigger rv[i]]
                results@.len() <= i < rv.len() && best.0 == rv[i].0 && best.1 == rv[i].1 && (
                forall|j: int| results@.len() <= j < i ==> (#[trigger] rv[j]).1 < best.1),
            forall|j: int| results@.len() <= j < rv.len() ==> (#[trigger] rv[j]).1 <= best.1,
        decreases results@.len(),
    {
        let ghost n = results@.len() as int;
        let cand = results.pop().unwrap();
        proof {
            assert(results@ =~= rv.subrange(0, n - 1));
            assert(cand == rv[n - 1]);
        }
        if cand.1 >= best.1 {
            best = cand;
        }
    }
    best
}

/// Runs the whole training loop: for each generation, derives
/// `sample_count` independently mutated copies of the base table, runs each
/// against a fresh world, selects the longest-surviving sample and makes its
/// rewarded table the next base. Returns the final base table, the result of
/// exactly `run_count` chained generation steps: it keeps every key the
/// starting base held, and (for at least one generation) carries the winning
/// run's non-empty decision log.
pub fn decision_making_run(
    run_count: u32,
    mutate_factor: u32,
    reward_factor: u32,
    sample_count: u32,
    base: DecisionMakingTree,
    width: u32,
    height: u32,
    mutator_seed: u64,
    world_seed: u64,
    calculator_seed: u64,
    max_ticks: u64,
) -> (r: DecisionMakingTree)
    requires
        base.wf(),
        dim_ok(width, height),
        sample_count >= 1,
        max_ticks >= 1,
    ensures
        r.wf(),
        evolved(
            base,
            r,
            mutate_factor,
            reward_factor,
            sample_count,
            max_ticks,
            run_count as int,
        ),
        run_count == 0 ==> r == base,
        run_count >= 1 ==> r.history_view().len() >= 1,
        forall|k: Seq<DecisionFactor>|
            #[trigger] has_key(base.chain_view(), k) ==> has_key(r.chain_view(), k),
{
    let mut rng_mutator = oorandom::Rand32::new(mutator_seed);
    let mut tree = base;
    let mut run: u32 = 0;
    while run < run_count
        invariant
            tree.wf(),
            dim_ok(width, height),
            sample_count >= 1,
            max_ticks >= 1,
            run <= run_count,
            evolved(
                base,
                tree,
                mutate_factor,
                reward_factor,
                sample_count,
                max_ticks,
                run as int,
            ),
            run == 0 ==> tree == base,
            run >= 1 ==> tree.history_view().len() >= 1,
            forall|k: Seq<DecisionFactor>|
                #[trigger] has_key(base.chain_view(), k) ==> has_key(tree.chain_view(), k),
        decreases run_count - run,
    {
        let ghost gbase = tree;
        let mut result_vec: Vec<(DecisionMakingTree, u64)> = Vec::new();
        let mut s: u32 = 0;
        while s < sample_count
            invariant
                tree.wf(),
                tree == gbase,
                dim_ok(width, height),
                sample_count >= 1,
                max_ticks >= 1,
                s <= sample_count,
                result_vec@.len() == s,
                forall|i: int|
                    0 <= i < result_vec@.len() ==> exists|m: DecisionMakingTree|
                        #![trigger mutated_from(m, gbase, mutate_factor)]
                        mutated_from(m, gbase, mutate_factor) && run_outcome(
                            (#[trigger] result_vec@[i]).0,
                            result_vec@[i].1,
                            m,
                            max_ticks,
                        ),
            decreases sample_count - s,
        {
            let sample = tree.mutate(mutate_factor, &mut rng_mutator);
            let ghost msnap = sample;
            let rr = decision_making_single_loop(
                sample,
                width,
                height,
                world_seed,
                calculator_seed,
                max_ticks,
            );
            let ghost pre_rv = result_vec@;
            result_vec.push(rr);
            proof {
                assert(mutated_from(msnap, gbase, mutate_factor) && run_outcome(
                    result_vec@[s as int].0,
                    result_vec@[s as int].1,
                    msnap,
                    max_ticks,
                ));
                assert forall|i: int| 0 <= i < result_vec@.len() implies exists|
                    m: DecisionMakingTree,
                |
                    #![trigger mutated_from(m, gbase, mutate_factor)]
                    mutated_from(m, gbase, mutate_factor) && run_outcome(
                        (#[trigger] result_vec@[i]).0,
                        result_vec@[i].1,
                        m,
                        max_ticks,
                    ) by {
                    if i < s as int {
                        assert(result_vec@[i] == pre_rv[i]);
                    }
                }
            }
            s = s + 1;
        }
        let best = select_best(result_vec);
        proof {
            let rv = result_vec@;
            let bi = choose|i: int|
                #![trigger rv[i]]
                0 <= i < rv.len() && rv[i].0 == best.0 && rv[i].1 == best.1 && (forall|j: int|
                    0 <= j < i ==> (#[trigger] rv[j]).1 < best.1);
            let m = choose|m: DecisionMakingTree|
                #![trigger mutated_from(m, gbase, mutate_factor)]
                mutated_from(m, gbase, mutate_factor) && run_outcome(
                    rv[bi].0,
                    rv[bi].1,
                    m,
                    max_ticks,
                );
            assert(best.0.wf());
            assert(best.0.history_view().len() >= 1);
            assert forall|k: Seq<DecisionFactor>| #[trigger]
                has_key(base.chain_view(), k) implies has_key(best.0.chain_view(), k) by {
                assert(has_key(gbase.chain_view(), k));
                lemma_pointwise_keys_preserve_has_key(gbase.chain_view(), m.chain_view(), k);
                assert(has_key(best.0.chain_view(), k));
            }
        }
        tree = best.0.reward(reward_factor);
        proof {
            assert(rewarded_from(tree, best.0, reward_factor));
            assert(tree.history_view().len() >= 1);
            assert forall|k: Seq<DecisionFactor>| #[trigger]
                has_key(base.chain_view(), k) implies has_key(tree.chain_view(), k) by {
                crate::tree::lemma_find_pointwise_update(
                    best.0.chain_view(),
                    tree.chain_view(),
                    k,
                );
            }
            assert(generation_step(
                gbase,
                tree,
                mutate_factor,
                reward_factor,
                sample_count,
                max_ticks,
            ));
            lemma_evolved_step(
                base,
                gbase,
                tree,
                mutate_factor,
                reward_factor,
                sample_count,
                max_ticks,
                run as int + 1,
            );
        }
        run = run + 1;
    }
    tree
}

} // verus!
