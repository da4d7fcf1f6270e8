//! The tick engine: interaction rolls and the execution of a chosen action.
//!
//! Randomness enters only through interaction rolls. Every function states
//! what holds for every possible sequence of rolls: the executor returns the
//! (ghost) rolls that were drawn, and its outcome is the deterministic
//! function `spec_execute` of the starting state and those rolls.
use vstd::prelude::*;
use crate::policy::{Decision, inc_w};
use crate::perception::DecisionFactor;
use crate::tree::DecisionMakingTree;
use crate::world::{
    Animal, Environment, MAX_DIM, ROLL_BOUND, Tickable, dim_ok, find_environments,
    garbage_collection, generate_map, make_shelter, pos_sane, sat_add_i, shelter_at, spawn_animal,
    wf_animal, wf_env,
};

verus! {

/// Whether an object takes part in an interaction phase at `pos`: it must be
/// alive, co-located with the agent, and match the phase's auto-interact
/// selection.
pub open spec fn participates(e: Environment, pos: (i32, i32), want_auto: bool) -> bool {
    e.alive && e.position == pos && e.auto_interact == want_auto
}

/// The agent after collecting an object's reward: hp and ability grow by the
/// reward pair, both clamped at their numeric caps.
pub open spec fn gain_spec(a: Animal, reward: (u32, u32)) -> Animal {
    Animal {
        hp: sat_add_i(a.hp as int, reward.0 as int) as i32,
        ability: inc_w(a.ability, reward.1),
        ..a
    }
}

/// One interaction roll against one object. A dead agent is terminal and
/// nothing changes. Otherwise the roll plus the agent's ability is compared
/// against the object's difficulty: on success the agent collects the
/// object's reward and the object loses 1 hp; on failure the agent pays the
/// object's penalty.
pub open spec fn spec_interact(e: Environment, a: Animal, roll: u32) -> (Environment, Animal) {
    if !a.alive {
        (e, a)
    } else {
        let dix = inc_w(roll, a.ability);
        if dix >= e.difficulty {
            (e.spec_consume(1), gain_spec(a, e.reward))
        } else {
            (e, a.spec_consume(e.penalty as i32))
        }
    }
}

/// Resolves one interaction with a concrete roll: the deterministic half of
/// an interaction.
pub fn resolve_interaction(e: &mut Environment, a: &mut Animal, roll: u32)
    requires
        old(e).reward.0 <= 0x7fff_ffff,
        old(e).penalty <= 0x7fff_ffff,
    ensures
        (*final(e), *final(a)) == spec_interact(*old(e), *old(a), roll),
{
    if !a.alive {
        return ;
    }
    let dix = roll.saturating_add(a.ability);
    if dix >= e.difficulty {
        e.consume(1);
        a.hp = crate::world::add_clamp(a.hp, e.reward.0 as i32);
        a.ability = a.ability.saturating_add(e.reward.1);
    } else {
        a.consume(e.penalty as i32);
    }
}

/// One interaction: rolls a bounded random value and resolves it. The roll
/// drawn is returned as ghost evidence; whatever it was, the outcome is
/// `spec_interact` of it.
pub fn make_interaction(e: &mut Environment, a: &mut Animal, rng: &mut oorandom::Rand32) -> (roll:
    Ghost<u32>)
    requires
        old(e).reward.0 <= 0x7fff_ffff,
        old(e).penalty <= 0x7fff_ffff,
    ensures
        roll@ < ROLL_BOUND,
        (*final(e), *final(a)) == spec_interact(*old(e), *old(a), roll@),
{
    let r = rng.rand_u32() % ROLL_BOUND;
    resolve_interaction(e, a, r);
    Ghost(r)
}

/// One interaction phase over the first `i` objects: every participating
/// object, in order, consumes the next roll and resolves an interaction.
/// Returns the objects, the agent, and how many rolls were consumed.
pub open spec fn spec_phase(
    ve0: Seq<Environment>,
    a0: Animal,
    pos: (i32, i32),
    want_auto: bool,
    rolls: Seq<u32>,
    i: int,
) -> (Seq<Environment>, Animal, int)
    decreases i,
{
    if i <= 0 {
        (ve0, a0, 0)
    } else {
        let prev = spec_phase(ve0, a0, pos, want_auto, rolls, i - 1);
        if participates(ve0[i - 1], pos, want_auto) {
            let roll = if prev.2 < rolls.len() {
                rolls[prev.2]
            } else {
                0u32
            };
            let step = spec_interact(ve0[i - 1], prev.1, roll);
            (prev.0.update(i - 1, step.0), step.1, prev.2 + 1)
        } else {
            prev
        }
    }
}

/// What an interaction phase never touches: the object list's length, every
/// object at or beyond the processed prefix, every non-participating object,
/// every object's position, penalty, reward, tag and auto-interact flag, and
/// the agent's position. At most one roll per processed object is consumed.
pub proof fn lemma_phase_frame(
    ve0: Seq<Environment>,
    a0: Animal,
    pos: (i32, i32),
    want_auto: bool,
    rolls: Seq<u32>,
    i: int,
)
    requires
        0 <= i <= ve0.len(),
    ensures
        spec_phase(ve0, a0, pos, want_auto, rolls, i).0.len() == ve0.len(),
        0 <= spec_phase(ve0, a0, pos, want_auto, rolls, i).2 <= i,
        forall|j: int|
            i <= j < ve0.len() ==> #[trigger] spec_phase(ve0, a0, pos, want_auto, rolls, i).0[j]
                == ve0[j],
        forall|j: int|
            0 <= j < ve0.len() && !participates(ve0[j], pos, want_auto) ==> #[trigger] spec_phase(
                ve0,
                a0,
                pos,
                want_auto,
                rolls,
                i,
            ).0[j] == ve0[j],
        forall|j: int|
            0 <= j < ve0.len() ==> {
                let e2 = #[trigger] spec_phase(ve0, a0, pos, want_auto, rolls, i).0[j];
                e2.position == ve0[j].position && e2.penalty == ve0[j].penalty && e2.reward
                    == ve0[j].reward && e2.tag == ve0[j].tag && e2.auto_interact == ve0[
                    j
                ].auto_interact && e2.difficulty == ve0[j].difficulty
            },
        spec_phase(ve0, a0, pos, want_auto, rolls, i).1.position == a0.position,
        spec_phase(ve0, a0, pos, want_auto, rolls, i).1.view_distance == a0.view_distance,
        spec_phase(ve0, a0, pos, want_auto, rolls, i).1.next_decision == a0.next_decision,
    decreases i,
{
    if i > 0 {
        lemma_phase_frame(ve0, a0, pos, want_auto, rolls, i - 1);
    }
}

/// A phase that consumed its rolls is blind to rolls appended afterwards.
pub proof fn lemma_phase_rolls_extend(
    ve0: Seq<Environment>,
    a0: Animal,
    pos: (i32, i32),
    want_auto: bool,
    rolls: Seq<u32>,
    r: u32,
    i: int,
)
    requires
        0 <= i <= ve0.len(),
        spec_phase(ve0, a0, pos, want_auto, rolls, i).2 <= rolls.len(),
    ensures
        spec_phase(ve0, a0, pos, want_auto, rolls.push(r), i) == spec_phase(
            ve0,
            a0,
            pos,
            want_auto,
            rolls,
            i,
        ),
    decreases i,
{
    if i > 0 {
        lemma_phase_frame(ve0, a0, pos, want_auto, rolls, i - 1);
        lemma_phase_rolls_extend(ve0, a0, pos, want_auto, rolls, r, i - 1);
    }
}

/// Runs one interaction phase: every live object on the agent's cell whose
/// auto-interact flag matches resolves one interaction, in list order. The
/// rolls drawn are returned as ghost evidence; the outcome is exactly
/// `spec_phase` of them.
fn run_phase(
    ve: &mut Vec<Environment>,
    a: &mut Animal,
    want_auto: bool,
    rng: &mut oorandom::Rand32,
) -> (rolls: Ghost<Seq<u32>>)
    requires
        forall|k: int|
            0 <= k < old(ve)@.len() ==> (#[trigger] old(ve)@[k]).reward.0 <= 0x7fff_ffff && old(
                ve,
            )@[k].penalty <= 0x7fff_ffff,
    ensures
        forall|j: int| 0 <= j < rolls@.len() ==> #[trigger] rolls@[j] < ROLL_BOUND,
        final(ve)@ == spec_phase(
            old(ve)@,
            *old(a),
            old(a).position,
            want_auto,
            rolls@,
            old(ve)@.len() as int,
        ).0,
        *final(a) == spec_phase(
            old(ve)@,
            *old(a),
            old(a).position,
            want_auto,
            rolls@,
            old(ve)@.len() as int,
        ).1,
        rolls@.len() == spec_phase(
            old(ve)@,
            *old(a),
            old(a).position,
            want_auto,
            rolls@,
            old(ve)@.len() as int,
        ).2,
{
    let ghost ve0 = ve@;
    let ghost a0 = *a;
    let ghost pos = a0.position;
    let pos_x = a.position.0;
    let pos_y = a.position.1;
    let ghost rolls: Seq<u32> = Seq::empty();
    let mut i: usize = 0;
    while i < ve.len()
        invariant
            0 <= i <= ve0.len(),
            ve@.len() == ve0.len(),
            pos == (pos_x, pos_y),
            forall|k: int|
                0 <= k < ve0.len() ==> (#[trigger] ve0[k]).reward.0 <= 0x7fff_ffff
                    && ve0[k].penalty <= 0x7fff_ffff,
            forall|k: int| i <= k < ve0.len() ==> #[trigger] ve@[k] == ve0[k],
            forall|j: int| 0 <= j < rolls.len() ==> #[trigger] rolls[j] < ROLL_BOUND,
            ve@ == spec_phase(ve0, a0, pos, want_auto, rolls, i as int).0,
            *a == spec_phase(ve0, a0, pos, want_auto, rolls, i as int).1,
            rolls.len() == spec_phase(ve0, a0, pos, want_auto, rolls, i as int).2,
        decreases ve0.len() - i,
    {
        let e = ve[i];
        let participate = e.alive && e.position.0 == pos_x && e.position.1 == pos_y
            && e.auto_interact == want_auto;
        proof {
            assert(participate == participates(ve0[i as int], pos, want_auto));
        }
        if participate {
            let ghost rolls_pre = rolls;
            let er = &mut ve[i];
            let g = make_interaction(er, a, rng);
            proof {
                rolls = rolls.push(g@);
                lemma_phase_rolls_extend(ve0, a0, pos, want_auto, rolls_pre, g@, i as int);
                assert(spec_phase(ve0, a0, pos, want_auto, rolls, i as int) == spec_phase(
                    ve0,
                    a0,
                    pos,
                    want_auto,
                    rolls_pre,
                    i as int,
                ));
            }
        }
        i = i + 1;
    }
    proof {
        assert(ve@ == spec_phase(ve0, a0, pos, want_auto, rolls, ve0.len() as int).0);
    }
    Ghost(rolls)
}

/// The agent after a clamped unit move.
pub open spec fn move_animal(a: Animal, inc: (i32, i32), width: u32, height: u32) -> Animal {
    Animal { position: Animal::spec_move(a.position, inc, width, height), ..a }
}

/// One action execution, as a function of the starting state and the rolls
/// drawn (`rolls1` by the auto-interaction phase, `rolls2` by an `Interact`
/// action). First every live co-located auto-interacting object resolves an
/// interaction; then the chosen action runs: a move translates and clamps,
/// `Interact` resolves the co-located non-auto objects, `Build` costs the
/// agent 5 hp and places a fresh shelter on the agent's own cell, `Wait`
/// does nothing.
pub open spec fn spec_execute(
    ve0: Seq<Environment>,
    a0: Animal,
    width: u32,
    height: u32,
    rolls1: Seq<u32>,
    rolls2: Seq<u32>,
) -> (Seq<Environment>, Animal) {
    let auto = spec_phase(ve0, a0, a0.position, true, rolls1, ve0.len() as int);
    let ve1 = auto.0;
    let a1 = auto.1;
    match a0.next_decision {
        Decision::MoveUp => (ve1, move_animal(a1, (1i32, 0i32), width, height)),
        Decision::MoveDown => (ve1, move_animal(a1, (-1i32, 0i32), width, height)),
        Decision::MoveLeft => (ve1, move_animal(a1, (0i32, -1i32), width, height)),
        Decision::MoveRight => (ve1, move_animal(a1, (0i32, 1i32), width, height)),
        Decision::Interact => {
            let ph2 = spec_phase(ve1, a1, a1.position, false, rolls2, ve1.len() as int);
            (ph2.0, ph2.1)
        },
        Decision::Build => (ve1.push(shelter_at(a1.position)), a1.spec_consume(5)),
        Decision::Wait => (ve1, a1),
    }
}

/// Executes the agent's chosen action for this tick. The outcome is exactly
/// `spec_execute` of the starting state and the returned ghost rolls; grid
/// bounds and well-formedness are preserved.
pub fn execute_decision(
    ve: &mut Vec<Environment>,
    a: &mut Animal,
    width: u32,
    height: u32,
    rng: &mut oorandom::Rand32,
) -> (rolls: Ghost<(Seq<u32>, Seq<u32>)>)
    requires
        dim_ok(width, height),
        forall|k: int| 0 <= k < old(ve)@.len() ==> wf_env(#[trigger] old(ve)@[k], width, height),
        wf_animal(*old(a), width, height),
    ensures
        forall|j: int| 0 <= j < rolls@.0.len() ==> #[trigger] rolls@.0[j] < ROLL_BOUND,
        forall|j: int| 0 <= j < rolls@.1.len() ==> #[trigger] rolls@.1[j] < ROLL_BOUND,
        (final(ve)@, *final(a)) == spec_execute(
            old(ve)@,
            *old(a),
            width,
            height,
            rolls@.0,
            rolls@.1,
        ),
        forall|k: int| 0 <= k < final(ve)@.len() ==> wf_env(#[trigger] final(ve)@[k], width, height),
        wf_animal(*final(a), width, height),
{
    let ghost ve0 = ve@;
    let ghost a0 = *a;
    let g1 = run_phase(ve, a, true, rng);
    proof {
        lemma_phase_frame(ve0, a0, a0.position, true, g1@, ve0.len() as int);
    }
    let ghost ve1 = ve@;
    let ghost a1 = *a;
    let mut g2: Ghost<Seq<u32>> = Ghost(Seq::empty());
    match a.next_decision {
        Decision::MoveUp => {
            a.move_inc((1, 0), width, height);
        },
        Decision::MoveDown => {
            a.move_inc((-1, 0), width, height);
        },
        Decision::MoveLeft => {
            a.move_inc((0, -1), width, height);
        },
        Decision::MoveRight => {
            a.move_inc((0, 1), width, height);
        },
        Decision::Interact => {
            g2 = run_phase(ve, a, false, rng);
            proof {
                lemma_phase_frame(ve1, a1, a1.position, false, g2@, ve1.len() as int);
            }
        },
        Decision::Build => {
            a.consume(5);
            let sh = make_shelter(a.position);
            ve.push(sh);
        },
        Decision::Wait => {},
    }
    proof {
        crate::world::lemma_move_stays_in_bounds(a1.position, (1i32, 0i32), width, height);
        crate::world::lemma_move_stays_in_bounds(a1.position, (-1i32, 0i32), width, height);
        crate::world::lemma_move_stays_in_bounds(a1.position, (0i32, -1i32), width, height);
        crate::world::lemma_move_stays_in_bounds(a1.position, (0i32, 1i32), width, height);
    }
    Ghost((g1@, g2@))
}

/// Every element of a filtered object list is an element of the original:
/// the filtered objects inherit the original list's per-object facts.
proof fn lemma_filter_elems_from(s: Seq<Environment>, p: spec_fn(Environment) -> bool)
    ensures
        forall|k: int| 0 <= k < s.filter(p).len() ==> s.contains(#[trigger] s.filter(p)[k]),
{
    broadcast use vstd::seq_lib::group_seq_properties;

    assert forall|k: int| 0 <= k < s.filter(p).len() implies s.contains(
        #[trigger] s.filter(p)[k],
    ) by {
        let x = s.filter(p)[k];
        assert(s.filter(p).contains(x));
        s.lemma_filter_contains_rev(p, x);
    }
}

/// Drives one simulation run to its end on a given world: each tick the
/// agent perceives and decides, auto-interactions and the chosen action
/// execute, passive decay applies, and dead objects are swept. The run stops
/// the tick the agent dies, or at the tick cap. Returns the table (with the
/// run's decisions appended to its log), the tick count reached, and the
/// agent's final state: one log entry per completed tick.
pub fn run_simulation_on(
    ve: Vec<Environment>,
    agent: Animal,
    tree: DecisionMakingTree,
    width: u32,
    height: u32,
    rng: &mut oorandom::Rand32,
    max_ticks: u64,
) -> (r: (DecisionMakingTree, u64, Animal))
    requires
        tree.wf(),
        dim_ok(width, height),
        forall|k: int| 0 <= k < ve@.len() ==> wf_env(#[trigger] ve@[k], width, height),
        wf_animal(agent, width, height),
        max_ticks >= 1,
    ensures
        r.0.wf(),
        r.1 <= max_ticks,
        !agent.alive ==> r.1 == 0,
        agent.alive ==> 1 <= r.1,
        !r.2.alive || r.1 == max_ticks,
        r.0.history_view().len() == tree.history_view().len() + r.1,
        r.0.history_view().take(tree.history_view().len() as int) == tree.history_view(),
        forall|p: int|
            tree.history_view().len() <= p < r.0.history_view().len() ==> (
            #[trigger] r.0.history_view()[p]).0 == (p - tree.history_view().len()) as u128,
        forall|k: Seq<DecisionFactor>|
            #[trigger] crate::tree::has_key(tree.chain_view(), k) ==> crate::tree::has_key(
                r.0.chain_view(),
                k,
            ),
        wf_animal(r.2, width, height),
{
    let ghost agent0 = agent;
    let mut ve = ve;
    let mut agent = agent;
    let mut tree = tree;
    let mut tick: u64 = 0;
    let ghost h0 = tree.history_view().len() as int;
    let ghost tree0_hist = tree.history_view();
    let ghost tree0_chain = tree.chain_view();
    while agent.alive && tick < max_ticks
        invariant
            tree.wf(),
            dim_ok(width, height),
            forall|k: int| 0 <= k < ve@.len() ==> wf_env(#[trigger] ve@[k], width, height),
            wf_animal(agent, width, height),
            max_ticks >= 1,
            tick <= max_ticks,
            tick == 0 ==> agent == agent0,
            tick > 0 ==> agent0.alive,
            tree.history_view().len() as int == h0 + tick,
            h0 == tree0_hist.len(),
            tree.history_view().take(h0) == tree0_hist,
            forall|p: int|
                h0 <= p < tree.history_view().len() ==> (#[trigger] tree.history_view()[p]).0 == (
                p - h0) as u128,
            forall|k: Seq<DecisionFactor>|
                #[trigger] crate::tree::has_key(tree0_chain, k) ==> crate::tree::has_key(
                    tree.chain_view(),
                    k,
                ),
        decreases max_ticks - tick,
    {
        proof {
            assert forall|k: int| 0 <= k < ve@.len() implies pos_sane(
                (#[trigger] ve@[k]).position,
            ) by {
                assert(wf_env(ve@[k], width, height));
            }
        }
        let vde = find_environments(&agent, &ve);
        proof {
            lemma_filter_elems_from(ve@, |e: Environment| crate::world::spec_visible(e, agent));
            assert forall|k: int| 0 <= k < vde@.len() implies pos_sane(
                (#[trigger] vde@[k]).position,
            ) by {
                assert(ve@.contains(vde@[k]));
                let j = choose|j: int| 0 <= j < ve@.len() && ve@[j] == vde@[k];
                assert(wf_env(ve@[j], width, height));
            }
        }
        let ghost chain_pre = tree.chain_view();
        let d = tree.make_a_decision(tick as u128, &agent, vde, rng);
        proof {
            assert forall|k: Seq<DecisionFactor>|
                #[trigger] crate::tree::has_key(tree0_chain, k) implies crate::tree::has_key(
                tree.chain_view(),
                k,
            ) by {
                if !crate::tree::has_key(chain_pre, crate::perception::spec_state_key(
                    agent,
                    vde@,
                )) {
                    if k != crate::perception::spec_state_key(agent, vde@) {
                        crate::tree::lemma_find_push_other(
                            chain_pre,
                            crate::perception::spec_state_key(agent, vde@),
                            crate::policy::DecisionMaker::default_spec(),
                            k,
                        );
                    } else {
                        crate::tree::lemma_find_push_missing(
                            chain_pre,
                            crate::perception::spec_state_key(agent, vde@),
                            crate::policy::DecisionMaker::default_spec(),
                        );
                    }
                }
            }
        }
        proof {
            assert(tree.history_view().take(h0) =~~= tree0_hist);
        }
        agent.next_decision = d;
        execute_decision(&mut ve, &mut agent, width, height, rng);
        agent.tick();
        tick = tick + 1;
        let swept = garbage_collection(ve);
        proof {
            lemma_filter_elems_from(ve@, |e: Environment| e.alive);
            assert forall|k: int| 0 <= k < swept@.len() implies wf_env(
                #[trigger] swept@[k],
                width,
                height,
            ) by {
                assert(ve@.contains(swept@[k]));
                let j = choose|j: int| 0 <= j < ve@.len() && ve@[j] == swept@[k];
                assert(wf_env(ve@[j], width, height));
            }
        }
        ve = swept;
    }
    (tree, tick, agent)
}

/// How a finished sample run relates to the table it started from: the
/// table is still well-formed, the fitness is between 1 and the cap, the
/// starting log is kept as a prefix and exactly `ticks` entries follow it,
/// numbered consecutively from 0 (one decision per completed tick, in
/// order), and every key the starting table held is still present.
pub open spec fn run_outcome(
    res: DecisionMakingTree,
    ticks: u64,
    start: DecisionMakingTree,
    max_ticks: u64,
) -> bool {
    &&& res.wf()
    &&& 1 <= ticks <= max_ticks
    &&& res.history_view().len() == start.history_view().len() + ticks
    &&& res.history_view().take(start.history_view().len() as int) == start.history_view()
    &&& forall|p: int|
        start.history_view().len() <= p < res.history_view().len() ==> (
        #[trigger] res.history_view()[p]).0 == (p - start.history_view().len()) as u128
    &&& forall|k: Seq<DecisionFactor>|
        #[trigger] crate::tree::has_key(start.chain_view(), k) ==> crate::tree::has_key(
            res.chain_view(),
            k,
        )
}

/// One complete sample run: generates a fresh world from the world seed,
/// then drives the simulation with a decision generator seeded from the
/// calculator seed. Returns the table with the run's log and the ticks
/// survived (the run's fitness).
pub fn decision_making_single_loop(
    tree: DecisionMakingTree,
    width: u32,
    height: u32,
    world_seed: u64,
    calculator_seed: u64,
    max_ticks: u64,
) -> (r: (DecisionMakingTree, u64))
    requires
        tree.wf(),
        dim_ok(width, height),
        max_ticks >= 1,
    ensures
        run_outcome(r.0, r.1, tree, max_ticks),
{
    let mut world_rng = oorandom::Rand32::new(world_seed);
    let map = generate_map(width, height, &mut world_rng);
    let ve = map.0;
    let va = map.1;
    let agent = va[0];
    let mut calc_rng = oorandom::Rand32::new(calculator_seed);
    let res = run_simulation_on(ve, agent, tree, width, height, &mut calc_rng, max_ticks);
    (res.0, res.1)
}

} // verus!
