//! Weighted-random action policies.
//!
//! A `DecisionMaker` is a distribution over the fixed, closed action set
//! `Decision`. Sampling walks the actions in their canonical (declaration)
//! order, accumulating weights, and returns the first action whose cumulative
//! weight reaches the draw; a zero total weight falls back to `Decision::Wait`.
use vstd::prelude::*;

verus! {

/// One discrete choice available to the agent each tick. The declaration
/// order is the canonical order: weighted sampling accumulates weights in
/// exactly this order.
#[derive(Clone, Copy, Debug, PartialEq, Eq, Structural)]
pub enum Decision {
    MoveUp,
    MoveDown,
    MoveLeft,
    MoveRight,
    Interact,
    Build,
    Wait,
}

/// A weight increased by `i`, capped at `u32::MAX`.
pub open spec fn inc_w(w: u32, i: u32) -> u32 {
    if w + i > u32::MAX {
        u32::MAX
    } else {
        (w + i) as u32
    }
}

/// A weight decreased by `i`, clamped at zero.
pub open spec fn dec_w(w: u32, i: u32) -> u32 {
    if w > i {
        (w - i) as u32
    } else {
        0
    }
}

/// One mutation step leaves a weight either increased or decreased by the
/// mutation magnitude (the coin for each action is random).
pub open spec fn mutated_w(pre: u32, post: u32, mu: u32) -> bool {
    post == inc_w(pre, mu) || post == dec_w(pre, mu)
}

/// What weighted sampling can return: an action drawn from the policy's
/// weight bands, or the `Wait` fallback when the total weight is zero.
pub open spec fn sampled_from(m: DecisionMaker, d: Decision) -> bool {
    ||| (m.spec_total() == 0 && d == Decision::Wait)
    ||| (m.spec_total() > 0 && exists|draw: int|
        0 <= draw < m.spec_total() && d == m.spec_pick(draw))
}

/// A mutable weighted-random distribution over `Decision`, one per perceptual
/// state. Weights are machine integers, hence never negative.
#[derive(Clone, Copy, Debug, PartialEq, Eq, Structural)]
pub struct DecisionMaker {
    pub move_up: u32,
    pub move_down: u32,
    pub move_left: u32,
    pub move_right: u32,
    pub interact: u32,
    pub build: u32,
    pub wait: u32,
}

impl DecisionMaker {
    /// The weight this policy gives to one action.
    pub open spec fn spec_weight(self, d: Decision) -> u32 {
        match d {
            Decision::MoveUp => self.move_up,
            Decision::MoveDown => self.move_down,
            Decision::MoveLeft => self.move_left,
            Decision::MoveRight => self.move_right,
            Decision::Interact => self.interact,
            Decision::Build => self.build,
            Decision::Wait => self.wait,
        }
    }

    /// The total weight of the distribution.
    pub open spec fn spec_total(self) -> int {
        self.move_up as int + self.move_down as int + self.move_left as int
            + self.move_right as int + self.interact as int + self.build as int + self.wait as int
    }

    /// The action a given draw selects: the first action in canonical order
    /// whose cumulative weight reaches the draw. A draw beyond the total
    /// weight falls through to `Wait`.
    pub open spec fn spec_pick(self, draw: int) -> Decision {
        let c1 = self.move_up as int;
        let c2 = c1 + self.move_down as int;
        let c3 = c2 + self.move_left as int;
        let c4 = c3 + self.move_right as int;
        let c5 = c4 + self.interact as int;
        let c6 = c5 + self.build as int;
        if c1 >= draw {
            Decision::MoveUp
        } else if c2 >= draw {
            Decision::MoveDown
        } else if c3 >= draw {
            Decision::MoveLeft
        } else if c4 >= draw {
            Decision::MoveRight
        } else if c5 >= draw {
            Decision::Interact
        } else if c6 >= draw {
            Decision::Build
        } else {
            Decision::Wait
        }
    }

    /// The starting policy of a freshly created table entry.
    pub open spec fn default_spec() -> DecisionMaker {
        DecisionMaker {
            move_up: 2,
            move_down: 2,
            move_left: 2,
            move_right: 2,
            interact: 2,
            build: 0,
            wait: 10,
        }
    }

    /// Builds the default policy: every move and `Interact` get weight 2,
    /// `Build` gets 0, and `Wait` gets 10.
    pub fn default() -> (m: DecisionMaker)
        ensures
            m == DecisionMaker::default_spec(),
    {
        DecisionMaker {
            move_up: 2,
            move_down: 2,
            move_left: 2,
            move_right: 2,
            interact: 2,
            build: 0,
            wait: 10,
        }
    }

    /// The total weight, computed without overflow (seven `u32` values always
    /// fit in a `u64`).
    pub fn total_weight(&self) -> (t: u64)
        ensures
            t == self.spec_total(),
    {
        self.move_up as u64 + self.move_down as u64 + self.move_left as u64
            + self.move_right as u64 + self.interact as u64 + self.build as u64 + self.wait as u64
    }

    /// The action selected by a concrete draw: the deterministic half of
    /// sampling. Equal weights and equal draws always select the same action.
    pub fn sample_with(&self, draw: u64) -> (d: Decision)
        ensures
            d == self.spec_pick(draw as int),
    {
        let c1: u64 = self.move_up as u64;
        let c2: u64 = c1 + self.move_down as u64;
        let c3: u64 = c2 + self.move_left as u64;
        let c4: u64 = c3 + self.move_right as u64;
        let c5: u64 = c4 + self.interact as u64;
        let c6: u64 = c5 + self.build as u64;
        if c1 >= draw {
            Decision::MoveUp
        } else if c2 >= draw {
            Decision::MoveDown
        } else if c3 >= draw {
            Decision::MoveLeft
        } else if c4 >= draw {
            Decision::MoveRight
        } else if c5 >= draw {
            Decision::Interact
        } else if c6 >= draw {
            Decision::Build
        } else {
            Decision::Wait
        }
    }

    /// Draws one action at random, each action with probability proportional
    /// to its weight band. A zero total weight returns `Wait` (no draw is
    /// taken, so there is no division by zero).
    pub fn make_decision(&self, rng: &mut oorandom::Rand32) -> (d: Decision)
        ensures
            sampled_from(*self, d),
    {
        let t = self.total_weight();
        if t == 0 {
            return Decision::Wait;
        }
        let r = rng.rand_u32();
        let draw: u64 = (r as u64) % t;
        let d = self.sample_with(draw);
        proof {
            assert(0 <= draw as int && (draw as int) < self.spec_total());
        }
        d
    }

    /// Raises one action's weight by `i`, capping at `u32::MAX`; every other
    /// weight is untouched.
    pub fn increase_chance(&mut self, d: Decision, i: u32)
        ensures
            final(self).spec_weight(d) == inc_w(old(self).spec_weight(d), i),
            forall|x: Decision| x != d ==> final(self).spec_weight(x) == old(self).spec_weight(x),
    {
        match d {
            Decision::MoveUp => self.move_up = self.move_up.saturating_add(i),
            Decision::MoveDown => self.move_down = self.move_down.saturating_add(i),
            Decision::MoveLeft => self.move_left = self.move_left.saturating_add(i),
            Decision::MoveRight => self.move_right = self.move_right.saturating_add(i),
            Decision::Interact => self.interact = self.interact.saturating_add(i),
            Decision::Build => self.build = self.build.saturating_add(i),
            Decision::Wait => self.wait = self.wait.saturating_add(i),
        }
    }

    /// Lowers one action's weight by `i`, clamping at zero; every other
    /// weight is untouched.
    pub fn decrease_chance(&mut self, d: Decision, i: u32)
        ensures
            final(self).spec_weight(d) == dec_w(old(self).spec_weight(d), i),
            forall|x: Decision| x != d ==> final(self).spec_weight(x) == old(self).spec_weight(x),
    {
        match d {
            Decision::MoveUp => self.move_up = if self.move_up > i { self.move_up - i } else { 0 },
            Decision::MoveDown => self.move_down = if self.move_down > i { self.move_down - i } else { 0 },
            Decision::MoveLeft => self.move_left = if self.move_left > i { self.move_left - i } else { 0 },
            Decision::MoveRight => self.move_right = if self.move_right > i { self.move_right - i } else { 0 },
            Decision::Interact => self.interact = if self.interact > i { self.interact - i } else { 0 },
            Decision::Build => self.build = if self.build > i { self.build - i } else { 0 },
            Decision::Wait => self.wait = if self.wait > i { self.wait - i } else { 0 },
        }
    }

    /// Perturbs every action's weight by exactly the mutation magnitude:
    /// each action independently flips a fair coin and is increased (capped)
    /// or decreased (clamped at zero) by `mu`.
    pub fn mutate_chance(&mut self, mu: u32, rng: &mut oorandom::Rand32)
        ensures
            forall|x: Decision|
                mutated_w(old(self).spec_weight(x), #[trigger] final(self).spec_weight(x), mu),
    {
        self.mutate_one(Decision::MoveUp, mu, rng);
        self.mutate_one(Decision::MoveDown, mu, rng);
        self.mutate_one(Decision::MoveLeft, mu, rng);
        self.mutate_one(Decision::MoveRight, mu, rng);
        self.mutate_one(Decision::Interact, mu, rng);
        self.mutate_one(Decision::Build, mu, rng);
        self.mutate_one(Decision::Wait, mu, rng);
    }

    /// One coin flip of `mutate_chance`: the chosen action moves up or down
    /// by `mu`, all other weights stay.
    fn mutate_one(&mut self, d: Decision, mu: u32, rng: &mut oorandom::Rand32)
        ensures
            mutated_w(old(self).spec_weight(d), final(self).spec_weight(d), mu),
            forall|x: Decision| x != d ==> final(self).spec_weight(x) == old(self).spec_weight(x),
    {
        let coin = rng.rand_u32() % 2;
        if coin == 0 {
            self.increase_chance(d, mu);
        } else {
            self.decrease_chance(d, mu);
        }
    }
}

/// A lowered weight clamps at zero: `decrease_chance` can never produce a
/// negative weight, whatever the starting weight and the delta.
pub proof fn lemma_decrease_never_negative(w: u32, i: u32)
    ensures
        dec_w(w, i) as int == if w as int - i as int > 0 {
            w as int - i as int
        } else {
            0
        },
        dec_w(w, i) >= 0,
{
}

} // verus!
