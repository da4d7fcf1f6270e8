//! The trainable policy table: state keys mapped to weighted policies, plus
//! the ordered log of decisions taken during the current run.
//!
//! Entries are created lazily on first lookup. `mutate` and `reward` never
//! touch the receiver: they return fresh, independently owned tables, which
//! is what lets many mutated samples be derived from one shared base.
use vstd::prelude::*;
use crate::policy::{DecisionMaker, Decision, mutated_w, sampled_from};
use crate::perception::{DecisionFactor, spec_state_key, state_key};
use crate::world::{Animal, Environment, pos_sane};

verus! {

/// A table entry as the specification sees it: the key's view and the policy.
pub type ChainView = Seq<(Seq<DecisionFactor>, DecisionMaker)>;

/// A log entry as the specification sees it: tick, key view, action.
pub type HistoryView = Seq<(u128, Seq<DecisionFactor>, Decision)>;

/// The entries of a chain vector, keys taken by view.
pub open spec fn chain_view_of(v: Seq<(Vec<DecisionFactor>, DecisionMaker)>) -> ChainView {
    v.map_values(|p: (Vec<DecisionFactor>, DecisionMaker)| (p.0@, p.1))
}

/// The entries of a log vector, keys taken by view.
pub open spec fn history_view_of(v: Seq<(u128, Vec<DecisionFactor>, Decision)>) -> HistoryView {
    v.map_values(|t: (u128, Vec<DecisionFactor>, Decision)| (t.0, t.1@, t.2))
}

/// The first policy stored under a key, scanning entries front to back.
pub open spec fn spec_find(chain: ChainView, k: Seq<DecisionFactor>) -> Option<DecisionMaker>
    decreases chain.len(),
{
    if chain.len() == 0 {
        None
    } else if chain[0].0 == k {
        Some(chain[0].1)
    } else {
        spec_find(chain.drop_first(), k)
    }
}

/// Whether a key has an entry.
pub open spec fn has_key(chain: ChainView, k: Seq<DecisionFactor>) -> bool {
    spec_find(chain, k) is Some
}

/// No two entries share a key.
pub open spec fn keys_unique(chain: ChainView) -> bool {
    forall|i: int, j: int| 0 <= i < j < chain.len() ==> chain[i].0 != chain[j].0
}

/// The chain after a lookup-or-create of `k`: unchanged when the key is
/// present, extended by a default entry when it is not.
pub open spec fn chain_after_get(chain: ChainView, k: Seq<DecisionFactor>) -> ChainView {
    if has_key(chain, k) {
        chain
    } else {
        chain.push((k, DecisionMaker::default_spec()))
    }
}

/// How often `(key, action)` occurs in a decision log.
pub open spec fn log_count(h: HistoryView, k: Seq<DecisionFactor>, d: Decision) -> int
    decreases h.len(),
{
    if h.len() == 0 {
        0
    } else {
        log_count(h.drop_last(), k, d) + if h.last().1 == k && h.last().2 == d {
            1int
        } else {
            0int
        }
    }
}

/// A weight after `c` reinforcements of `f` each, capped at `u32::MAX`.
pub open spec fn sat_add_mult(w: u32, f: u32, c: int) -> u32 {
    if w + f * c > u32::MAX {
        u32::MAX
    } else {
        (w + f * c) as u32
    }
}

/// The policy stored under `k` after the whole log has been replayed:
/// every action's weight grows by the reward factor once per log occurrence
/// of `(k, action)`.
pub open spec fn rewarded_maker_spec(
    m: DecisionMaker,
    k: Seq<DecisionFactor>,
    h: HistoryView,
    f: u32,
) -> DecisionMaker {
    DecisionMaker {
        move_up: sat_add_mult(m.move_up, f, log_count(h, k, Decision::MoveUp)),
        move_down: sat_add_mult(m.move_down, f, log_count(h, k, Decision::MoveDown)),
        move_left: sat_add_mult(m.move_left, f, log_count(h, k, Decision::MoveLeft)),
        move_right: sat_add_mult(m.move_right, f, log_count(h, k, Decision::MoveRight)),
        interact: sat_add_mult(m.interact, f, log_count(h, k, Decision::Interact)),
        build: sat_add_mult(m.build, f, log_count(h, k, Decision::Build)),
        wait: sat_add_mult(m.wait, f, log_count(h, k, Decision::Wait)),
    }
}

/// How a mutated copy relates to its base: same keys in the same order, an
/// empty decision log, and every weight moved by exactly the mutation
/// magnitude (up, capped, or down, clamped at zero).
pub open spec fn mutated_from(m: DecisionMakingTree, base: DecisionMakingTree, mu: u32) -> bool {
    &&& m.history_view().len() == 0
    &&& m.chain_view().len() == base.chain_view().len()
    &&& forall|i: int|
        0 <= i < base.chain_view().len() ==> (#[trigger] m.chain_view()[i]).0
            == base.chain_view()[i].0
    &&& forall|i: int, d: Decision|
        0 <= i < base.chain_view().len() ==> mutated_w(
            base.chain_view()[i].1.spec_weight(d),
            #[trigger] (m.chain_view()[i].1.spec_weight(d)),
            mu,
        )
}

/// How a rewarded copy relates to the table it reinforces: the same log,
/// the same keys in the same order, and every policy replaced by its
/// log-replayed reinforcement.
pub open spec fn rewarded_from(r: DecisionMakingTree, w: DecisionMakingTree, f: u32) -> bool {
    &&& r.history_view() == w.history_view()
    &&& r.chain_view().len() == w.chain_view().len()
    &&& forall|i: int|
        0 <= i < w.chain_view().len() ==> #[trigger] r.chain_view()[i] == (
            w.chain_view()[i].0,
            rewarded_maker_spec(
                w.chain_view()[i].1,
                w.chain_view()[i].0,
                w.history_view(),
                f,
            ),
        )
}

/// A lookup in a mutated or rewarded copy finds the same entries: the copy
/// keeps its base's keys.
pub proof fn lemma_pointwise_keys_preserve_has_key(c1: ChainView, c2: ChainView, k: Seq<
    DecisionFactor,
>)
    requires
        c1.len() == c2.len(),
        forall|i: int| 0 <= i < c1.len() ==> (#[trigger] c2[i]).0 == c1[i].0,
        has_key(c1, k),
    ensures
        has_key(c2, k),
{
    lemma_find_pointwise_update(c1, c2, k);
}

/// A log never counts a pair negatively often.
pub proof fn lemma_log_count_nonneg(h: HistoryView, k: Seq<DecisionFactor>, d: Decision)
    ensures
        log_count(h, k, d) >= 0,
    decreases h.len(),
{
    if h.len() > 0 {
        lemma_log_count_nonneg(h.drop_last(), k, d);
    }
}

/// A scan that first matches at `i` agrees with `spec_find`.
pub proof fn lemma_find_at(chain: ChainView, k: Seq<DecisionFactor>, i: int)
    requires
        0 <= i < chain.len(),
        chain[i].0 == k,
        forall|j: int| 0 <= j < i ==> chain[j].0 != k,
    ensures
        spec_find(chain, k) == Some(chain[i].1),
    decreases i,
{
    if i > 0 {
        lemma_find_at(chain.drop_first(), k, i - 1);
    }
}

/// A scan that matches nowhere agrees with `spec_find`.
pub proof fn lemma_find_none(chain: ChainView, k: Seq<DecisionFactor>)
    requires
        forall|j: int| 0 <= j < chain.len() ==> chain[j].0 != k,
    ensures
        spec_find(chain, k) is None,
    decreases chain.len(),
{
    if chain.len() > 0 {
        lemma_find_none(chain.drop_first(), k);
    }
}

/// Appending an entry for a missing key makes that entry the one found.
pub proof fn lemma_find_push_missing(chain: ChainView, k: Seq<DecisionFactor>, m: DecisionMaker)
    requires
        spec_find(chain, k) is None,
    ensures
        spec_find(chain.push((k, m)), k) == Some(m),
    decreases chain.len(),
{
    if chain.len() == 0 {
    } else {
        assert(chain.push((k, m)).drop_first() =~= chain.drop_first().push((k, m)));
        lemma_find_push_missing(chain.drop_first(), k, m);
    }
}

/// Appending an entry for one key never changes what another key finds.
pub proof fn lemma_find_push_other(
    chain: ChainView,
    k: Seq<DecisionFactor>,
    m: DecisionMaker,
    k2: Seq<DecisionFactor>,
)
    requires
        k2 != k,
    ensures
        spec_find(chain.push((k, m)), k2) == spec_find(chain, k2),
    decreases chain.len(),
{
    if chain.len() == 0 {
        assert(chain.push((k, m))[0] == (k, m));
        assert(chain.push((k, m)).drop_first() =~= ChainView::empty());
    } else {
        assert(chain.push((k, m))[0] == chain[0]);
        assert(chain.push((k, m)).drop_first() =~= chain.drop_first().push((k, m)));
        lemma_find_push_other(chain.drop_first(), k, m, k2);
    }
}

/// Lookup-or-create is idempotent: the first call leaves an entry under the
/// key, and a second call with the same key changes nothing, so both callers
/// observe one shared entry whose later updates both will see.
pub proof fn lemma_get_or_create_idempotent(chain: ChainView, k: Seq<DecisionFactor>)
    ensures
        has_key(chain_after_get(chain, k), k),
        chain_after_get(chain_after_get(chain, k), k) == chain_after_get(chain, k),
{
    if !has_key(chain, k) {
        lemma_find_push_missing(chain, k, DecisionMaker::default_spec());
    }
}

/// When every entry keeps its key and only the policies change, a lookup
/// finds the updated policy of exactly the entry it found before: an update
/// made through the table is visible to every later lookup of that key.
pub proof fn lemma_find_pointwise_update(c1: ChainView, c2: ChainView, k: Seq<DecisionFactor>)
    requires
        c1.len() == c2.len(),
        forall|i: int| 0 <= i < c1.len() ==> (#[trigger] c2[i]).0 == c1[i].0,
    ensures
        spec_find(c1, k) is None ==> spec_find(c2, k) is None,
        spec_find(c1, k) is Some ==> exists|i: int|
            0 <= i < c1.len() && #[trigger] c1[i].0 == k && spec_find(c1, k) == Some(c1[i].1)
                && spec_find(c2, k) == Some(c2[i].1),
    decreases c1.len(),
{
    if c1.len() > 0 {
        if c1[0].0 == k {
            assert(spec_find(c1, k) == Some(c1[0].1));
            assert(spec_find(c2, k) == Some(c2[0].1));
        } else {
            lemma_find_pointwise_update(c1.drop_first(), c2.drop_first(), k);
            if spec_find(c1, k) is Some {
                let i = choose|i: int|
                    0 <= i < c1.drop_first().len() && #[trigger] c1.drop_first()[i].0 == k
                        && spec_find(c1.drop_first(), k) == Some(c1.drop_first()[i].1) && spec_find(
                        c2.drop_first(),
                        k,
                    ) == Some(c2.drop_first()[i].1);
                assert(c1[i + 1].0 == k && spec_find(c1, k) == Some(c1[i + 1].1) && spec_find(
                    c2,
                    k,
                ) == Some(c2[i + 1].1));
            }
        }
    }
}

/// The trainable policy: lazily created `DecisionMaker` entries keyed by
/// canonical state keys, plus the ordered decision log of the current run.
#[derive(Debug)]
pub struct DecisionMakingTree {
    pub decision_chain: Vec<(Vec<DecisionFactor>, DecisionMaker)>,
    pub decision_history: Vec<(u128, Vec<DecisionFactor>, Decision)>,
}

impl DecisionMakingTree {
    /// The table entries, keys taken by view.
    pub open spec fn chain_view(self) -> ChainView {
        chain_view_of(self.decision_chain@)
    }

    /// The decision log, keys taken by view.
    pub open spec fn history_view(self) -> HistoryView {
        history_view_of(self.decision_history@)
    }

    /// A well-formed table: keys are unique and every logged key has an
    /// entry.
    pub open spec fn wf(self) -> bool {
        &&& keys_unique(self.chain_view())
        &&& forall|i: int|
            0 <= i < self.history_view().len() ==> has_key(
                self.chain_view(),
                (#[trigger] self.history_view()[i]).1,
            )
    }

    /// An empty table: no entries, no log.
    pub fn new() -> (t: DecisionMakingTree)
        ensures
            t.chain_view().len() == 0,
            t.history_view().len() == 0,
            t.wf(),
    {
        let t = DecisionMakingTree { decision_chain: Vec::new(), decision_history: Vec::new() };
        proof {
            assert(t.chain_view() =~= Seq::<(Seq<DecisionFactor>, DecisionMaker)>::empty());
            assert(t.history_view() =~= Seq::<(u128, Seq<DecisionFactor>, Decision)>::empty());
        }
        t
    }

    /// The index of the first entry whose key equals `key`, if any.
    fn find_index(&self, key: &Vec<DecisionFactor>) -> (r: Option<usize>)
        ensures
            match r {
                Some(i) => 0 <= i < self.chain_view().len() && self.chain_view()[i as int].0
                    == key@ && forall|j: int| 0 <= j < i ==> self.chain_view()[j].0 != key@,
                None => forall|j: int|
                    0 <= j < self.chain_view().len() ==> self.chain_view()[j].0 != key@,
            },
    {
        let mut i: usize = 0;
        while i < self.decision_chain.len()
            invariant
                0 <= i <= self.chain_view().len(),
                self.chain_view().len() == self.decision_chain@.len(),
                forall|j: int| 0 <= j < i ==> self.chain_view()[j].0 != key@,
            decreases self.decision_chain@.len() - i,
        {
            let pair = &self.decision_chain[i];
            if keys_equal(&pair.0, key) {
                return Some(i);
            }
            i = i + 1;
        }
        None
    }

    /// Returns the policy stored under `key`, if any (a value copy; the
    /// entry itself stays in the table).
    pub fn lookup(&self, key: &Vec<DecisionFactor>) -> (r: Option<DecisionMaker>)
        ensures
            r == spec_find(self.chain_view(), key@),
    {
        match self.find_index(key) {
            Some(i) => {
                proof {
                    lemma_find_at(self.chain_view(), key@, i as int);
                }
                Some(self.decision_chain[i].1)
            },
            None => {
                proof {
                    lemma_find_none(self.chain_view(), key@);
                }
                None
            },
        }
    }

    /// Inserts a fresh default policy under a key not yet present, and
    /// returns that policy.
    pub fn generate_default_decision_maker(&mut self, vdf: Vec<DecisionFactor>) -> (m:
        DecisionMaker)
        requires
            !has_key(old(self).chain_view(), vdf@),
        ensures
            m == DecisionMaker::default_spec(),
            final(self).chain_view() == old(self).chain_view().push(
                (vdf@, DecisionMaker::default_spec()),
            ),
            final(self).history_view() == old(self).history_view(),
    {
        let m = DecisionMaker::default();
        self.decision_chain.push((vdf, m));
        proof {
            assert(final(self).chain_view() =~= old(self).chain_view().push(
                (vdf@, DecisionMaker::default_spec()),
            ));
        }
        m
    }

    /// Returns the policy for `vdf`, creating a default entry on first
    /// lookup. Repeated lookups of the same key hit the same entry, so
    /// updates made through the table persist.
    pub fn get_decision_maker(&mut self, vdf: Vec<DecisionFactor>) -> (m: DecisionMaker)
        requires
            old(self).wf(),
        ensures
            final(self).wf(),
            final(self).chain_view() == chain_after_get(old(self).chain_view(), vdf@),
            final(self).history_view() == old(self).history_view(),
            spec_find(final(self).chain_view(), vdf@) == Some(m),
            has_key(old(self).chain_view(), vdf@) ==> spec_find(old(self).chain_view(), vdf@)
                == Some(m),
            !has_key(old(self).chain_view(), vdf@) ==> m == DecisionMaker::default_spec(),
    {
        match self.find_index(&vdf) {
            Some(i) => {
                proof {
                    lemma_find_at(self.chain_view(), vdf@, i as int);
                }
                self.decision_chain[i].1
            },
            None => {
                proof {
                    lemma_find_none(self.chain_view(), vdf@);
                }
                let ghost pre = self.chain_view();
                let ghost key = vdf@;
                let m = self.generate_default_decision_maker(vdf);
                proof {
                    lemma_find_push_missing(pre, key, DecisionMaker::default_spec());
                    let c2 = self.chain_view();
                    let h2 = self.history_view();
                    assert forall|i: int| 0 <= i < h2.len() implies has_key(
                        c2,
                        (#[trigger] h2[i]).1,
                    ) by {
                        let hk = h2[i].1;
                        if hk == key {
                        } else {
                            lemma_find_push_other(pre, key, DecisionMaker::default_spec(), hk);
                        }
                    }
                    assert forall|i: int, j: int| 0 <= i < j < c2.len() implies c2[i].0
                        != c2[j].0 by {
                        if j == c2.len() - 1 {
                            if c2[i].0 == key {
                                lemma_find_at(pre, key, i);
                            }
                        }
                    }
                }
                m
            },
        }
    }

    /// Discretizes the agent's surroundings into the canonical state key
    /// used to look this table up.
    pub fn calculate_decision_factors(&self, a: &Animal, ve: &Vec<Environment>) -> (r: Vec<
        DecisionFactor,
    >)
        requires
            pos_sane(a.position),
            forall|i: int| 0 <= i < ve@.len() ==> pos_sane(#[trigger] ve@[i].position),
        ensures
            r@ == spec_state_key(*a, ve@),
    {
        state_key(a, ve)
    }

    /// Resolves the policy for a key (creating it if missing) and samples an
    /// action from it.
    fn make_a_decision_impl(&mut self, vdf: Vec<DecisionFactor>, rng: &mut oorandom::Rand32) -> (d:
        Decision)
        requires
            old(self).wf(),
        ensures
            final(self).wf(),
            final(self).chain_view() == chain_after_get(old(self).chain_view(), vdf@),
            final(self).history_view() == old(self).history_view(),
            spec_find(final(self).chain_view(), vdf@) matches Some(m) && sampled_from(m, d),
    {
        let decision_maker = self.get_decision_maker(vdf);
        decision_maker.make_decision(rng)
    }

    /// One decision: builds the canonical state key of what the agent sees,
    /// resolves or creates that key's policy, samples an action from it, and
    /// appends `(tick, key, action)` to the decision log.
    pub fn make_a_decision(
        &mut self,
        tick: u128,
        a: &Animal,
        ve: Vec<Environment>,
        rng: &mut oorandom::Rand32,
    ) -> (d: Decision)
        requires
            old(self).wf(),
            pos_sane(a.position),
            forall|i: int| 0 <= i < ve@.len() ==> pos_sane(#[trigger] ve@[i].position),
        ensures
            final(self).wf(),
            final(self).chain_view() == chain_after_get(
                old(self).chain_view(),
                spec_state_key(*a, ve@),
            ),
            final(self).history_view() == old(self).history_view().push(
                (tick, spec_state_key(*a, ve@), d),
            ),
            spec_find(final(self).chain_view(), spec_state_key(*a, ve@)) matches Some(m)
                && sampled_from(m, d),
    {
        let vdf = self.calculate_decision_factors(a, &ve);
        let vdc = copy_key(&vdf);
        let ghost key = vdf@;
        let decision = self.make_a_decision_impl(vdf, rng);
        let ghost mid = *self;
        self.decision_history.push((tick, vdc, decision));
        proof {
            assert(self.history_view() =~~= mid.history_view().push((tick, key, decision)));
            assert forall|i: int| 0 <= i < self.history_view().len() implies has_key(
                self.chain_view(),
                (#[trigger] self.history_view()[i]).1,
            ) by {
                if i < mid.history_view().len() {
                    assert(has_key(mid.chain_view(), mid.history_view()[i].1));
                }
            }
        }
        decision
    }

    /// Decides well-formedness: whether all keys are unique and every
    /// logged key has an entry. Exactly the `wf` predicate, decided at run
    /// time (for tables that arrive from outside the library, say from
    /// storage).
    pub fn check_wf(&self) -> (r: bool)
        ensures
            r == self.wf(),
    {
        let mut i: usize = 0;
        while i < self.decision_chain.len()
            invariant
                0 <= i <= self.decision_chain@.len(),
                forall|p: int, q: int|
                    0 <= p < q < self.chain_view().len() && p < i ==> self.chain_view()[p].0
                        != self.chain_view()[q].0,
            decreases self.decision_chain@.len() - i,
        {
            let mut j: usize = i + 1;
            while j < self.decision_chain.len()
                invariant
                    0 <= i < j <= self.decision_chain@.len(),
                    forall|q: int|
                        i < q < j ==> self.chain_view()[i as int].0 != self.chain_view()[q].0,
                decreases self.decision_chain@.len() - j,
            {
                let pi = &self.decision_chain[i];
                let pj = &self.decision_chain[j];
                if keys_equal(&pi.0, &pj.0) {
                    proof {
                        assert(self.chain_view()[i as int].0 == self.decision_chain@[i as int].0@);
                        assert(self.chain_view()[j as int].0 == self.decision_chain@[j as int].0@);
                        assert(!keys_unique(self.chain_view()));
                    }
                    return false;
                }
                j = j + 1;
            }
            i = i + 1;
        }
        let mut h: usize = 0;
        while h < self.decision_history.len()
            invariant
                0 <= h <= self.decision_history@.len(),
                forall|p: int, q: int|
                    0 <= p < q < self.chain_view().len() ==> self.chain_view()[p].0
                        != self.chain_view()[q].0,
                forall|p: int|
                    0 <= p < h ==> has_key(
                        self.chain_view(),
                        (#[trigger] self.history_view()[p]).1,
                    ),
            decreases self.decision_history@.len() - h,
        {
            let entry = &self.decision_history[h];
            match self.find_index(&entry.1) {
                Some(ix) => {
                    proof {
                        lemma_find_at(self.chain_view(), self.history_view()[h as int].1, ix as int);
                    }
                },
                None => {
                    proof {
                        lemma_find_none(self.chain_view(), self.history_view()[h as int].1);
                    }
                    return false;
                },
            }
            h = h + 1;
        }
        true
    }

    /// A deep copy of this table with every entry's weights perturbed by
    /// exactly the mutation magnitude (up or down at random, clamped at
    /// zero), under the same keys. The copy starts with an empty decision
    /// log: a log belongs to one run. The receiver is untouched.
    pub fn mutate(&self, mutate_factor: u32, rng: &mut oorandom::Rand32) -> (r: DecisionMakingTree)
        ensures
            mutated_from(r, *self, mutate_factor),
            self.wf() ==> r.wf(),
    {
        let mut chain: Vec<(Vec<DecisionFactor>, DecisionMaker)> = Vec::new();
        let mut i: usize = 0;
        while i < self.decision_chain.len()
            invariant
                0 <= i <= self.decision_chain@.len(),
                chain@.len() == i,
                forall|k: int|
                    0 <= k < i ==> (#[trigger] chain_view_of(chain@)[k]).0
                        == self.chain_view()[k].0,
                forall|k: int, d: Decision|
                    0 <= k < i ==> mutated_w(
                        self.chain_view()[k].1.spec_weight(d),
                        #[trigger] (chain_view_of(chain@)[k].1.spec_weight(d)),
                        mutate_factor,
                    ),
            decreases self.decision_chain@.len() - i,
        {
            let pair = &self.decision_chain[i];
            let key2 = copy_key(&pair.0);
            let mut m2 = pair.1;
            m2.mutate_chance(mutate_factor, rng);
            let ghost pre = chain@;
            chain.push((key2, m2));
            proof {
                assert(forall|k: int|
                    0 <= k < i ==> #[trigger] chain_view_of(chain@)[k] == chain_view_of(pre)[k]);
                assert(chain_view_of(chain@)[i as int].0 == key2@);
                assert(chain_view_of(chain@)[i as int].1 == m2);
            }
            i = i + 1;
        }
        let r = DecisionMakingTree { decision_chain: chain, decision_history: Vec::new() };
        proof {
            assert(r.history_view() =~= Seq::<(u128, Seq<DecisionFactor>, Decision)>::empty());
            if self.wf() {
                assert forall|p: int, q: int|
                    0 <= p < q < r.chain_view().len() implies r.chain_view()[p].0
                    != r.chain_view()[q].0 by {
                    assert(self.chain_view()[p].0 != self.chain_view()[q].0);
                }
            }
        }
        r
    }

    /// A deep copy of this table in which, for every logged `(tick, key,
    /// action)`, that key's policy has `action`'s weight raised by the reward
    /// factor (capped): each weight grows by `reward_factor` once per log
    /// occurrence. Unlogged weights are untouched; keys and the log carry
    /// over; the receiver is untouched.
    pub fn reward(&self, reward_factor: u32) -> (r: DecisionMakingTree)
        ensures
            rewarded_from(r, *self, reward_factor),
            self.wf() ==> r.wf(),
    {
        let mut chain: Vec<(Vec<DecisionFactor>, DecisionMaker)> = Vec::new();
        let mut i: usize = 0;
        while i < self.decision_chain.len()
            invariant
                0 <= i <= self.decision_chain@.len(),
                chain@.len() == i,
                forall|k: int|
                    0 <= k < i ==> #[trigger] chain_view_of(chain@)[k] == (
                        self.chain_view()[k].0,
                        rewarded_maker_spec(
                            self.chain_view()[k].1,
                            self.chain_view()[k].0,
                            self.history_view(),
                            reward_factor,
                        ),
                    ),
            decreases self.decision_chain@.len() - i,
        {
            let pair = &self.decision_chain[i];
            let key2 = copy_key(&pair.0);
            let m2 = rewarded_maker(&pair.1, &pair.0, &self.decision_history, reward_factor);
            let ghost pre = chain@;
            chain.push((key2, m2));
            proof {
                assert(forall|k: int|
                    0 <= k < i ==> #[trigger] chain_view_of(chain@)[k] == chain_view_of(pre)[k]);
                assert(chain_view_of(chain@)[i as int].0 == key2@);
                assert(chain_view_of(chain@)[i as int].1 == m2);
            }
            i = i + 1;
        }
        let hist2 = copy_history(&self.decision_history);
        let r = DecisionMakingTree { decision_chain: chain, decision_history: hist2 };
        proof {
            if self.wf() {
                assert forall|p: int, q: int|
                    0 <= p < q < r.chain_view().len() implies r.chain_view()[p].0
                    != r.chain_view()[q].0 by {
                    assert(self.chain_view()[p].0 != self.chain_view()[q].0);
                }
                assert forall|p: int| 0 <= p < r.history_view().len() implies has_key(
                    r.chain_view(),
                    (#[trigger] r.history_view()[p]).1,
                ) by {
                    let hk = r.history_view()[p].1;
                    assert(r.history_view()[p] == self.history_view()[p]);
                    assert(has_key(self.chain_view(), hk));
                    lemma_find_pointwise_update(self.chain_view(), r.chain_view(), hk);
                }
            }
        }
        r
    }
}

/// Whether two keys hold the same factors in the same order.
pub fn keys_equal(a: &Vec<DecisionFactor>, b: &Vec<DecisionFactor>) -> (r: bool)
    ensures
        r == (a@ == b@),
{
    if a.len() != b.len() {
        return false;
    }
    let mut i: usize = 0;
    while i < a.len()
        invariant
            0 <= i <= a@.len(),
            a@.len() == b@.len(),
            forall|k: int| 0 <= k < i ==> a@[k] == b@[k],
        decreases a@.len() - i,
    {
        if !(a[i] == b[i]) {
            return false;
        }
        i = i + 1;
    }
    proof {
        assert(a@ =~= b@);
    }
    true
}

/// A value copy of a key.
pub fn copy_key(k: &Vec<DecisionFactor>) -> (r: Vec<DecisionFactor>)
    ensures
        r@ == k@,
{
    let mut r: Vec<DecisionFactor> = Vec::new();
    let mut i: usize = 0;
    while i < k.len()
        invariant
            0 <= i <= k@.len(),
            r@ == k@.take(i as int),
        decreases k@.len() - i,
    {
        r.push(k[i]);
        proof {
            assert(k@.take(i + 1) =~= k@.take(i as int).push(k@[i as int]));
        }
        i = i + 1;
    }
    proof {
        assert(k@.take(k@.len() as int) =~= k@);
    }
    r
}

/// Counts the occurrences of `(key, d)` in a decision log.
fn count_matches(
    h: &Vec<(u128, Vec<DecisionFactor>, Decision)>,
    key: &Vec<DecisionFactor>,
    d: Decision,
) -> (c: usize)
    ensures
        c as int == log_count(history_view_of(h@), key@, d),
{
    let ghost hv = history_view_of(h@);
    let mut c: usize = 0;
    let mut i: usize = 0;
    proof {
        assert(hv.take(0) =~= Seq::<(u128, Seq<DecisionFactor>, Decision)>::empty());
    }
    while i < h.len()
        invariant
            0 <= i <= h@.len(),
            hv == history_view_of(h@),
            hv.len() == h@.len(),
            c <= i,
            c as int == log_count(hv.take(i as int), key@, d),
        decreases h@.len() - i,
    {
        let t = &h[i];
        let same_key = keys_equal(&t.1, key);
        if same_key && t.2 == d {
            c = c + 1;
        }
        proof {
            assert(hv.take(i + 1).drop_last() =~= hv.take(i as int));
            assert(hv.take(i + 1).last() == hv[i as int]);
        }
        i = i + 1;
    }
    proof {
        assert(hv.take(hv.len() as int) =~= hv);
    }
    c
}

/// One weight after `c` reinforcements of `f` each, capped at `u32::MAX`.
fn apply_reward_weight(w: u32, f: u32, c: usize) -> (r: u32)
    ensures
        r == sat_add_mult(w, f, c as int),
{
    proof {
        assert((f as u128) * (c as u128) <= 0xffff_ffffu128 * 0xffff_ffff_ffff_ffffu128)
            by (nonlinear_arith)
            requires
                (f as u128) <= 0xffff_ffffu128,
                (c as u128) <= 0xffff_ffff_ffff_ffffu128,
        ;
    }
    let prod: u128 = (f as u128) * (c as u128);
    let tot: u128 = (w as u128) + prod;
    if tot > 0xffff_ffffu128 {
        u32::MAX
    } else {
        tot as u32
    }
}

/// One table entry after the whole log has been replayed with reward `f`.
fn rewarded_maker(
    m: &DecisionMaker,
    key: &Vec<DecisionFactor>,
    h: &Vec<(u128, Vec<DecisionFactor>, Decision)>,
    f: u32,
) -> (r: DecisionMaker)
    ensures
        r == rewarded_maker_spec(*m, key@, history_view_of(h@), f),
{
    DecisionMaker {
        move_up: apply_reward_weight(m.move_up, f, count_matches(h, key, Decision::MoveUp)),
        move_down: apply_reward_weight(m.move_down, f, count_matches(h, key, Decision::MoveDown)),
        move_left: apply_reward_weight(m.move_left, f, count_matches(h, key, Decision::MoveLeft)),
        move_right: apply_reward_weight(
            m.move_right,
            f,
            count_matches(h, key, Decision::MoveRight),
        ),
        interact: apply_reward_weight(m.interact, f, count_matches(h, key, Decision::Interact)),
        build: apply_reward_weight(m.build, f, count_matches(h, key, Decision::Build)),
        wait: apply_reward_weight(m.wait, f, count_matches(h, key, Decision::Wait)),
    }
}

/// A value copy of a decision log.
fn copy_history(h: &Vec<(u128, Vec<DecisionFactor>, Decision)>) -> (r: Vec<
    (u128, Vec<DecisionFactor>, Decision),
>)
    ensures
        history_view_of(r@) == history_view_of(h@),
{
    let mut r: Vec<(u128, Vec<DecisionFactor>, Decision)> = Vec::new();
    let mut i: usize = 0;
    proof {
        assert(history_view_of(r@) =~= history_view_of(h@).take(0));
    }
    while i < h.len()
        invariant
            0 <= i <= h@.len(),
            r@.len() == i,
            history_view_of(r@) == history_view_of(h@).take(i as int),
        decreases h@.len() - i,
    {
        let t = &h[i];
        let k2 = copy_key(&t.1);
        r.push((t.0, k2, t.2));
        proof {
            assert(history_view_of(r@) =~~= history_view_of(h@).take(i + 1));
        }
        i = i + 1;
    }
    proof {
        assert(history_view_of(h@).take(h@.len() as int) =~= history_view_of(h@));
    }
    r
}

/// Reward reinforces exactly what the log holds: a weight whose action
/// appears in the log under its key grows by the reward factor once per
/// occurrence (never shrinking, and strictly growing for a positive factor
/// unless already at the cap), while a weight whose `(key, action)` pair
/// never appears in the log is untouched, whatever the log and table.
pub proof fn lemma_reward_reinforces_logged(
    m: DecisionMaker,
    k: Seq<DecisionFactor>,
    h: HistoryView,
    f: u32,
    d: Decision,
)
    ensures
        rewarded_maker_spec(m, k, h, f).spec_weight(d) == sat_add_mult(
            m.spec_weight(d),
            f,
            log_count(h, k, d),
        ),
        log_count(h, k, d) == 0 ==> rewarded_maker_spec(m, k, h, f).spec_weight(d)
            == m.spec_weight(d),
        f == 0 ==> rewarded_maker_spec(m, k, h, f).spec_weight(d) == m.spec_weight(d),
        rewarded_maker_spec(m, k, h, f).spec_weight(d) >= m.spec_weight(d),
        log_count(h, k, d) > 0 && f > 0 && m.spec_weight(d) < u32::MAX
            ==> rewarded_maker_spec(m, k, h, f).spec_weight(d) > m.spec_weight(d),
{
    lemma_log_count_nonneg(h, k, d);
    let c = log_count(h, k, d);
    assert(f as int * c >= 0) by (nonlinear_arith)
        requires
            f >= 0,
            c >= 0,
    ;
    if c > 0 && f > 0 {
        assert(f as int * c >= f) by (nonlinear_arith)
            requires
                f >= 0,
                c >= 1,
        ;
    }
}

} // verus!
