//! Perception: discretizing the agent's surroundings into a canonical state
//! key.
//!
//! Every visible object becomes one `DecisionFactor`; the agent's own hp is
//! appended as a vitals factor. The factor list is then sorted into a fixed
//! total order, so that the same set of observations yields the same key
//! whatever order the objects were enumerated in.
use vstd::prelude::*;
use vstd::relations::{sorted_by, total_ordering};
use crate::world::{Animal, Environment, EnvironmentTag, pos_sane, spec_distance};

verus! {

/// The dominant-axis direction from the agent towards an object.
#[derive(Clone, Copy, Debug, PartialEq, Eq, Structural)]
pub enum Direction {
    Up,
    Down,
    Right,
    Left,
}

/// One observed fact about the world.
#[derive(Clone, Copy, Debug, PartialEq, Eq, Structural)]
pub enum DecisionFactor {
    /// A visible object somewhere else: its distance, dominant direction and
    /// kind.
    DistanceDirection(u32, Direction, EnvironmentTag),
    /// An object on the agent's own cell.
    CurrentLocation(EnvironmentTag),
    /// The agent's hp.
    CurrentHp(i32),
}

/// The rank of a direction in the canonical factor order.
pub open spec fn dir_rank(d: Direction) -> int {
    match d {
        Direction::Up => 0,
        Direction::Down => 1,
        Direction::Right => 2,
        Direction::Left => 3,
    }
}

/// The rank of an object kind in the canonical factor order.
pub open spec fn tag_rank(t: EnvironmentTag) -> int {
    match t {
        EnvironmentTag::DANGER => 0,
        EnvironmentTag::CHALLENGE => 1,
        EnvironmentTag::SHELTER => 2,
        EnvironmentTag::DEFAULT => 3,
    }
}

/// A factor as a 4-tuple of integers; the canonical order is the
/// lexicographic order of these tuples. The encoding is injective.
pub open spec fn factor_key(f: DecisionFactor) -> (int, int, int, int) {
    match f {
        DecisionFactor::DistanceDirection(dis, dir, tag) => (
            0int,
            dis as int,
            dir_rank(dir),
            tag_rank(tag),
        ),
        DecisionFactor::CurrentLocation(tag) => (1int, tag_rank(tag), 0int, 0int),
        DecisionFactor::CurrentHp(hp) => (2int, hp as int, 0int, 0int),
    }
}

/// Lexicographic order on factor keys.
pub open spec fn lex_le(a: (int, int, int, int), b: (int, int, int, int)) -> bool {
    a.0 < b.0 || (a.0 == b.0 && (a.1 < b.1 || (a.1 == b.1 && (a.2 < b.2 || (a.2 == b.2 && a.3
        <= b.3)))))
}

/// The canonical total order on factors.
pub open spec fn spec_factor_le(x: DecisionFactor, y: DecisionFactor) -> bool {
    lex_le(factor_key(x), factor_key(y))
}

/// The canonical order as a relation value, for use with sequence sorting.
pub open spec fn factor_leq() -> spec_fn(DecisionFactor, DecisionFactor) -> bool {
    |x: DecisionFactor, y: DecisionFactor| spec_factor_le(x, y)
}

/// The canonical factor order is a total order: reflexive, antisymmetric,
/// transitive and strongly connected.
pub proof fn lemma_factor_le_total()
    ensures
        total_ordering(factor_leq()),
{
    let leq = factor_leq();
    assert forall|x: DecisionFactor, y: DecisionFactor| #[trigger]
        leq(x, y) && #[trigger] leq(y, x) implies x == y by {
        assert(factor_key(x) == factor_key(y));
    }
    assert(vstd::relations::reflexive(leq)) by {
        assert forall|x: DecisionFactor| #[trigger] leq(x, x) by {}
    }
    assert(vstd::relations::strongly_connected(leq)) by {
        assert forall|x: DecisionFactor, y: DecisionFactor| #[trigger]
            leq(x, y) || #[trigger] leq(y, x) by {}
    }
    assert(vstd::relations::transitive(leq)) by {
        assert forall|x: DecisionFactor, y: DecisionFactor, z: DecisionFactor| #[trigger]
            leq(x, y) && #[trigger] leq(y, z) implies leq(x, z) by {}
    }
}

/// A factor's key as machine integers (ranks fit in a byte, the numeric
/// fields in an `i64`).
fn exec_factor_key(f: &DecisionFactor) -> (k: (u8, i64, u8, u8))
    ensures
        k.0 as int == factor_key(*f).0,
        k.1 as int == factor_key(*f).1,
        k.2 as int == factor_key(*f).2,
        k.3 as int == factor_key(*f).3,
{
    match f {
        DecisionFactor::DistanceDirection(dis, dir, tag) => {
            let dr: u8 = match dir {
                Direction::Up => 0,
                Direction::Down => 1,
                Direction::Right => 2,
                Direction::Left => 3,
            };
            let tr: u8 = match tag {
                EnvironmentTag::DANGER => 0,
                EnvironmentTag::CHALLENGE => 1,
                EnvironmentTag::SHELTER => 2,
                EnvironmentTag::DEFAULT => 3,
            };
            (0, *dis as i64, dr, tr)
        },
        DecisionFactor::CurrentLocation(tag) => {
            let tr: u8 = match tag {
                EnvironmentTag::DANGER => 0,
                EnvironmentTag::CHALLENGE => 1,
                EnvironmentTag::SHELTER => 2,
                EnvironmentTag::DEFAULT => 3,
            };
            (1, tr as i64, 0, 0)
        },
        DecisionFactor::CurrentHp(hp) => (2, *hp as i64, 0, 0),
    }
}

/// Decides the canonical order between two factors.
pub fn factor_le(x: &DecisionFactor, y: &DecisionFactor) -> (r: bool)
    ensures
        r == spec_factor_le(*x, *y),
{
    let a = exec_factor_key(x);
    let b = exec_factor_key(y);
    a.0 < b.0 || (a.0 == b.0 && (a.1 < b.1 || (a.1 == b.1 && (a.2 < b.2 || (a.2 == b.2 && a.3
        <= b.3)))))
}

/// Inserts a factor into a sorted list, keeping it sorted.
fn insert_sorted(r: &mut Vec<DecisionFactor>, x: DecisionFactor)
    requires
        sorted_by(old(r)@, factor_leq()),
    ensures
        sorted_by(final(r)@, factor_leq()),
        final(r)@.to_multiset() == old(r)@.to_multiset().insert(x),
{
    proof {
        lemma_factor_le_total();
    }
    let mut i: usize = 0;
    while i < r.len() && factor_le(&r[i as usize], &x)
        invariant
            0 <= i <= r@.len(),
            sorted_by(r@, factor_leq()),
            forall|k: int| 0 <= k < i ==> spec_factor_le(#[trigger] r@[k], x),
        decreases r@.len() - i,
    {
        i = i + 1;
    }
    proof {
        lemma_factor_le_total();
        broadcast use vstd::seq_lib::to_multiset_insert;

        if i < r@.len() {
            assert(!spec_factor_le(r@[i as int], x));
            assert(spec_factor_le(x, r@[i as int]));
        }
    }
    let ghost pre = r@;
    r.insert(i, x);
    proof {
        lemma_factor_le_total();
        assert forall|p: int, q: int| 0 <= p < q < r@.len() implies #[trigger] factor_leq()(
            r@[p],
            r@[q],
        ) by {
            let leq = factor_leq();
            if q < i {
                assert(r@[p] == pre[p] && r@[q] == pre[q]);
            } else if q == i {
                assert(r@[q] == x && r@[p] == pre[p]);
            } else {
                // q > i: r[q] is pre[q - 1], and x <= pre[j] for j >= i
                if p < i {
                    assert(r@[p] == pre[p] && r@[q] == pre[q - 1]);
                    if i < pre.len() {
                    }
                } else if p == i {
                    assert(r@[p] == x && r@[q] == pre[q - 1]);
                    assert(spec_factor_le(x, pre[i as int]));
                    if q - 1 > i {
                        assert(leq(pre[i as int], pre[q - 1]));
                    }
                } else {
                    assert(r@[p] == pre[p - 1] && r@[q] == pre[q - 1]);
                }
            }
        }
    }
}

/// Sorts a factor list into the canonical order. The result is exactly the
/// mathematical sort of the input under the canonical total order.
pub fn sort_factors(v: Vec<DecisionFactor>) -> (r: Vec<DecisionFactor>)
    ensures
        r@ == v@.sort_by(factor_leq()),
{
    let mut r: Vec<DecisionFactor> = Vec::new();
    let mut i: usize = 0;
    proof {
        broadcast use vstd::seq_lib::group_to_multiset_ensures;

        assert(v@.take(0) =~= Seq::<DecisionFactor>::empty());
    }
    while i < v.len()
        invariant
            0 <= i <= v@.len(),
            sorted_by(r@, factor_leq()),
            r@.to_multiset() == v@.take(i as int).to_multiset(),
        decreases v@.len() - i,
    {
        proof {
            broadcast use vstd::seq_lib::group_to_multiset_ensures;

            assert(v@.take(i + 1) =~= v@.take(i as int).push(v@[i as int]));
        }
        insert_sorted(&mut r, v[i]);
        i = i + 1;
    }
    proof {
        lemma_factor_le_total();
        assert(v@.take(v@.len() as int) =~= v@);
        v@.lemma_sort_by_ensures(factor_leq());
        vstd::seq_lib::lemma_sorted_unique(r@, v@.sort_by(factor_leq()), factor_leq());
    }
    r
}

/// Two equal multisets of factors produce the identical state key, whatever
/// order the observations were made in: the canonical key is order-blind.
pub proof fn lemma_state_key_canonical(f1: Seq<DecisionFactor>, f2: Seq<DecisionFactor>)
    requires
        f1.to_multiset() == f2.to_multiset(),
    ensures
        f1.sort_by(factor_leq()) == f2.sort_by(factor_leq()),
{
    lemma_factor_le_total();
    f1.lemma_sort_by_ensures(factor_leq());
    f2.lemma_sort_by_ensures(factor_leq());
    vstd::seq_lib::lemma_sorted_unique(
        f1.sort_by(factor_leq()),
        f2.sort_by(factor_leq()),
        factor_leq(),
    );
}

/// The dominant-axis direction from the agent at `ap` towards `ep`: the axis
/// with the strictly larger absolute delta wins; on a tie the horizontal
/// axis (right/left) wins. The first coordinate is the vertical axis.
pub open spec fn spec_direction(ep: (i32, i32), ap: (i32, i32)) -> Direction {
    if vstd::math::abs(ep.0 as int - ap.0 as int) > vstd::math::abs(ep.1 as int - ap.1 as int) {
        if ep.0 > ap.0 {
            Direction::Up
        } else {
            Direction::Down
        }
    } else {
        if ep.1 > ap.1 {
            Direction::Right
        } else {
            Direction::Left
        }
    }
}

/// The factor one visible object contributes: an object on the agent's cell
/// is a `CurrentLocation`, any other a `DistanceDirection`.
pub open spec fn spec_factor_of(a: Animal, e: Environment) -> DecisionFactor {
    if e.position == a.position {
        DecisionFactor::CurrentLocation(e.tag)
    } else {
        DecisionFactor::DistanceDirection(
            spec_distance(e, a) as u32,
            spec_direction(e.position, a.position),
            e.tag,
        )
    }
}

/// The raw factor list: one factor per visible object, in their order, then
/// the agent's vitals.
pub open spec fn spec_factors(a: Animal, ve: Seq<Environment>) -> Seq<DecisionFactor> {
    ve.map_values(|e: Environment| spec_factor_of(a, e)).push(DecisionFactor::CurrentHp(a.hp))
}

/// The canonical state key of a perceptual situation.
pub open spec fn spec_state_key(a: Animal, ve: Seq<Environment>) -> Seq<DecisionFactor> {
    spec_factors(a, ve).sort_by(factor_leq())
}

/// Discretizes the agent's surroundings into the canonical state key: one
/// factor per visible object, the agent's vitals appended, the whole list
/// sorted into the canonical order.
pub fn state_key(a: &Animal, ve: &Vec<Environment>) -> (r: Vec<DecisionFactor>)
    requires
        pos_sane(a.position),
        forall|i: int| 0 <= i < ve@.len() ==> pos_sane(#[trigger] ve@[i].position),
    ensures
        r@ == spec_state_key(*a, ve@),
{
    let mut raw: Vec<DecisionFactor> = Vec::new();
    let mut i: usize = 0;
    let ghost fo = |e: Environment| spec_factor_of(*a, e);
    proof {
        assert(ve@.take(0).map_values(fo) =~= Seq::<DecisionFactor>::empty());
    }
    while i < ve.len()
        invariant
            0 <= i <= ve@.len(),
            pos_sane(a.position),
            forall|k: int| 0 <= k < ve@.len() ==> pos_sane(#[trigger] ve@[k].position),
            fo == (|e: Environment| spec_factor_of(*a, e)),
            raw@ == ve@.take(i as int).map_values(fo),
        decreases ve@.len() - i,
    {
        let e = ve[i];
        let f: DecisionFactor;
        if e.position.0 == a.position.0 && e.position.1 == a.position.1 {
            f = DecisionFactor::CurrentLocation(e.tag);
        } else {
            let dis = crate::world::distance(&e, a);
            let dx: i32 = if e.position.0 >= a.position.0 {
                e.position.0 - a.position.0
            } else {
                a.position.0 - e.position.0
            };
            let dy: i32 = if e.position.1 >= a.position.1 {
                e.position.1 - a.position.1
            } else {
                a.position.1 - e.position.1
            };
            let dir: Direction = if dx > dy {
                if e.position.0 > a.position.0 {
                    Direction::Up
                } else {
                    Direction::Down
                }
            } else {
                if e.position.1 > a.position.1 {
                    Direction::Right
                } else {
                    Direction::Left
                }
            };
            f = DecisionFactor::DistanceDirection(dis as u32, dir, e.tag);
        }
        raw.push(f);
        proof {
            assert(ve@.take(i + 1).map_values(fo) =~= ve@.take(i as int).map_values(fo).push(
                fo(ve@[i as int]),
            ));
        }
        i = i + 1;
    }
    raw.push(DecisionFactor::CurrentHp(a.hp));
    proof {
        assert(ve@.take(ve@.len() as int) =~= ve@);
        assert(raw@ == spec_factors(*a, ve@));
    }
    sort_factors(raw)
}

} // verus!
