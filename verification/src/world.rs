//! The simulation world: the agent, the typed world objects, movement with
//! bound clamping, visibility, garbage collection and map generation.
use vstd::prelude::*;
use crate::policy::Decision;

verus! {

/// Grid dimensions are capped so that every coordinate arithmetic below fits
/// comfortably in `i32`.
pub const MAX_DIM: u32 = 0x4000_0000;

/// Default display grid: the world rendered by the drawing routines.
pub const WIDTH: u32 = 50;

pub const HEIGHT: u32 = 50;

pub const WINDOW_WIDTH: u32 = 500;

pub const WINDOW_HEIGHT: u32 = 500;

pub const GRID_WIDTH: u32 = WINDOW_WIDTH / WIDTH;

pub const GRID_HEIGHT: u32 = WINDOW_HEIGHT / HEIGHT;

/// The kind of a world object.
#[derive(Clone, Copy, Debug, PartialEq, Eq, Structural)]
pub enum EnvironmentTag {
    DANGER,
    CHALLENGE,
    SHELTER,
    DEFAULT,
}

/// How a world object is rendered by the visualizer.
#[derive(Clone, Copy, Debug, PartialEq, Eq, Structural)]
pub enum DrawType {
    Round,
    Rect,
    Line,
    Pixel,
    Circle,
    Star,
    Hidden,
}

/// A positioned, typed interactive entity on the grid.
#[derive(Clone, Copy, Debug, PartialEq, Eq)]
pub struct Environment {
    pub tag: EnvironmentTag,
    pub alive: bool,
    pub auto_interact: bool,
    pub hp: i32,
    pub difficulty: u32,
    pub penalty: u32,
    pub reward: (u32, u32),
    pub position: (i32, i32),
    pub color: (u8, u8, u8, u8),
    pub draw_type: DrawType,
    pub d: u32,
}

/// The simulated actor.
#[derive(Clone, Copy, Debug, PartialEq, Eq)]
pub struct Animal {
    pub alive: bool,
    pub hp: i32,
    pub ability: u32,
    pub lifetime: u32,
    pub position: (i32, i32),
    pub view_distance: u32,
    pub next_decision: Decision,
}

/// Valid grid dimensions.
pub open spec fn dim_ok(width: u32, height: u32) -> bool {
    1 <= width <= MAX_DIM && 1 <= height <= MAX_DIM
}

/// A coordinate pair that cannot overflow the distance arithmetic.
pub open spec fn pos_sane(p: (i32, i32)) -> bool {
    0 <= p.0 && p.0 < MAX_DIM && 0 <= p.1 && p.1 < MAX_DIM
}

/// A position inside the grid bounds.
pub open spec fn pos_in(p: (i32, i32), width: u32, height: u32) -> bool {
    0 <= p.0 && (p.0 as int) < width as int && 0 <= p.1 && (p.1 as int) < height as int
}

/// A well-formed world object: it sits on the grid and its penalty and hp
/// reward fit the agent's signed hp arithmetic.
pub open spec fn wf_env(e: Environment, width: u32, height: u32) -> bool {
    &&& pos_in(e.position, width, height)
    &&& e.penalty <= 0x7fff_ffff
    &&& e.reward.0 <= 0x7fff_ffff
}

/// A well-formed agent: it sits on the grid.
pub open spec fn wf_animal(a: Animal, width: u32, height: u32) -> bool {
    pos_in(a.position, width, height)
}

/// Signed addition clamped to the `i32` range.
pub open spec fn sat_add_i(a: int, b: int) -> int {
    if a + b > i32::MAX {
        i32::MAX as int
    } else if a + b < i32::MIN {
        i32::MIN as int
    } else {
        a + b
    }
}

/// Signed subtraction clamped to the `i32` range.
pub open spec fn sat_sub_i(a: int, b: int) -> int {
    sat_add_i(a, -b)
}

/// A value clamped into `[lo, hi]`.
pub open spec fn clamp_int(v: int, lo: int, hi: int) -> int {
    if v < lo {
        lo
    } else if v > hi {
        hi
    } else {
        v
    }
}

/// Clamped signed addition.
pub fn add_clamp(a: i32, b: i32) -> (r: i32)
    ensures
        r as int == sat_add_i(a as int, b as int),
{
    match a.checked_add(b) {
        Some(v) => v,
        None => if b > 0 {
            i32::MAX
        } else {
            i32::MIN
        },
    }
}

/// Clamped signed subtraction.
pub fn sub_clamp(a: i32, b: i32) -> (r: i32)
    ensures
        r as int == sat_sub_i(a as int, b as int),
{
    match a.checked_sub(b) {
        Some(v) => v,
        None => if b > 0 {
            i32::MIN
        } else {
            i32::MAX
        },
    }
}

/// Manhattan distance between a world object and the agent.
pub open spec fn spec_distance(e: Environment, a: Animal) -> int {
    (vstd::math::abs(e.position.0 as int - a.position.0 as int) + vstd::math::abs(
        e.position.1 as int - a.position.1 as int,
    )) as int
}

/// Manhattan distance, exact on every pair of sane positions.
pub fn distance(e: &Environment, a: &Animal) -> (r: i32)
    requires
        pos_sane(e.position),
        pos_sane(a.position),
    ensures
        r as int == spec_distance(*e, *a),
{
    let dx: i32 = if e.position.0 >= a.position.0 {
        e.position.0 - a.position.0
    } else {
        a.position.0 - e.position.0
    };
    let dy: i32 = if e.position.1 >= a.position.1 {
        e.position.1 - a.position.1
    } else {
        a.position.1 - e.position.1
    };
    dx + dy
}

/// Visibility: an object is visible iff its Manhattan distance to the agent
/// is at most the agent's view radius.
pub open spec fn spec_visible(e: Environment, a: Animal) -> bool {
    spec_distance(e, a) <= a.view_distance as int
}

/// Collects the objects visible to the agent, in their original order.
pub fn find_environments(a: &Animal, ve: &Vec<Environment>) -> (r: Vec<Environment>)
    requires
        pos_sane(a.position),
        forall|i: int| 0 <= i < ve@.len() ==> pos_sane(#[trigger] ve@[i].position),
    ensures
        r@ == ve@.filter(|e: Environment| spec_visible(e, *a)),
{
    let mut r: Vec<Environment> = Vec::new();
    let mut i: usize = 0;
    proof {
        assert(ve@.take(0) =~= Seq::<Environment>::empty());
        reveal(Seq::filter);
    }
    while i < ve.len()
        invariant
            0 <= i <= ve@.len(),
            pos_sane(a.position),
            forall|k: int| 0 <= k < ve@.len() ==> pos_sane(#[trigger] ve@[k].position),
            r@ == ve@.take(i as int).filter(|e: Environment| spec_visible(e, *a)),
        decreases ve@.len() - i,
    {
        let e = ve[i];
        let dis = distance(&e, a);
        if (dis as i64) <= (a.view_distance as i64) {
            r.push(e);
        }
        proof {
            broadcast use vstd::seq::Seq::lemma_filter_push;

            assert(ve@.take(i + 1) =~= ve@.take(i as int).push(ve@[i as int]));
        }
        i = i + 1;
    }
    proof {
        assert(ve@.take(ve@.len() as int) =~= ve@);
    }
    r
}

/// Removes exactly the objects whose `alive` flag is down, keeping the
/// survivors in their original relative order.
pub fn garbage_collection(ve: Vec<Environment>) -> (r: Vec<Environment>)
    ensures
        r@ == ve@.filter(|e: Environment| e.alive),
{
    let mut r: Vec<Environment> = Vec::new();
    let mut i: usize = 0;
    proof {
        assert(ve@.take(0) =~= Seq::<Environment>::empty());
        reveal(Seq::filter);
    }
    while i < ve.len()
        invariant
            0 <= i <= ve@.len(),
            r@ == ve@.take(i as int).filter(|e: Environment| e.alive),
        decreases ve@.len() - i,
    {
        let e = ve[i];
        if e.alive {
            r.push(e);
        }
        proof {
            broadcast use vstd::seq::Seq::lemma_filter_push;

            assert(ve@.take(i + 1) =~= ve@.take(i as int).push(ve@[i as int]));
        }
        i = i + 1;
    }
    proof {
        assert(ve@.take(ve@.len() as int) =~= ve@);
    }
    r
}

/// The survivors of garbage collection.
pub open spec fn live_only(s: Seq<Environment>) -> Seq<Environment> {
    s.filter(|e: Environment| e.alive)
}

/// Garbage collection keeps every live object and drops every dead one:
/// membership in the swept list is exactly the `alive` flag.
pub proof fn lemma_gc_removes_exactly_dead(s: Seq<Environment>)
    ensures
        forall|i: int| 0 <= i < live_only(s).len() ==> (#[trigger] live_only(s)[i]).alive,
        forall|i: int| 0 <= i < s.len() && (#[trigger] s[i]).alive ==> live_only(s).contains(s[i]),
        live_only(s).len() <= s.len(),
{
    broadcast use vstd::seq_lib::group_filter_ensures;

    assert(live_only(s) == s.filter(|e: Environment| e.alive));
}

impl Environment {
    /// Copies a template object onto a cell, freshly alive.
    pub fn spwan(e: &Environment, pos: (i32, i32)) -> (r: Environment)
        ensures
            r == (Environment { alive: true, position: pos, ..*e }),
    {
        Environment {
            alive: true,
            auto_interact: e.auto_interact,
            tag: e.tag,
            hp: e.hp,
            difficulty: e.difficulty,
            penalty: e.penalty,
            reward: e.reward,
            position: pos,
            color: e.color,
            draw_type: e.draw_type,
            d: e.d,
        }
    }

    /// The object after losing `num` hp: a dead object is inert, and one
    /// whose hp falls to zero or below dies.
    pub open spec fn spec_consume(self, num: i32) -> Environment {
        if !self.alive {
            self
        } else {
            let hp2 = sat_sub_i(self.hp as int, num as int) as i32;
            Environment { hp: hp2, alive: hp2 > 0, ..self }
        }
    }

    /// Deducts `num` hp; at zero or below the object dies, permanently.
    pub fn consume(&mut self, num: i32)
        ensures
            *final(self) == old(self).spec_consume(num),
    {
        if !self.alive {
            return ;
        }
        self.hp = sub_clamp(self.hp, num);
        if self.hp <= 0 {
            self.alive = false;
        }
    }

    /// The pixel at the center of this object's cell, on the default
    /// `WIDTH x HEIGHT` display grid.
    pub fn get_center_pixel_pos(&self) -> (r: (i32, i32))
        requires
            pos_in(self.position, WIDTH, HEIGHT),
        ensures
            r.0 == (GRID_WIDTH + 1) / 2 + GRID_WIDTH * self.position.0,
            r.1 == (GRID_HEIGHT + 1) / 2 + GRID_HEIGHT * self.position.1,
    {
        (
            ((GRID_WIDTH + 1) / 2 + GRID_WIDTH * (self.position.0 as u32)) as i32,
            ((GRID_HEIGHT + 1) / 2 + GRID_HEIGHT * (self.position.1 as u32)) as i32,
        )
    }
}

impl Animal {
    /// Copies an agent template onto a spawn cell with a fresh life.
    pub fn spwan(a: &Animal, pos: (i32, i32)) -> (r: Animal)
        ensures
            r == (Animal { alive: true, lifetime: 0, position: pos, ..*a }),
    {
        Animal {
            alive: true,
            hp: a.hp,
            ability: a.ability,
            lifetime: 0,
            position: pos,
            view_distance: a.view_distance,
            next_decision: a.next_decision,
        }
    }

    /// The agent after losing `num` hp: a dead agent is never mutated, and
    /// one whose hp falls to zero or below dies.
    pub open spec fn spec_consume(self, num: i32) -> Animal {
        if !self.alive {
            self
        } else {
            let hp2 = sat_sub_i(self.hp as int, num as int) as i32;
            Animal { hp: hp2, alive: hp2 > 0, ..self }
        }
    }

    /// Deducts `num` hp; at zero or below the agent dies, permanently.
    pub fn consume(&mut self, num: i32)
        ensures
            *final(self) == old(self).spec_consume(num),
    {
        if !self.alive {
            return ;
        }
        self.hp = sub_clamp(self.hp, num);
        if self.hp <= 0 {
            self.alive = false;
        }
    }

    /// The position after a clamped translation: the increment is added with
    /// saturation, then each coordinate is clamped into the grid.
    pub open spec fn spec_move(p: (i32, i32), inc: (i32, i32), width: u32, height: u32) -> (
        i32,
        i32,
    ) {
        (
            clamp_int(sat_add_i(p.0 as int, inc.0 as int), 0, width as int - 1) as i32,
            clamp_int(sat_add_i(p.1 as int, inc.1 as int), 0, height as int - 1) as i32,
        )
    }

    /// Translates the agent by `inc` and clamps the result into
    /// `[0, width-1] x [0, height-1]`; nothing else changes.
    pub fn move_inc(&mut self, inc: (i32, i32), width: u32, height: u32)
        requires
            dim_ok(width, height),
        ensures
            *final(self) == (Animal {
                position: Animal::spec_move(old(self).position, inc, width, height),
                ..*old(self)
            }),
    {
        let x0 = add_clamp(self.position.0, inc.0);
        let y0 = add_clamp(self.position.1, inc.1);
        let x = if x0 < 0 {
            0
        } else if x0 >= width as i32 {
            width as i32 - 1
        } else {
            x0
        };
        let y = if y0 < 0 {
            0
        } else if y0 >= height as i32 {
            height as i32 - 1
        } else {
            y0
        };
        self.position = (x, y);
    }

    /// The pixel at the center of the agent's cell, on the default
    /// `WIDTH x HEIGHT` display grid.
    pub fn get_center_pixel_pos(&self) -> (r: (i32, i32))
        requires
            pos_in(self.position, WIDTH, HEIGHT),
        ensures
            r.0 == (GRID_WIDTH + 1) / 2 + GRID_WIDTH * self.position.0,
            r.1 == (GRID_HEIGHT + 1) / 2 + GRID_HEIGHT * self.position.1,
    {
        (
            ((GRID_WIDTH + 1) / 2 + GRID_WIDTH * (self.position.0 as u32)) as i32,
            ((GRID_HEIGHT + 1) / 2 + GRID_HEIGHT * (self.position.1 as u32)) as i32,
        )
    }

    /// The agent after one tick of passive decay: lifetime up one, hp down
    /// one, death at zero hp. A dead agent is inert.
    pub open spec fn spec_tick(self) -> Animal {
        if !self.alive {
            self
        } else {
            (Animal { lifetime: crate::policy::inc_w(self.lifetime, 1), ..self }).spec_consume(1)
        }
    }

    /// One tick of passive decay.
    pub fn step_tick(&mut self)
        ensures
            *final(self) == old(self).spec_tick(),
    {
        if !self.alive {
            return ;
        }
        self.lifetime = self.lifetime.saturating_add(1);
        self.consume(1);
    }
}

/// Anything the simulation advances once per tick.
pub trait Tickable: Sized {
    /// How one tick relates the state before to the state after.
    spec fn ticked(pre: Self, post: Self) -> bool;

    /// Advances the value by one tick.
    fn tick(&mut self)
        ensures
            Self::ticked(*old(self), *final(self)),
    ;
}

impl Tickable for Animal {
    open spec fn ticked(pre: Animal, post: Animal) -> bool {
        post == pre.spec_tick()
    }

    fn tick(&mut self) {
        self.step_tick();
    }
}

/// Movement never leaves the grid: for any starting position and any
/// increment, however large, the clamped position is inside
/// `[0, width-1] x [0, height-1]`.
pub proof fn lemma_move_stays_in_bounds(p: (i32, i32), inc: (i32, i32), width: u32, height: u32)
    requires
        dim_ok(width, height),
    ensures
        pos_in(Animal::spec_move(p, inc, width, height), width, height),
{
}

/// Probability bands for map generation: a bounded roll in `[0, 20)` is
/// partitioned from the top into shelter, challenge, danger, or nothing.
pub const ROLL_BOUND: u32 = 20;

pub const SHELTER_CHANCE: u32 = 10;

pub const CHALLENGE_CHANCE: u32 = 2;

pub const DANGER_CHANCE: u32 = 2;

/// The shelter template placed on a cell: it interacts automatically,
/// always succeeds (difficulty 0) and restores 1 hp per visit, for 5 visits.
pub open spec fn shelter_at(pos: (i32, i32)) -> Environment {
    Environment {
        tag: EnvironmentTag::SHELTER,
        alive: true,
        auto_interact: true,
        hp: 5,
        difficulty: 0,
        penalty: 0,
        reward: (1, 0),
        position: pos,
        color: (0, 0xff, 0, 0x7f),
        draw_type: DrawType::Rect,
        d: GRID_WIDTH,
    }
}

/// The challenge template: a single-use test of ability that pays 5 hp on
/// success and costs 2 hp on failure.
pub open spec fn challenge_at(pos: (i32, i32)) -> Environment {
    Environment {
        tag: EnvironmentTag::CHALLENGE,
        alive: true,
        auto_interact: false,
        hp: 1,
        difficulty: 10,
        penalty: 2,
        reward: (5, 0),
        position: pos,
        color: (0, 0xff, 0xff, 0xaf),
        draw_type: DrawType::Round,
        d: (GRID_WIDTH - 1) as u32,
    }
}

/// The danger template: effectively indestructible, pays nothing and costs
/// 2 hp on a failed roll.
pub open spec fn danger_at(pos: (i32, i32)) -> Environment {
    Environment {
        tag: EnvironmentTag::DANGER,
        alive: true,
        auto_interact: false,
        hp: i32::MAX,
        difficulty: 10,
        penalty: 2,
        reward: (0, 0),
        position: pos,
        color: (0xff, 0, 0, 0xaf),
        draw_type: DrawType::Round,
        d: (GRID_WIDTH - 2) as u32,
    }
}

/// Builds the shelter template on a cell.
pub fn make_shelter(pos: (i32, i32)) -> (e: Environment)
    ensures
        e == shelter_at(pos),
{
    Environment {
        tag: EnvironmentTag::SHELTER,
        alive: true,
        auto_interact: true,
        hp: 5,
        difficulty: 0,
        penalty: 0,
        reward: (1, 0),
        position: pos,
        color: (0, 0xff, 0, 0x7f),
        draw_type: DrawType::Rect,
        d: GRID_WIDTH,
    }
}

/// Builds the challenge template on a cell.
pub fn make_challenge(pos: (i32, i32)) -> (e: Environment)
    ensures
        e == challenge_at(pos),
{
    Environment {
        tag: EnvironmentTag::CHALLENGE,
        alive: true,
        auto_interact: false,
        hp: 1,
        difficulty: 10,
        penalty: 2,
        reward: (5, 0),
        position: pos,
        color: (0, 0xff, 0xff, 0xaf),
        draw_type: DrawType::Round,
        d: GRID_WIDTH - 1,
    }
}

/// Builds the danger template on a cell.
pub fn make_danger(pos: (i32, i32)) -> (e: Environment)
    ensures
        e == danger_at(pos),
{
    Environment {
        tag: EnvironmentTag::DANGER,
        alive: true,
        auto_interact: false,
        hp: i32::MAX,
        difficulty: 10,
        penalty: 2,
        reward: (0, 0),
        position: pos,
        color: (0xff, 0, 0, 0xaf),
        draw_type: DrawType::Round,
        d: GRID_WIDTH - 2,
    }
}

/// A generated object: one of the three templates, placed on an interior
/// cell of the grid.
pub open spec fn is_generated(e: Environment, width: u32, height: u32) -> bool {
    &&& 1 <= e.position.0 && (e.position.0 as int) < width as int
    &&& 1 <= e.position.1 && (e.position.1 as int) < height as int
    &&& (e == shelter_at(e.position) || e == challenge_at(e.position) || e == danger_at(
        e.position,
    ))
}

/// The agent every run starts from: fixed stats, spawned at the grid center.
pub open spec fn spawn_animal(width: u32, height: u32) -> Animal {
    Animal {
        alive: true,
        hp: 10,
        ability: 5,
        lifetime: 0,
        position: ((width / 2) as i32, (height / 2) as i32),
        view_distance: 5,
        next_decision: Decision::Wait,
    }
}

/// The object a bounded roll places on a cell: the bands of `[0, ROLL_BOUND)`
/// are partitioned from the top into shelter, challenge, danger, or nothing.
pub open spec fn spec_cell_object(roll: u32, pos: (i32, i32)) -> Option<Environment> {
    if roll >= SHELTER_CHANCE {
        Some(shelter_at(pos))
    } else if roll >= SHELTER_CHANCE - CHALLENGE_CHANCE {
        Some(challenge_at(pos))
    } else if roll >= SHELTER_CHANCE - CHALLENGE_CHANCE - DANGER_CHANCE {
        Some(danger_at(pos))
    } else {
        None
    }
}

/// Decides what a roll places on a cell: the deterministic half of map
/// generation, exact for every roll value.
pub fn place_cell_object(roll: u32, pos: (i32, i32)) -> (r: Option<Environment>)
    ensures
        r == spec_cell_object(roll, pos),
{
    if roll >= SHELTER_CHANCE {
        Some(make_shelter(pos))
    } else if roll >= SHELTER_CHANCE - CHALLENGE_CHANCE {
        Some(make_challenge(pos))
    } else if roll >= SHELTER_CHANCE - CHALLENGE_CHANCE - DANGER_CHANCE {
        Some(make_danger(pos))
    } else {
        None
    }
}

/// The interior cell with linear index `c`, walking the interior column by
/// column: cells `(i, j)` for `1 <= i < width`, `1 <= j < height`, in order.
pub open spec fn cell_pos(c: int, height: u32) -> (i32, i32) {
    ((1 + c / (height as int - 1)) as i32, (1 + c % (height as int - 1)) as i32)
}

/// The linear cell index a position corresponds to.
pub open spec fn pos_cell_index(p: (i32, i32), height: u32) -> int {
    (p.0 as int - 1) * (height as int - 1) + (p.1 as int - 1)
}

/// The objects placed on the first `n` interior cells, cell `c` consuming
/// roll `c`: exactly the cells whose roll falls in an object band hold an
/// object, in cell order.
pub open spec fn spec_place_up_to(height: u32, rolls: Seq<u32>, n: int) -> Seq<Environment>
    decreases n,
{
    if n <= 0 {
        Seq::empty()
    } else {
        let prev = spec_place_up_to(height, rolls, n - 1);
        let roll = if n - 1 < rolls.len() {
            rolls[n - 1]
        } else {
            0u32
        };
        match spec_cell_object(roll, cell_pos(n - 1, height)) {
            Some(e) => prev.push(e),
            None => prev,
        }
    }
}

/// Placement is blind to rolls appended after the cells it covers.
pub proof fn lemma_place_rolls_extend(height: u32, rolls: Seq<u32>, r: u32, n: int)
    requires
        n <= rolls.len(),
    ensures
        spec_place_up_to(height, rolls.push(r), n) == spec_place_up_to(height, rolls, n),
    decreases n,
{
    if n > 0 {
        lemma_place_rolls_extend(height, rolls, r, n - 1);
    }
}

/// Each placed object sits on its own cell: cell indices are strictly
/// increasing along the placement, so no two objects share a position.
pub proof fn lemma_place_cells_distinct(width: u32, height: u32, rolls: Seq<u32>, n: int)
    requires
        2 <= width <= MAX_DIM,
        2 <= height <= MAX_DIM,
        0 <= n <= (width as int - 1) * (height as int - 1),
    ensures
        spec_place_up_to(height, rolls, n).len() <= n,
        forall|k: int|
            0 <= k < spec_place_up_to(height, rolls, n).len() ==> 0 <= pos_cell_index(
                (#[trigger] spec_place_up_to(height, rolls, n)[k]).position,
                height,
            ) < n,
        forall|k1: int, k2: int|
            0 <= k1 < k2 < spec_place_up_to(height, rolls, n).len() ==> pos_cell_index(
                (#[trigger] spec_place_up_to(height, rolls, n)[k1]).position,
                height,
            ) < pos_cell_index((#[trigger] spec_place_up_to(height, rolls, n)[k2]).position, height),
        forall|k1: int, k2: int|
            0 <= k1 < k2 < spec_place_up_to(height, rolls, n).len() ==> (
            #[trigger] spec_place_up_to(height, rolls, n)[k1]).position != (
            #[trigger] spec_place_up_to(height, rolls, n)[k2]).position,
    decreases n,
{
    if n > 0 {
        lemma_place_cells_distinct(width, height, rolls, n - 1);
        let h1 = height as int - 1;
        let c = n - 1;
        assert(c / h1 * h1 + c % h1 == c && 0 <= c % h1 < h1 && 0 <= c / h1) by (nonlinear_arith)
            requires
                h1 >= 1,
                c >= 0,
        ;
        assert(c / h1 < width as int - 1) by (nonlinear_arith)
            requires
                h1 >= 1,
                0 <= c,
                c < (width as int - 1) * h1,
                c / h1 * h1 + c % h1 == c,
                0 <= c % h1 < h1,
        ;
        let p = cell_pos(c, height);
        assert(p.0 as int == 1 + c / h1 && p.1 as int == 1 + c % h1);
        assert((p.0 as int - 1) * h1 + (p.1 as int - 1) == c) by (nonlinear_arith)
            requires
                p.0 as int == 1 + c / h1,
                p.1 as int == 1 + c % h1,
                h1 >= 1,
                c >= 0,
                c / h1 * h1 + c % h1 == c,
        ;
        assert(pos_cell_index(p, height) == c);
    }
}

/// Generates a fresh world: every interior cell draws a bounded roll and
/// places what that roll's band dictates (shelter, challenge, danger or
/// nothing); the agent spawns at the grid center with fixed stats. The rolls
/// drawn are returned as ghost evidence: the object list is exactly
/// `spec_place_up_to` of them, every placed object is a well-formed template
/// on its own interior cell, and no two objects share a cell.
pub fn generate_map(width: u32, height: u32, rng: &mut oorandom::Rand32) -> (r: (
    Vec<Environment>,
    Vec<Animal>,
    Ghost<Seq<u32>>,
))
    requires
        dim_ok(width, height),
    ensures
        r.2@.len() == (width as int - 1) * (height as int - 1),
        forall|c: int| 0 <= c < r.2@.len() ==> #[trigger] r.2@[c] < ROLL_BOUND,
        r.0@ == spec_place_up_to(height, r.2@, (width as int - 1) * (height as int - 1)),
        forall|k: int|
            0 <= k < r.0@.len() ==> wf_env(#[trigger] r.0@[k], width, height) && is_generated(
                r.0@[k],
                width,
                height,
            ),
        forall|k1: int, k2: int|
            0 <= k1 < k2 < r.0@.len() ==> (#[trigger] r.0@[k1]).position != (
            #[trigger] r.0@[k2]).position,
        r.1@.len() == 1,
        r.1@[0] == spawn_animal(width, height),
        wf_animal(r.1@[0], width, height),
{
    let mut ve: Vec<Environment> = Vec::new();
    let ghost rolls: Seq<u32> = Seq::empty();
    let mut i: u32 = 1;
    while i < width
        invariant
            dim_ok(width, height),
            1 <= i <= width,
            rolls.len() == (i as int - 1) * (height as int - 1),
            forall|c: int| 0 <= c < rolls.len() ==> #[trigger] rolls[c] < ROLL_BOUND,
            ve@ == spec_place_up_to(height, rolls, rolls.len() as int),
            forall|k: int|
                0 <= k < ve@.len() ==> wf_env(#[trigger] ve@[k], width, height) && is_generated(
                    ve@[k],
                    width,
                    height,
                ),
        decreases width - i,
    {
        let mut j: u32 = 1;
        while j < height
            invariant
                dim_ok(width, height),
                1 <= i < width,
                1 <= j <= height,
                rolls.len() == (i as int - 1) * (height as int - 1) + (j as int - 1),
                forall|c: int| 0 <= c < rolls.len() ==> #[trigger] rolls[c] < ROLL_BOUND,
                ve@ == spec_place_up_to(height, rolls, rolls.len() as int),
                forall|k: int|
                    0 <= k < ve@.len() ==> wf_env(#[trigger] ve@[k], width, height) && is_generated(
                        ve@[k],
                        width,
                        height,
                    ),
            decreases height - j,
        {
            let roll = rng.rand_u32() % ROLL_BOUND;
            let pos: (i32, i32) = (i as i32, j as i32);
            let ghost c = rolls.len() as int;
            proof {
                let h1 = height as int - 1;
                assert(c / h1 == i as int - 1 && c % h1 == j as int - 1) by (nonlinear_arith)
                    requires
                        h1 >= 1,
                        c == (i as int - 1) * h1 + (j as int - 1),
                        0 <= j as int - 1 < h1,
                        i as int - 1 >= 0,
                ;
                assert(cell_pos(c, height) == pos);
            }
            let placed = place_cell_object(roll, pos);
            let ghost rolls_pre = rolls;
            proof {
                rolls = rolls.push(roll);
                lemma_place_rolls_extend(height, rolls_pre, roll, c);
            }
            match placed {
                Some(e) => ve.push(e),
                None => {},
            }
            proof {
                assert(ve@ == spec_place_up_to(height, rolls, rolls.len() as int));
            }
            j = j + 1;
        }
        proof {
            assert((i as int - 1) * (height as int - 1) + (height as int - 1) == (i as int) * (
            height as int - 1)) by (nonlinear_arith);
        }
        i = i + 1;
    }
    proof {
        if width >= 2 && height >= 2 {
            lemma_place_cells_distinct(width, height, rolls, rolls.len() as int);
        } else {
            assert((width as int - 1) * (height as int - 1) == 0) by (nonlinear_arith)
                requires
                    width as int - 1 == 0 || height as int - 1 == 0,
            ;
        }
    }
    let spawn = Animal {
        alive: true,
        hp: 10,
        ability: 5,
        lifetime: 0,
        position: ((width / 2) as i32, (height / 2) as i32),
        view_distance: 5,
        next_decision: Decision::Wait,
    };
    let mut va: Vec<Animal> = Vec::new();
    va.push(spawn);
    (ve, va, Ghost(rolls))
}

} // verus!
