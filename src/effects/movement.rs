use vstd::prelude::*;

use crate::chunk::flagged;
use crate::particle::{damped, MovementType, Particle, Velocity};
use crate::random::chance;
use crate::sandbox::Sandbox;
use crate::vector::{
    dir_45_clockwise, dir_45_counterclockwise, magnitude, rotate_45_clockwise,
    rotate_45_counterclockwise, rotate_90_clockwise_normalized,
    rotate_90_counterclockwise_normalized, scaled, sign,
};

verus! {

/// The outcome of walking a particle's path.
#[derive(Clone, Copy, Debug)]
pub struct StepData {
    pub new_x: i64,
    pub new_y: i64,
    pub moved: bool,
    pub other_particle: Option<Particle>,
    pub other_x: i64,
    pub other_y: i64,
    pub swap: bool,
}

/// No movement and nothing in the way.
pub open spec fn no_step() -> StepData {
    StepData {
        new_x: 0,
        new_y: 0,
        moved: false,
        other_particle: None,
        other_x: 0,
        other_y: 0,
        swap: false,
    }
}

fn stay() -> (r: StepData)
    ensures
        r == no_step(),
{
    StepData {
        new_x: 0,
        new_y: 0,
        moved: false,
        other_particle: None,
        other_x: 0,
        other_y: 0,
        swap: false,
    }
}

/// The stepping rule of the line from `(x1, y1)` to `(x2, y2)`: the diagonal
/// step, the straight step, the length of the major axis and of the minor one.
pub open spec fn line_setup(x1: int, y1: int, x2: int, y2: int) -> (int, int, int, int, int, int) {
    let w = x2 - x1;
    let h = y2 - y1;
    let aw = if w < 0 { -w } else { w };
    let ah = if h < 0 { -h } else { h };
    if aw > ah {
        (sign(w), sign(h), sign(w), 0, aw, ah)
    } else {
        (sign(w), sign(h), 0, sign(h), ah, aw)
    }
}

/// Position and error term after `i` steps along the line.
pub open spec fn walk(x1: int, y1: int, x2: int, y2: int, i: nat) -> (int, int, int)
    decreases i,
{
    let (dx1, dy1, dx2, dy2, longest, shortest) = line_setup(x1, y1, x2, y2);
    if i == 0 {
        (x1, y1, longest / 2)
    } else {
        let (x, y, n) = walk(x1, y1, x2, y2, (i - 1) as nat);
        if n + shortest >= longest {
            (x + dx1, y + dy1, n + shortest - longest)
        } else {
            (x + dx2, y + dy2, n + shortest)
        }
    }
}

/// The `i`-th cell of the line from `(x1, y1)` to `(x2, y2)`.
pub open spec fn point(x1: int, y1: int, x2: int, y2: int, i: nat) -> (int, int) {
    let (x, y, _n) = walk(x1, y1, x2, y2, i);
    (x, y)
}

/// A path cannot enter `q`: it is outside the grid or occupied.
pub open spec fn blocked(sandbox: &Sandbox, q: (int, int)) -> bool {
    !sandbox.in_bounds(q.0, q.1) || sandbox.cell(q.0, q.1) is Some
}

/// Step `b` is the first blocked cell after the start of the line.
pub open spec fn first_block(sandbox: &Sandbox, x1: int, y1: int, x2: int, y2: int, b: nat) -> bool {
    &&& 1 <= b <= line_setup(x1, y1, x2, y2).4
    &&& blocked(sandbox, point(x1, y1, x2, y2, b))
    &&& forall|j: nat| 1 <= j < b ==> !blocked(sandbox, #[trigger] point(x1, y1, x2, y2, j))
}

/// What the cell `q` holds, with nothing outside the grid.
pub open spec fn held(sandbox: &Sandbox, q: (int, int)) -> Option<Particle> {
    if sandbox.in_bounds(q.0, q.1) {
        sandbox.cell(q.0, q.1)
    } else {
        None
    }
}

/// Walking from `(x1, y1)` toward `(x2, y2)`: blocked on the first step, the
/// walk fails; blocked later, it ends on the last free cell; unblocked, it
/// reaches the target. The blocking cell is reported either way.
pub open spec fn line_spec(sandbox: &Sandbox, x1: int, y1: int, x2: int, y2: int) -> StepData {
    if x1 == x2 && y1 == y2 {
        no_step()
    } else if exists|b: nat| first_block(sandbox, x1, y1, x2, y2, b) {
        let b = choose|b: nat| first_block(sandbox, x1, y1, x2, y2, b);
        let q = point(x1, y1, x2, y2, b);
        let last = point(x1, y1, x2, y2, (b - 1) as nat);
        StepData {
            new_x: last.0 as i64,
            new_y: last.1 as i64,
            moved: b > 1,
            other_particle: held(sandbox, q),
            other_x: q.0 as i64,
            other_y: q.1 as i64,
            swap: false,
        }
    } else {
        StepData {
            new_x: x2 as i64,
            new_y: y2 as i64,
            moved: true,
            other_particle: None,
            other_x: 0,
            other_y: 0,
            swap: false,
        }
    }
}

/// Coordinates small enough for exact line arithmetic.
pub open spec fn small(v: int) -> bool {
    -0x1_0000_0000 <= v <= 0x1_0000_0000
}

fn sign_i64(v: i64) -> (r: i64)
    ensures
        r == sign(v as int),
{
    if v < 0 {
        -1
    } else if v > 0 {
        1
    } else {
        0
    }
}

fn held_at(sandbox: &Sandbox, qx: i64, qy: i64) -> (r: (bool, Option<Particle>))
    requires
        sandbox.wf(),
    ensures
        r.0 == blocked(sandbox, (qx as int, qy as int)),
        r.1 == held(sandbox, (qx as int, qy as int)),
{
    proof {
        sandbox.lemma_dims();
    }
    if qx < 0 || qy < 0 || qx >= sandbox.width() as i64 || qy >= sandbox.height() as i64 {
        return (true, None);
    }
    let c = sandbox.get_copied(qx as usize, qy as usize);
    (c.is_some(), c)
}

proof fn lemma_first_block_unique(sandbox: &Sandbox, x1: int, y1: int, x2: int, y2: int, b: nat)
    requires
        first_block(sandbox, x1, y1, x2, y2, b),
    ensures
        forall|c: nat| first_block(sandbox, x1, y1, x2, y2, c) ==> c == b,
{
    assert forall|c: nat| first_block(sandbox, x1, y1, x2, y2, c) implies c == b by {
        if c < b {
            assert(!blocked(sandbox, point(x1, y1, x2, y2, c)));
        } else if c > b {
            assert(!blocked(sandbox, point(x1, y1, x2, y2, b)));
        }
    }
}

/// Walks the cells of the line from `(x1, y1)` to `(x2, y2)` (a Bresenham line
/// for every octant) and reports how far the particle gets.
fn line(x1: i64, y1: i64, x2: i64, y2: i64, sandbox: &Sandbox) -> (r: StepData)
    requires
        sandbox.wf(),
        small(x1 as int),
        small(y1 as int),
        small(x2 as int),
        small(y2 as int),
    ensures
        r == line_spec(sandbox, x1 as int, y1 as int, x2 as int, y2 as int),
{
    if x1 == x2 && y1 == y2 {
        return stay();
    }
    let w = x2 - x1;
    let h = y2 - y1;
    let aw = if w < 0 { -w } else { w };
    let ah = if h < 0 { -h } else { h };
    let dx1 = sign_i64(w);
    let dy1 = sign_i64(h);
    let mut dx2 = sign_i64(w);
    let mut dy2: i64 = 0;
    let mut longest = aw;
    let mut shortest = ah;
    if !(longest > shortest) {
        longest = ah;
        shortest = aw;
        dy2 = sign_i64(h);
        dx2 = 0;
    }
    let ghost setup = line_setup(x1 as int, y1 as int, x2 as int, y2 as int);
    assert(setup == (dx1 as int, dy1 as int, dx2 as int, dy2 as int, longest as int, shortest as int));
    let mut cx = x1;
    let mut cy = y1;
    let mut numerator = longest / 2;
    let mut past_x = x1;
    let mut past_y = y1;
    let mut i: i64 = 0;
    while i <= longest
        invariant
            0 <= i <= longest + 1,
            0 <= shortest <= longest,
            longest > 0,
            longest <= 0x2_0000_0000,
            setup == line_setup(x1 as int, y1 as int, x2 as int, y2 as int),
            setup == (dx1 as int, dy1 as int, dx2 as int, dy2 as int, longest as int, shortest as int),
            -1 <= dx1 <= 1,
            -1 <= dy1 <= 1,
            -1 <= dx2 <= 1,
            -1 <= dy2 <= 1,
            (cx as int, cy as int, numerator as int) == walk(
                x1 as int,
                y1 as int,
                x2 as int,
                y2 as int,
                i as nat,
            ),
            0 <= numerator < longest + longest,
            x1 - i <= cx <= x1 + i,
            y1 - i <= cy <= y1 + i,
            i > 0 ==> (past_x as int, past_y as int) == point(
                x1 as int,
                y1 as int,
                x2 as int,
                y2 as int,
                (i - 1) as nat,
            ),
            forall|j: nat|
                1 <= j < i ==> !blocked(
                    sandbox,
                    #[trigger] point(x1 as int, y1 as int, x2 as int, y2 as int, j),
                ),
            !(x1 == x2 && y1 == y2),
            small(x1 as int),
            small(y1 as int),
            small(x2 as int),
            small(y2 as int),
            sandbox.wf(),
        decreases longest + 1 - i,
    {
        if i >= 1 {
            let (is_blocked, other) = held_at(sandbox, cx, cy);
            if is_blocked {
                proof {
                    assert(first_block(
                        sandbox,
                        x1 as int,
                        y1 as int,
                        x2 as int,
                        y2 as int,
                        i as nat,
                    ));
                    lemma_first_block_unique(
                        sandbox,
                        x1 as int,
                        y1 as int,
                        x2 as int,
                        y2 as int,
                        i as nat,
                    );
                }
                return StepData {
                    new_x: past_x,
                    new_y: past_y,
                    moved: i > 1,
                    other_particle: other,
                    other_x: cx,
                    other_y: cy,
                    swap: false,
                };
            }
        }
        past_x = cx;
        past_y = cy;
        if numerator + shortest >= longest {
            numerator = numerator + shortest - longest;
            cx = cx + dx1;
            cy = cy + dy1;
        } else {
            numerator = numerator + shortest;
            cx = cx + dx2;
            cy = cy + dy2;
        }
        i = i + 1;
    }
    proof {
        assert forall|b: nat| !first_block(sandbox, x1 as int, y1 as int, x2 as int, y2 as int, b) by {
            if 1 <= b <= longest {
                assert(!blocked(sandbox, point(x1 as int, y1 as int, x2 as int, y2 as int, b)));
            }
        }
    }
    StepData {
        new_x: x2,
        new_y: y2,
        moved: true,
        other_particle: None,
        other_x: 0,
        other_y: 0,
        swap: false,
    }
}

/// A velocity component with the one value that cannot be negated moved in by one.
pub open spec fn tame(v: i32) -> i32 {
    if v == i32::MIN {
        (i32::MIN + 1) as i32
    } else {
        v
    }
}

fn tame_i32(v: i32) -> (r: i32)
    ensures
        r == tame(v),
{
    if v == i32::MIN {
        i32::MIN + 1
    } else {
        v
    }
}

/// The velocity `(w, h)` turned by rotation `rotate_type`: straight on, an eighth
/// turn clockwise or counterclockwise, or a unit quarter turn either way.
pub open spec fn rotated(w: i32, h: i32, rotate_type: u32) -> (int, int) {
    let w = tame(w) as int;
    let h = tame(h) as int;
    if rotate_type == 0 {
        (w, h)
    } else if rotate_type == 1 {
        scaled(dir_45_clockwise(w, h), magnitude(w, h))
    } else if rotate_type == 2 {
        scaled(dir_45_counterclockwise(w, h), magnitude(w, h))
    } else if rotate_type == 3 {
        (sign(h), -sign(w))
    } else {
        (-sign(h), sign(w))
    }
}

/// Walks the line from `(start_x, start_y)` along the velocity `(w, h)` turned
/// by `rotate_type`.
fn line_with_rotation(
    start_x: i64,
    start_y: i64,
    w: i32,
    h: i32,
    sandbox: &Sandbox,
    rotate_type: u32,
) -> (r: StepData)
    requires
        sandbox.wf(),
        0 <= start_x <= i32::MAX,
        0 <= start_y <= i32::MAX,
        rotate_type <= 4,
    ensures
        r == line_spec(
            sandbox,
            start_x as int,
            start_y as int,
            start_x + rotated(w, h, rotate_type).0,
            start_y + rotated(w, h, rotate_type).1,
        ),
{
    let w = tame_i32(w);
    let h = tame_i32(h);
    let velocity = if rotate_type == 0 {
        (w, h)
    } else if rotate_type == 1 {
        rotate_45_clockwise(w, h)
    } else if rotate_type == 2 {
        rotate_45_counterclockwise(w, h)
    } else if rotate_type == 3 {
        rotate_90_clockwise_normalized(w, h)
    } else {
        rotate_90_counterclockwise_normalized(w, h)
    };
    line(start_x, start_y, start_x + velocity.0 as i64, start_y + velocity.1 as i64, sandbox)
}

/// The order in which rotations are tried: clockwise turns first, or
/// counterclockwise ones first.
pub open spec fn rotation_order(clockwise_priority: bool) -> Seq<u32> {
    if clockwise_priority {
        seq![0u32, 1u32, 2u32, 3u32, 4u32]
    } else {
        seq![0u32, 2u32, 1u32, 4u32, 3u32]
    }
}

/// How many rotations a particle of movement type `m` tries.
pub open spec fn rotation_count(m: MovementType) -> int {
    match m {
        MovementType::Powder => 3,
        MovementType::Liquid => 5,
        MovementType::Gas => 5,
        MovementType::Solid => 0,
    }
}

/// The first of the rotations from `k` on that moves `p` at `(x, y)`, if any.
pub open spec fn move_from(
    sandbox: &Sandbox,
    x: int,
    y: int,
    p: Particle,
    order: Seq<u32>,
    count: int,
    k: int,
) -> Option<StepData>
    decreases count - k,
{
    if k >= count || k < 0 || k >= order.len() {
        None
    } else {
        let v = rotated(p.velocity.x, p.velocity.y, order[k]);
        let sd = line_spec(sandbox, x, y, x + v.0, y + v.1);
        if sd.moved {
            Some(sd)
        } else {
            move_from(sandbox, x, y, p, order, count, k + 1)
        }
    }
}

/// The first of the rotations from `k` on whose first blocking particle is
/// lighter than `p`, marked as a swap; no step when there is none.
pub open spec fn swap_from(
    sandbox: &Sandbox,
    x: int,
    y: int,
    p: Particle,
    order: Seq<u32>,
    count: int,
    k: int,
) -> StepData
    decreases count - k,
{
    if k >= count || k < 0 || k >= order.len() {
        no_step()
    } else {
        let v = rotated(p.velocity.x, p.velocity.y, order[k]);
        let sd = line_spec(sandbox, x, y, x + v.0, y + v.1);
        if !sd.moved && sd.other_particle is Some && p.density.0 > sd.other_particle.unwrap().density.0 {
            StepData { swap: true, ..sd }
        } else {
            swap_from(sandbox, x, y, p, order, count, k + 1)
        }
    }
}

/// Where the particle at `(x, y)` goes this tick, given the coin flip that
/// orders the rotations: the first rotation that moves it; when none does, a
/// swap with the first lighter particle in its way; else no step.
pub open spec fn step_spec(sandbox: &Sandbox, x: int, y: int, clockwise_priority: bool) -> StepData {
    let p = sandbox.cell(x, y).unwrap();
    let order = rotation_order(clockwise_priority);
    let count = rotation_count(p.movement_type);
    match move_from(sandbox, x, y, p, order, count, 0) {
        Some(sd) => sd,
        None => swap_from(sandbox, x, y, p, order, count, 0),
    }
}

fn rotation_list(clockwise_priority: bool) -> (order: Vec<u32>)
    ensures
        order@ == rotation_order(clockwise_priority),
{
    let mut order: Vec<u32> = Vec::new();
    if clockwise_priority {
        order.push(0);
        order.push(1);
        order.push(2);
        order.push(3);
        order.push(4);
    } else {
        order.push(0);
        order.push(2);
        order.push(1);
        order.push(4);
        order.push(3);
    }
    assert(order@ =~= rotation_order(clockwise_priority));
    order
}

fn get_step_data(x: i64, y: i64, sandbox: &Sandbox, clockwise_priority: bool) -> (r: StepData)
    requires
        sandbox.wf(),
        sandbox.in_bounds(x as int, y as int),
        sandbox.cell(x as int, y as int) is Some,
    ensures
        r == step_spec(sandbox, x as int, y as int, clockwise_priority),
{
    proof {
        sandbox.lemma_dims();
    }
    let particle = sandbox.get_copied(x as usize, y as usize).unwrap();
    let count: usize = match particle.movement_type {
        MovementType::Powder => 3,
        MovementType::Liquid | MovementType::Gas => 5,
        MovementType::Solid => 0,
    };
    let order = rotation_list(clockwise_priority);
    let ghost p = particle;
    let mut k: usize = 0;
    while k < count
        invariant
            k <= count,
            count == rotation_count(particle.movement_type),
            count <= 5,
            order@ == rotation_order(clockwise_priority),
            particle == sandbox.cell(x as int, y as int).unwrap(),
            sandbox.wf(),
            sandbox.in_bounds(x as int, y as int),
            0 <= x <= i32::MAX,
            0 <= y <= i32::MAX,
            move_from(sandbox, x as int, y as int, particle, order@, count as int, k as int)
                == move_from(sandbox, x as int, y as int, particle, order@, count as int, 0),
        decreases count - k,
    {
        let sd = line_with_rotation(
            x,
            y,
            particle.velocity.x,
            particle.velocity.y,
            sandbox,
            order[k],
        );
        if sd.moved {
            return sd;
        }
        k = k + 1;
    }
    let mut k: usize = 0;
    while k < count
        invariant
            k <= count,
            count == rotation_count(particle.movement_type),
            count <= 5,
            order@ == rotation_order(clockwise_priority),
            particle == sandbox.cell(x as int, y as int).unwrap(),
            sandbox.wf(),
            sandbox.in_bounds(x as int, y as int),
            0 <= x <= i32::MAX,
            0 <= y <= i32::MAX,
            move_from(sandbox, x as int, y as int, particle, order@, count as int, 0) is None,
            swap_from(sandbox, x as int, y as int, particle, order@, count as int, k as int)
                == swap_from(sandbox, x as int, y as int, particle, order@, count as int, 0),
        decreases count - k,
    {
        let sd = line_with_rotation(
            x,
            y,
            particle.velocity.x,
            particle.velocity.y,
            sandbox,
            order[k],
        );
        if !sd.moved {
            if let Some(other) = sd.other_particle {
                if particle.density.0 > other.density.0 {
                    return StepData { swap: true, ..sd };
                }
            }
        }
        k = k + 1;
    }
    stay()
}

/// `p` after gravity: powders and liquids speed up downward, gases upward.
/// Solids and particles that gravity does not affect keep their velocity.
pub open spec fn gravity(p: Particle) -> Particle {
    if !p.affected_by_gravity || p.movement_type == MovementType::Solid {
        p
    } else {
        let vy = if p.movement_type == MovementType::Gas {
            if p.velocity.y == i32::MAX { p.velocity.y as int } else { p.velocity.y + 1 }
        } else {
            if p.velocity.y == i32::MIN { p.velocity.y as int } else { p.velocity.y - 1 }
        };
        Particle { velocity: Velocity { x: p.velocity.x, y: vy as i32 }, ..p }
    }
}

fn apply_gravity(x: usize, y: usize, sandbox: &mut Sandbox)
    requires
        old(sandbox).wf(),
        old(sandbox).in_bounds(x as int, y as int),
        old(sandbox).cell(x as int, y as int) is Some,
    ensures
        final(sandbox).wf(),
        final(sandbox).same_geometry(old(sandbox)),
        final(sandbox).same_activity(old(sandbox)),
        final(sandbox).same_cells_except(old(sandbox), x as int, y as int),
        final(sandbox).cell(x as int, y as int) == Some(
            gravity(old(sandbox).cell(x as int, y as int).unwrap()),
        ),
{
    let mut particle = sandbox.get_copied(x, y).unwrap();
    if !particle.affected_by_gravity {
        sandbox.put(x, y, Some(particle));
        return;
    }
    match particle.movement_type {
        MovementType::Powder | MovementType::Liquid => {
            if particle.velocity.y > i32::MIN {
                particle.velocity.y = particle.velocity.y - 1;
            }
        },
        MovementType::Gas => {
            if particle.velocity.y < i32::MAX {
                particle.velocity.y = particle.velocity.y + 1;
            }
        },
        MovementType::Solid => {
            sandbox.put(x, y, Some(particle));
            return;
        },
    }
    sandbox.put(x, y, Some(particle));
}

/// `p` after a successful move: both velocity components damped by one unit
/// toward zero.
pub open spec fn settled(p: Particle) -> Particle {
    Particle { velocity: Velocity { x: damped(p.velocity.x), y: damped(p.velocity.y) }, ..p }
}

/// `p` with its velocity reset to zero.
pub open spec fn halted(p: Particle) -> Particle {
    Particle { velocity: Velocity { x: 0, y: 0 }, ..p }
}

/// Where the move `sd` of the particle at `(x, y)` of `before` leaves `after`:
/// a swap exchanges it with the lighter particle in its way and flags both; a
/// move exchanges it with the empty cell it reaches and flags it there; either
/// way its velocity is damped by one unit toward zero. A particle that cannot
/// move stops.
pub open spec fn moved_per(before: &Sandbox, after: &Sandbox, x: int, y: int, sd: StepData) -> bool {
    let ox = sd.other_x as int;
    let oy = sd.other_y as int;
    let nx = sd.new_x as int;
    let ny = sd.new_y as int;
    if sd.swap && before.in_bounds(ox, oy) {
        forall|qx: int, qy: int|
            #![trigger after.cell(qx, qy)]
            before.in_bounds(qx, qy) ==> after.cell(qx, qy) == if qx == ox && qy == oy {
                flagged(Some(settled(before.cell(x, y).unwrap())))
            } else if qx == x && qy == y {
                flagged(before.cell(ox, oy))
            } else {
                before.cell(qx, qy)
            }
    } else if sd.moved && !sd.swap && before.in_bounds(nx, ny) {
        forall|qx: int, qy: int|
            #![trigger after.cell(qx, qy)]
            before.in_bounds(qx, qy) ==> after.cell(qx, qy) == if qx == nx && qy == ny {
                flagged(Some(settled(before.cell(x, y).unwrap())))
            } else if qx == x && qy == y {
                before.cell(nx, ny)
            } else {
                before.cell(qx, qy)
            }
    } else {
        &&& after.same_cells_except(before, x, y)
        &&& after.cell(x, y) == Some(halted(before.cell(x, y).unwrap()))
    }
}

/// Moves the particle at `(x, y)` for one tick, with the rotations ordered
/// clockwise first or counterclockwise first: gravity, then the first rotation
/// that moves it, else a swap with the first lighter particle in its way, else
/// it stops with zero velocity. A particle that moved or swapped has both
/// velocity components damped by one unit toward zero.
pub fn tick_movement_with(x: usize, y: usize, sandbox: &mut Sandbox, clockwise_priority: bool)
    requires
        old(sandbox).wf(),
        old(sandbox).in_bounds(x as int, y as int),
        old(sandbox).cell(x as int, y as int) is Some,
    ensures
        final(sandbox).wf(),
        final(sandbox).same_geometry(old(sandbox)),
        exists|s: Sandbox|
            {
                &&& s.wf()
                &&& s.same_geometry(old(sandbox))
                &&& s.same_cells_except(old(sandbox), x as int, y as int)
                &&& s.cell(x as int, y as int) == Some(
                    gravity(old(sandbox).cell(x as int, y as int).unwrap()),
                )
                &&& #[trigger] moved_per(
                    &s,
                    final(sandbox),
                    x as int,
                    y as int,
                    step_spec(&s, x as int, y as int, clockwise_priority),
                )
            },
{
    proof {
        sandbox.lemma_dims();
    }
    apply_gravity(x, y, sandbox);
    let ghost s1 = *sandbox;
    let sd = get_step_data(x as i64, y as i64, sandbox, clockwise_priority);
    let w = sandbox.width() as i64;
    let h = sandbox.height() as i64;
    if sd.swap && 0 <= sd.other_x && sd.other_x < w && 0 <= sd.other_y && sd.other_y < h {
        let ox = sd.other_x as usize;
        let oy = sd.other_y as usize;
        let mut mover = sandbox.get_copied(x, y).unwrap();
        mover.velocity.zero_out();
        sandbox.put(x, y, Some(mover));
        sandbox.swap(x, y, ox, oy);
        sandbox.mark_updated(ox, oy);
        sandbox.mark_updated(x, y);
        assert(moved_per(&s1, sandbox, x as int, y as int, sd));
        return;
    }
    if sd.moved && !sd.swap && 0 <= sd.new_x && sd.new_x < w && 0 <= sd.new_y && sd.new_y < h {
        let nx = sd.new_x as usize;
        let ny = sd.new_y as usize;
        let mut mover = sandbox.get_copied(x, y).unwrap();
        mover.velocity.zero_out();
        sandbox.put(x, y, Some(mover));
        sandbox.swap(x, y, nx, ny);
        sandbox.mark_updated(nx, ny);
        assert(moved_per(&s1, sandbox, x as int, y as int, sd));
        return;
    }
    let p = sandbox.get_copied(x, y).unwrap();
    sandbox.put(x, y, Some(Particle { velocity: Velocity::new(0, 0), ..p }));
    assert(moved_per(&s1, sandbox, x as int, y as int, sd));
}

/// What the movement step of the particle at `(x, y)` of `before` leaves: after
/// gravity, the move that one of the two rotation orders gives.
pub open spec fn movement_step(before: &Sandbox, after: &Sandbox, x: int, y: int) -> bool {
    exists|s: Sandbox, clockwise_priority: bool|
        {
            &&& s.wf()
            &&& s.same_geometry(before)
            &&& s.same_cells_except(before, x, y)
            &&& s.cell(x, y) == Some(gravity(before.cell(x, y).unwrap()))
            &&& #[trigger] moved_per(&s, after, x, y, step_spec(&s, x, y, clockwise_priority))
        }
}

/// Moves the particle at `(x, y)` for one tick; a coin flip decides whether
/// clockwise or counterclockwise turns are tried first.
pub fn tick_movement(x: usize, y: usize, sandbox: &mut Sandbox)
    requires
        old(sandbox).wf(),
        old(sandbox).in_bounds(x as int, y as int),
        old(sandbox).cell(x as int, y as int) is Some,
    ensures
        final(sandbox).wf(),
        final(sandbox).same_geometry(old(sandbox)),
        movement_step(old(sandbox), final(sandbox), x as int, y as int),
{
    let clockwise_priority = chance(1, 2);
    tick_movement_with(x, y, sandbox, clockwise_priority);
}

/// The line to a neighboring cell `(x + dx, y + dy)` has that cell as its only
/// step: blocked, the walk fails there; free, it ends there.
proof fn lemma_unit_step(s: &Sandbox, x: int, y: int, dx: int, dy: int)
    requires
        -1 <= dx <= 1,
        -1 <= dy <= 1,
        !(dx == 0 && dy == 0),
        small(x) && small(y),
    ensures
        line_spec(s, x, y, x + dx, y + dy) == if blocked(s, (x + dx, y + dy)) {
            StepData {
                new_x: x as i64,
                new_y: y as i64,
                moved: false,
                other_particle: held(s, (x + dx, y + dy)),
                other_x: (x + dx) as i64,
                other_y: (y + dy) as i64,
                swap: false,
            }
        } else {
            StepData {
                new_x: (x + dx) as i64,
                new_y: (y + dy) as i64,
                moved: true,
                other_particle: None,
                other_x: 0,
                other_y: 0,
                swap: false,
            }
        },
{
    let x2 = x + dx;
    let y2 = y + dy;
    assert(line_setup(x, y, x2, y2).4 == 1);
    assert(walk(x, y, x2, y2, 0) == (x, y, 0int));
    assert(walk(x, y, x2, y2, 1).0 == x2 && walk(x, y, x2, y2, 1).1 == y2);
    assert(point(x, y, x2, y2, 1) == (x2, y2));
    assert(point(x, y, x2, y2, 0) == (x, y));
    if blocked(s, (x2, y2)) {
        assert(first_block(s, x, y, x2, y2, 1));
        lemma_first_block_unique(s, x, y, x2, y2, 1);
    } else {
        assert forall|b: nat| !#[trigger] first_block(s, x, y, x2, y2, b) by {
            if b == 1 {
                assert(!blocked(s, point(x, y, x2, y2, 1)));
            }
        }
    }
}

/// A powder particle at rest, pulled down by gravity, with an empty cell of the
/// grid below it, falls exactly one cell in one movement step and is at rest
/// again afterwards, so it falls one cell per tick.
#[verifier::rlimit(50)]
pub proof fn lemma_powder_at_rest_falls_one_cell(before: &Sandbox, after: &Sandbox, x: int, y: int)
    requires
        before.wf(),
        before.in_bounds(x, y),
        before.in_bounds(x, y - 1),
        before.cell(x, y) is Some,
        before.cell(x, y).unwrap().movement_type == MovementType::Powder,
        before.cell(x, y).unwrap().affected_by_gravity,
        before.cell(x, y).unwrap().velocity == (Velocity { x: 0, y: 0 }),
        before.cell(x, y - 1) is None,
        movement_step(before, after, x, y),
    ensures
        after.cell(x, y - 1) == Some(
            Particle {
                velocity: Velocity { x: 0, y: 0 },
                updated: true,
                ..before.cell(x, y).unwrap()
            },
        ),
        after.cell(x, y) is None,
{
    let (s, cw) = choose|s: Sandbox, clockwise_priority: bool|
        {
            &&& s.wf()
            &&& s.same_geometry(before)
            &&& s.same_cells_except(before, x, y)
            &&& s.cell(x, y) == Some(gravity(before.cell(x, y).unwrap()))
            &&& #[trigger] moved_per(&s, after, x, y, step_spec(&s, x, y, clockwise_priority))
        };
    before.lemma_dims();
    let p = s.cell(x, y).unwrap();
    assert(p.velocity == (Velocity { x: 0, y: -1i32 }));
    assert(s.cell(x, y - 1) == before.cell(x, y - 1));
    let order = rotation_order(cw);
    assert(order[0] == 0u32);
    assert(rotated(p.velocity.x, p.velocity.y, 0) == (0int, -1int));
    assert(small(x) && small(y));
    lemma_unit_step(&s, x, y, 0, -1);
    let line0 = line_spec(&s, x, y, x, y - 1);
    assert(line0.moved);
    assert(rotation_count(p.movement_type) == 3);
    assert(move_from(&s, x, y, p, order, 3, 0) == Some(line0));
    let sd = step_spec(&s, x, y, cw);
    assert(sd == line0);
    assert(sd.new_x as int == x && sd.new_y as int == y - 1 && sd.moved && !sd.swap);
    assert(after.cell(x, y - 1) == flagged(Some(settled(p))));
    assert(after.cell(x, y) == s.cell(x, y - 1));
}

/// No rotation moves a liquid at `(x, y)` falling at unit speed when the five
/// cells it can step to are blocked.
proof fn lemma_liquid_boxed_in(s: &Sandbox, x: int, y: int, p: Particle, order: Seq<u32>)
    requires
        p.velocity == (Velocity { x: 0, y: -1i32 }),
        order == rotation_order(true) || order == rotation_order(false),
        small(x) && small(y),
        blocked(s, (x, y - 1)),
        blocked(s, (x - 1, y - 1)),
        blocked(s, (x + 1, y - 1)),
        blocked(s, (x - 1, y)),
        blocked(s, (x + 1, y)),
    ensures
        move_from(s, x, y, p, order, 5, 0) is None,
{
    assert(rotated(p.velocity.x, p.velocity.y, 0) == (0int, -1int));
    assert(rotated(p.velocity.x, p.velocity.y, 1) == (-1int, -1int));
    assert(rotated(p.velocity.x, p.velocity.y, 2) == (1int, -1int));
    assert(rotated(p.velocity.x, p.velocity.y, 3) == (-1int, 0int));
    assert(rotated(p.velocity.x, p.velocity.y, 4) == (1int, 0int));
    lemma_unit_step(s, x, y, 0, -1);
    lemma_unit_step(s, x, y, -1, -1);
    lemma_unit_step(s, x, y, 1, -1);
    lemma_unit_step(s, x, y, -1, 0);
    lemma_unit_step(s, x, y, 1, 0);
    assert(move_from(s, x, y, p, order, 5, 5) is None);
    assert(move_from(s, x, y, p, order, 5, 4) is None);
    assert(move_from(s, x, y, p, order, 5, 3) is None);
    assert(move_from(s, x, y, p, order, 5, 2) is None);
    assert(move_from(s, x, y, p, order, 5, 1) is None);
}

/// A liquid at rest, pulled down by gravity, above a lighter particle and with
/// no free cell to step to, trades places with that particle in one movement
/// step; both are flagged as processed and the liquid is at rest again.
pub proof fn lemma_liquid_swaps_with_lighter_below(before: &Sandbox, after: &Sandbox, x: int, y: int)
    requires
        before.wf(),
        before.in_bounds(x, y),
        before.in_bounds(x, y - 1),
        before.cell(x, y) is Some,
        before.cell(x, y).unwrap().movement_type == MovementType::Liquid,
        before.cell(x, y).unwrap().affected_by_gravity,
        before.cell(x, y).unwrap().velocity == (Velocity { x: 0, y: 0 }),
        before.cell(x, y - 1) is Some,
        before.cell(x, y).unwrap().density.0 > before.cell(x, y - 1).unwrap().density.0,
        blocked(before, (x - 1, y - 1)),
        blocked(before, (x + 1, y - 1)),
        blocked(before, (x - 1, y)),
        blocked(before, (x + 1, y)),
        movement_step(before, after, x, y),
    ensures
        after.cell(x, y - 1) == Some(
            Particle {
                velocity: Velocity { x: 0, y: 0 },
                updated: true,
                ..before.cell(x, y).unwrap()
            },
        ),
        after.cell(x, y) == flagged(before.cell(x, y - 1)),
{
    let (s, cw) = choose|s: Sandbox, clockwise_priority: bool|
        {
            &&& s.wf()
            &&& s.same_geometry(before)
            &&& s.same_cells_except(before, x, y)
            &&& s.cell(x, y) == Some(gravity(before.cell(x, y).unwrap()))
            &&& #[trigger] moved_per(&s, after, x, y, step_spec(&s, x, y, clockwise_priority))
        };
    before.lemma_dims();
    let p = s.cell(x, y).unwrap();
    assert(p.velocity == (Velocity { x: 0, y: -1i32 }));
    assert(s.cell(x, y - 1) == before.cell(x, y - 1));
    assert(blocked(&s, (x - 1, y - 1)));
    assert(blocked(&s, (x + 1, y - 1)));
    assert(blocked(&s, (x - 1, y)));
    assert(blocked(&s, (x + 1, y)));
    let order = rotation_order(cw);
    lemma_liquid_boxed_in(&s, x, y, p, order);
    assert(order[0] == 0u32);
    lemma_unit_step(&s, x, y, 0, -1);
    let sd = step_spec(&s, x, y, cw);
    assert(sd == StepData { swap: true, ..line_spec(&s, x, y, x, y - 1) });
    assert(sd.other_x as int == x && sd.other_y as int == y - 1);
    assert(after.cell(x, y - 1) == flagged(Some(settled(p))));
    assert(after.cell(x, y) == flagged(s.cell(x, y - 1)));
}

} // verus!
