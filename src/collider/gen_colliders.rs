use vstd::prelude::*;

use crate::collider::utils::{
    all_in_range, get_at, in_range, lemma_rdp_in_range, local_to_world, matches_at,
    ramer_douglas_peucker, rdp, COORD_LIMIT,
};
use crate::particle::CollisionType;
use crate::sandbox::Sandbox;

verus! {

/// The grid corner `(x, y)`; corner `(x, y)` is the lower left corner of cell `(x, y)`.
pub open spec fn pt(x: int, y: int) -> (i64, i64) {
    (x as i64, y as i64)
}

/// The boundary corners a matching cell at `(x, y)` contributes, given which
/// of its right, left, upper and lower neighbors match too.
pub open spec fn corner_table(x: int, y: int, r: bool, l: bool, u: bool, d: bool) -> Seq<(i64, i64)> {
    if r && !l && !u && d {
        seq![pt(x, y), pt(x, y + 1), pt(x + 1, y + 1)]
    } else if r && !l && u && !d {
        seq![pt(x, y + 1), pt(x, y), pt(x + 1, y)]
    } else if !r && l && !u && d {
        seq![pt(x, y + 1), pt(x + 1, y + 1), pt(x + 1, y)]
    } else if !r && l && u && !d {
        seq![pt(x + 1, y + 1), pt(x + 1, y), pt(x, y)]
    } else if (r && l && u && !d) || (!r && !l && u && !d) {
        seq![pt(x, y), pt(x + 1, y)]
    } else if (r && l && !u && d) || (!r && !l && !u && d) {
        seq![pt(x, y + 1), pt(x + 1, y + 1)]
    } else if (r && !l && u && d) || (r && !l && !u && !d) {
        seq![pt(x, y), pt(x, y + 1)]
    } else if (!r && l && u && d) || (!r && l && !u && !d) {
        seq![pt(x + 1, y), pt(x + 1, y + 1)]
    } else if r && l && u && d {
        seq![]
    } else {
        seq![pt(x + 1, y + 1), pt(x, y + 1), pt(x, y), pt(x + 1, y)]
    }
}

/// The corners cell `(x, y)` contributes to the boundary of `collision_type`.
pub open spec fn cell_corners(sandbox: &Sandbox, x: int, y: int, collision_type: CollisionType) -> Seq<
    (i64, i64),
> {
    if !matches_at(sandbox, x, y, collision_type) {
        seq![]
    } else {
        corner_table(
            x,
            y,
            matches_at(sandbox, x + 1, y, collision_type),
            matches_at(sandbox, x - 1, y, collision_type),
            matches_at(sandbox, x, y + 1, collision_type),
            matches_at(sandbox, x, y - 1, collision_type),
        )
    }
}

/// The corners of column `x`, rows `lo_y` up to (not including) `y_end`.
pub open spec fn column_corners(
    sandbox: &Sandbox,
    x: int,
    lo_y: int,
    y_end: int,
    collision_type: CollisionType,
) -> Seq<(i64, i64)>
    decreases y_end - lo_y,
{
    if y_end <= lo_y {
        seq![]
    } else {
        column_corners(sandbox, x, lo_y, y_end - 1, collision_type) + cell_corners(
            sandbox,
            x,
            y_end - 1,
            collision_type,
        )
    }
}

/// The corners of columns `lo_x` up to (not including) `x_end`, column by column.
pub open spec fn box_corners(
    sandbox: &Sandbox,
    lo_x: int,
    x_end: int,
    lo_y: int,
    y_end: int,
    collision_type: CollisionType,
) -> Seq<(i64, i64)>
    decreases x_end - lo_x,
{
    if x_end <= lo_x {
        seq![]
    } else {
        box_corners(sandbox, lo_x, x_end - 1, lo_y, y_end, collision_type) + column_corners(
            sandbox,
            x_end - 1,
            lo_y,
            y_end,
            collision_type,
        )
    }
}

/// `a` and `b` are one unit apart.
pub open spec fn unit_apart(a: (i64, i64), b: (i64, i64)) -> bool {
    (a.0 == b.0 && (a.1 - b.1 == 1 || b.1 - a.1 == 1)) || (a.1 == b.1 && (a.0 - b.0 == 1 || b.0
        - a.0 == 1))
}

/// The first index from `i` on of a point one unit from `p`, or -1.
pub open spec fn find_from(s: Seq<(i64, i64)>, p: (i64, i64), i: int) -> int
    decreases s.len() - i,
{
    if i < 0 || i >= s.len() {
        -1
    } else if unit_apart(p, s[i]) {
        i
    } else {
        find_from(s, p, i + 1)
    }
}

pub open spec fn drawing_measure(remaining: Seq<(i64, i64)>, chain: Seq<(i64, i64)>) -> int {
    2 * remaining.len() + if chain.len() > 0 { 1int } else { 0int }
}

/// Chains the `remaining` points into polylines: the current `chain` grows by
/// the first remaining point one unit from its end; when there is none it is
/// closed and the next chain starts from the first remaining point.
pub open spec fn drawing(
    remaining: Seq<(i64, i64)>,
    chain: Seq<(i64, i64)>,
    groups: Seq<Seq<(i64, i64)>>,
) -> Seq<Seq<(i64, i64)>>
    decreases drawing_measure(remaining, chain),
{
    if remaining.len() == 0 {
        if chain.len() > 0 {
            groups.push(chain)
        } else {
            groups
        }
    } else {
        let c1 = if chain.len() == 0 { seq![remaining[0]] } else { chain };
        let r1 = if chain.len() == 0 { remaining.drop_first() } else { remaining };
        let i = find_from(r1, c1.last(), 0);
        if 0 <= i < r1.len() {
            drawing(r1.remove(i), c1.push(r1[i]), groups)
        } else {
            drawing(r1, seq![], groups.push(c1))
        }
    }
}

proof fn lemma_find_from_range(s: Seq<(i64, i64)>, p: (i64, i64), i: int)
    ensures
        find_from(s, p, i) == -1 || (0 <= i <= find_from(s, p, i) < s.len() && unit_apart(
            p,
            s[find_from(s, p, i)],
        )),
    decreases s.len() - i,
{
    if 0 <= i < s.len() && !unit_apart(p, s[i]) {
        lemma_find_from_range(s, p, i + 1);
    }
}

fn find_adjacent(s: &Vec<(i64, i64)>, p: (i64, i64)) -> (r: Option<usize>)
    ensures
        r is Some ==> r.unwrap() == find_from(s@, p, 0),
        r is None ==> find_from(s@, p, 0) == -1,
{
    let mut i: usize = 0;
    while i < s.len()
        invariant
            i <= s@.len(),
            find_from(s@, p, i as int) == find_from(s@, p, 0),
        decreases s@.len() - i,
    {
        let q = s[i];
        if (p.0 == q.0 && (p.1 as i128 - q.1 as i128 == 1 || q.1 as i128 - p.1 as i128 == 1)) || (p.1
            == q.1 && (p.0 as i128 - q.0 as i128 == 1 || q.0 as i128 - p.0 as i128 == 1)) {
            return Some(i);
        }
        i = i + 1;
    }
    None
}

/// Chains boundary points into polylines of unit steps.
pub fn points_to_drawing_order(points: &Vec<(i64, i64)>) -> (r: Vec<Vec<(i64, i64)>>)
    ensures
        r@.map_values(|g: Vec<(i64, i64)>| g@) == drawing(points@, seq![], seq![]),
{
    let mut edge_points: Vec<(i64, i64)> = Vec::new();
    let mut k: usize = 0;
    while k < points.len()
        invariant
            k <= points@.len(),
            edge_points@ == points@.subrange(0, k as int),
        decreases points@.len() - k,
    {
        edge_points.push(points[k]);
        k = k + 1;
    }
    assert(edge_points@ =~= points@);
    let mut in_drawing_order: Vec<(i64, i64)> = Vec::new();
    let mut groups: Vec<Vec<(i64, i64)>> = Vec::new();
    assert(groups@.map_values(|g: Vec<(i64, i64)>| g@) =~= Seq::<Seq<(i64, i64)>>::empty());
    assert(in_drawing_order@ =~= Seq::<(i64, i64)>::empty());
    while edge_points.len() > 0
        invariant
            drawing(
                edge_points@,
                in_drawing_order@,
                groups@.map_values(|g: Vec<(i64, i64)>| g@),
            ) == drawing(points@, seq![], seq![]),
        decreases drawing_measure(edge_points@, in_drawing_order@),
    {
        let ghost g0 = groups@.map_values(|g: Vec<(i64, i64)>| g@);
        let ghost c0 = in_drawing_order@;
        let ghost r0 = edge_points@;
        if in_drawing_order.len() == 0 {
            let first = edge_points.remove(0);
            in_drawing_order.push(first);
            assert(edge_points@ =~= r0.drop_first());
            assert(in_drawing_order@ =~= seq![r0[0]]);
        }
        let prev = in_drawing_order[in_drawing_order.len() - 1];
        let i = find_adjacent(&edge_points, prev);
        proof {
            lemma_find_from_range(edge_points@, prev, 0);
        }
        if let Some(i) = i {
            let next = edge_points.remove(i);
            in_drawing_order.push(next);
        } else {
            let chain = in_drawing_order;
            in_drawing_order = Vec::new();
            groups.push(chain);
            assert(groups@.map_values(|g: Vec<(i64, i64)>| g@) =~= g0.push(
                if c0.len() == 0 { seq![r0[0]] } else { c0 },
            ));
        }
    }
    if in_drawing_order.len() > 0 {
        let ghost g0 = groups@.map_values(|g: Vec<(i64, i64)>| g@);
        let ghost c0 = in_drawing_order@;
        groups.push(in_drawing_order);
        assert(groups@.map_values(|g: Vec<(i64, i64)>| g@) =~= g0.push(c0));
    }
    groups
}

fn corners(x: i64, y: i64, r: bool, l: bool, u: bool, d: bool, out: &mut Vec<(i64, i64)>)
    requires
        -COORD_LIMIT <= x < COORD_LIMIT,
        -COORD_LIMIT <= y < COORD_LIMIT,
    ensures
        final(out)@ == old(out)@ + corner_table(x as int, y as int, r, l, u, d),
{
    let ghost before = out@;
    if r && !l && !u && d {
        out.push((x, y));
        out.push((x, y + 1));
        out.push((x + 1, y + 1));
    } else if r && !l && u && !d {
        out.push((x, y + 1));
        out.push((x, y));
        out.push((x + 1, y));
    } else if !r && l && !u && d {
        out.push((x, y + 1));
        out.push((x + 1, y + 1));
        out.push((x + 1, y));
    } else if !r && l && u && !d {
        out.push((x + 1, y + 1));
        out.push((x + 1, y));
        out.push((x, y));
    } else if (r && l && u && !d) || (!r && !l && u && !d) {
        out.push((x, y));
        out.push((x + 1, y));
    } else if (r && l && !u && d) || (!r && !l && !u && d) {
        out.push((x, y + 1));
        out.push((x + 1, y + 1));
    } else if (r && !l && u && d) || (r && !l && !u && !d) {
        out.push((x, y));
        out.push((x, y + 1));
    } else if (!r && l && u && d) || (!r && l && !u && !d) {
        out.push((x + 1, y));
        out.push((x + 1, y + 1));
    } else if r && l && u && d {
    } else {
        out.push((x + 1, y + 1));
        out.push((x, y + 1));
        out.push((x, y));
        out.push((x + 1, y));
    }
    assert(out@ =~= before + corner_table(x as int, y as int, r, l, u, d));
}

/// Marches every cell of the box from `low` to `high` (both included), column by
/// column, into boundary corners of `collision_type`, and chains them into polylines.
pub fn march_edges(
    sandbox: &Sandbox,
    low: (i64, i64),
    high: (i64, i64),
    collision_type: CollisionType,
) -> (r: Vec<Vec<(i64, i64)>>)
    requires
        sandbox.wf(),
        -COORD_LIMIT <= low.0,
        -COORD_LIMIT <= low.1,
        high.0 < COORD_LIMIT,
        high.1 < COORD_LIMIT,
    ensures
        r@.map_values(|g: Vec<(i64, i64)>| g@) == drawing(
            box_corners(sandbox, low.0 as int, high.0 + 1, low.1 as int, high.1 + 1, collision_type),
            seq![],
            seq![],
        ),
{
    let mut edge_points: Vec<(i64, i64)> = Vec::new();
    let mut x = low.0;
    if x <= high.0 {
        while x <= high.0
            invariant
                low.0 <= x <= high.0 + 1,
                -COORD_LIMIT <= low.0,
                -COORD_LIMIT <= low.1,
                high.0 < COORD_LIMIT,
                high.1 < COORD_LIMIT,
                sandbox.wf(),
                edge_points@ == box_corners(
                    sandbox,
                    low.0 as int,
                    x as int,
                    low.1 as int,
                    high.1 + 1,
                    collision_type,
                ),
            decreases high.0 + 1 - x,
        {
            let ghost before = edge_points@;
            let mut y = low.1;
            assert(column_corners(sandbox, x as int, low.1 as int, low.1 as int, collision_type)
                =~= seq![]);
            assert(before + seq![] =~= before);
            while y <= high.1
                invariant
                    low.0 <= x <= high.0,
                    low.1 <= y,
                    y <= high.1 + 1 || y == low.1,
                    -COORD_LIMIT <= low.0,
                    -COORD_LIMIT <= low.1,
                    high.0 < COORD_LIMIT,
                    high.1 < COORD_LIMIT,
                    sandbox.wf(),
                    edge_points@ == before + column_corners(
                        sandbox,
                        x as int,
                        low.1 as int,
                        y as int,
                        collision_type,
                    ),
                decreases high.1 + 1 - y,
            {
                let xi = x as i32;
                let yi = y as i32;
                if get_at(sandbox, xi, yi, collision_type) == 1 {
                    let r = get_at(sandbox, xi + 1, yi, collision_type) == 1;
                    let l = get_at(sandbox, xi - 1, yi, collision_type) == 1;
                    let u = get_at(sandbox, xi, yi + 1, collision_type) == 1;
                    let d = get_at(sandbox, xi, yi - 1, collision_type) == 1;
                    corners(x, y, r, l, u, d, &mut edge_points);
                }
                assert(edge_points@ =~= before + column_corners(
                    sandbox,
                    x as int,
                    low.1 as int,
                    y + 1,
                    collision_type,
                ));
                y = y + 1;
            }
            assert(y == high.1 + 1 || high.1 < low.1);
            proof {
                if high.1 < low.1 {
                    assert(column_corners(sandbox, x as int, low.1 as int, high.1 + 1, collision_type)
                        =~= seq![]);
                }
            }
            x = x + 1;
        }
    }
    proof {
        if high.0 < low.0 {
            assert(box_corners(sandbox, low.0 as int, high.0 + 1, low.1 as int, high.1 + 1, collision_type)
                =~= seq![]);
        }
    }
    points_to_drawing_order(&edge_points)
}

proof fn lemma_column_in_range(
    sandbox: &Sandbox,
    x: int,
    lo_y: int,
    y_end: int,
    collision_type: CollisionType,
)
    requires
        -COORD_LIMIT <= x < COORD_LIMIT,
        -COORD_LIMIT <= lo_y,
        y_end <= COORD_LIMIT,
    ensures
        all_in_range(column_corners(sandbox, x, lo_y, y_end, collision_type)),
    decreases y_end - lo_y,
{
    if y_end > lo_y {
        lemma_column_in_range(sandbox, x, lo_y, y_end - 1, collision_type);
        let a = column_corners(sandbox, x, lo_y, y_end - 1, collision_type);
        let b = cell_corners(sandbox, x, y_end - 1, collision_type);
        assert forall|i: int| 0 <= i < b.len() implies in_range(#[trigger] b[i]) by {}
        assert forall|i: int| 0 <= i < (a + b).len() implies in_range(#[trigger] (a + b)[i]) by {
            if i >= a.len() {
                assert((a + b)[i] == b[i - a.len()]);
            }
        }
    }
}

proof fn lemma_box_in_range(
    sandbox: &Sandbox,
    lo_x: int,
    x_end: int,
    lo_y: int,
    y_end: int,
    collision_type: CollisionType,
)
    requires
        -COORD_LIMIT <= lo_x,
        x_end <= COORD_LIMIT,
        -COORD_LIMIT <= lo_y,
        y_end <= COORD_LIMIT,
    ensures
        all_in_range(box_corners(sandbox, lo_x, x_end, lo_y, y_end, collision_type)),
    decreases x_end - lo_x,
{
    if x_end > lo_x {
        lemma_box_in_range(sandbox, lo_x, x_end - 1, lo_y, y_end, collision_type);
        lemma_column_in_range(sandbox, x_end - 1, lo_y, y_end, collision_type);
        let a = box_corners(sandbox, lo_x, x_end - 1, lo_y, y_end, collision_type);
        let b = column_corners(sandbox, x_end - 1, lo_y, y_end, collision_type);
        assert forall|i: int| 0 <= i < (a + b).len() implies in_range(#[trigger] (a + b)[i]) by {
            if i >= a.len() {
                assert((a + b)[i] == b[i - a.len()]);
            }
        }
    }
}

/// Every group of a chaining is a non-empty run of points in range.
pub open spec fn good_groups(groups: Seq<Seq<(i64, i64)>>) -> bool {
    forall|g: int| 0 <= g < groups.len() ==> (#[trigger] groups[g]).len() >= 1 && all_in_range(groups[g])
}

proof fn lemma_drawing_good(
    remaining: Seq<(i64, i64)>,
    chain: Seq<(i64, i64)>,
    groups: Seq<Seq<(i64, i64)>>,
)
    requires
        all_in_range(remaining),
        all_in_range(chain),
        good_groups(groups),
    ensures
        good_groups(drawing(remaining, chain, groups)),
    decreases drawing_measure(remaining, chain),
{
    if remaining.len() == 0 {
        if chain.len() > 0 {
            assert(good_groups(groups.push(chain)));
        }
    } else {
        let c1 = if chain.len() == 0 { seq![remaining[0]] } else { chain };
        let r1 = if chain.len() == 0 { remaining.drop_first() } else { remaining };
        assert(all_in_range(c1));
        assert(all_in_range(r1));
        let i = find_from(r1, c1.last(), 0);
        if 0 <= i < r1.len() {
            assert(all_in_range(r1.remove(i)));
            assert(all_in_range(c1.push(r1[i])));
            lemma_drawing_good(r1.remove(i), c1.push(r1[i]), groups);
        } else {
            assert(good_groups(groups.push(c1)));
            lemma_drawing_good(r1, seq![], groups.push(c1));
        }
    }
}

/// The simplification tolerance of a collision category: tighter for solids.
pub open spec fn tolerance(collision_type: CollisionType) -> u32 {
    if collision_type == CollisionType::Solid {
        1
    } else {
        2
    }
}

/// Corner `p` of a grid `w` by `h` cells in the consumer's coordinates: centred
/// on the grid, eight units per cell.
pub open spec fn world_point(p: (i64, i64), w: int, h: int) -> (i64, i64) {
    ((8 * p.0 - 4 * w) as i64, (8 * p.1 - 4 * h) as i64)
}

pub open spec fn to_world(s: Seq<(i64, i64)>, w: int, h: int) -> Seq<(i64, i64)> {
    s.map_values(|p: (i64, i64)| world_point(p, w, h))
}

/// The simplified polylines of `collision_type` in the box from `low` to `high`.
pub open spec fn category_geometry(
    sandbox: &Sandbox,
    low: (i64, i64),
    high: (i64, i64),
    collision_type: CollisionType,
) -> Seq<(CollisionType, Seq<(i64, i64)>)> {
    drawing(
        box_corners(sandbox, low.0 as int, high.0 + 1, low.1 as int, high.1 + 1, collision_type),
        seq![],
        seq![],
    ).map_values(|g: Seq<(i64, i64)>| simplified_world(sandbox, collision_type, g))
}

/// Polyline `g` of `collision_type`, simplified and placed in the consumer's coordinates.
pub open spec fn simplified_world(
    sandbox: &Sandbox,
    collision_type: CollisionType,
    g: Seq<(i64, i64)>,
) -> (CollisionType, Seq<(i64, i64)>) {
    (
        collision_type,
        to_world(
            rdp(g, tolerance(collision_type) as int),
            sandbox.spec_width(),
            sandbox.spec_height(),
        ),
    )
}

/// The lower corner of tile `k`'s box.
pub open spec fn chunk_low(sandbox: &Sandbox, k: int) -> (i64, i64) {
    (((k % sandbox.xc()) * sandbox.cw()) as i64, ((k / sandbox.xc()) * sandbox.ch()) as i64)
}

/// The upper corner of tile `k`'s box.
pub open spec fn chunk_high(sandbox: &Sandbox, k: int) -> (i64, i64) {
    (
        ((k % sandbox.xc()) * sandbox.cw() + sandbox.cw()) as i64,
        ((k / sandbox.xc()) * sandbox.ch() + sandbox.ch()) as i64,
    )
}

/// The new geometry of tile `k`: for each collision category but the empty one,
/// in declaration order, its simplified polylines.
pub open spec fn chunk_geometry(sandbox: &Sandbox, k: int) -> Seq<(CollisionType, Seq<(i64, i64)>)> {
    let low = chunk_low(sandbox, k);
    let high = chunk_high(sandbox, k);
    category_geometry(sandbox, low, high, CollisionType::Solid) + category_geometry(
        sandbox,
        low,
        high,
        CollisionType::Acid,
    ) + category_geometry(sandbox, low, high, CollisionType::Fire) + category_geometry(
        sandbox,
        low,
        high,
        CollisionType::Water,
    )
}

pub open spec fn geometry_view(r: Seq<(CollisionType, Vec<(i64, i64)>)>) -> Seq<
    (CollisionType, Seq<(i64, i64)>),
> {
    r.map_values(|e: (CollisionType, Vec<(i64, i64)>)| (e.0, e.1@))
}

proof fn lemma_category_index(
    sandbox: &Sandbox,
    low: (i64, i64),
    high: (i64, i64),
    collision_type: CollisionType,
    b: int,
)
    ensures
        ({
            let groups = drawing(
                box_corners(sandbox, low.0 as int, high.0 + 1, low.1 as int, high.1 + 1, collision_type),
                seq![],
                seq![],
            );
            &&& category_geometry(sandbox, low, high, collision_type).len() == groups.len()
            &&& 0 <= b < groups.len() ==> category_geometry(sandbox, low, high, collision_type)[b]
                == simplified_world(sandbox, collision_type, groups[b])
        }),
{
}

fn append_category(
    sandbox: &Sandbox,
    low: (i64, i64),
    high: (i64, i64),
    collision_type: CollisionType,
    out: &mut Vec<(CollisionType, Vec<(i64, i64)>)>,
)
    requires
        sandbox.wf(),
        -COORD_LIMIT <= low.0,
        -COORD_LIMIT <= low.1,
        high.0 < COORD_LIMIT,
        high.1 < COORD_LIMIT,
        sandbox.spec_width() < COORD_LIMIT,
        sandbox.spec_height() < COORD_LIMIT,
    ensures
        geometry_view(final(out)@) == geometry_view(old(out)@) + category_geometry(
            sandbox,
            low,
            high,
            collision_type,
        ),
{
    let blocks = march_edges(sandbox, low, high, collision_type);
    let ghost groups = drawing(
        box_corners(sandbox, low.0 as int, high.0 + 1, low.1 as int, high.1 + 1, collision_type),
        seq![],
        seq![],
    );
    proof {
        lemma_box_in_range(sandbox, low.0 as int, high.0 + 1, low.1 as int, high.1 + 1, collision_type);
        lemma_drawing_good(
            box_corners(sandbox, low.0 as int, high.0 + 1, low.1 as int, high.1 + 1, collision_type),
            seq![],
            seq![],
        );
        sandbox.lemma_dims();
    }
    let theta: u32 = if collision_type == CollisionType::Solid {
        1
    } else {
        2
    };
    let w = sandbox.width() as i64;
    let h = sandbox.height() as i64;
    let ghost start = geometry_view(out@);
    let mut b: usize = 0;
    while b < blocks.len()
        invariant
            b <= blocks@.len(),
            blocks@.map_values(|g: Vec<(i64, i64)>| g@) == groups,
            groups == drawing(
                box_corners(sandbox, low.0 as int, high.0 + 1, low.1 as int, high.1 + 1, collision_type),
                seq![],
                seq![],
            ),
            good_groups(groups),
            theta == tolerance(collision_type),
            w == sandbox.spec_width(),
            h == sandbox.spec_height(),
            0 <= w < COORD_LIMIT,
            0 <= h < COORD_LIMIT,
            geometry_view(out@) == start + category_geometry(
                sandbox,
                low,
                high,
                collision_type,
            ).subrange(0, b as int),
        decreases blocks@.len() - b,
    {
        assert(blocks@[b as int]@ == groups[b as int]);
        let simplified = ramer_douglas_peucker(&blocks[b], theta);
        let ghost simple = rdp(groups[b as int], theta as int);
        proof {
            assert(groups[b as int].len() >= 1 && all_in_range(groups[b as int]));
            lemma_rdp_in_range(groups[b as int], theta as int);
        }
        let mut world: Vec<(i64, i64)> = Vec::new();
        let mut i: usize = 0;
        while i < simplified.len()
            invariant
                i <= simplified@.len(),
                simplified@ == simple,
                w == sandbox.spec_width(),
                h == sandbox.spec_height(),
                0 <= w < COORD_LIMIT,
                0 <= h < COORD_LIMIT,
                all_in_range(simplified@),
                world@ == to_world(simplified@.subrange(0, i as int), w as int, h as int),
            decreases simplified@.len() - i,
        {
            let p = simplified[i];
            assert(in_range(simplified@[i as int]));
            world.push((8 * p.0 - 4 * w, 8 * p.1 - 4 * h));
            assert(world@ =~= to_world(simplified@.subrange(0, i + 1), w as int, h as int));
            i = i + 1;
        }
        assert(simplified@.subrange(0, simplified@.len() as int) =~= simplified@);
        let ghost prev = out@;
        assert(b < groups.len());
        assert(world@ == to_world(
            rdp(groups[b as int], tolerance(collision_type) as int),
            sandbox.spec_width(),
            sandbox.spec_height(),
        ));
        out.push((collision_type, world));
        proof {
            lemma_category_index(sandbox, low, high, collision_type, b as int);
        }
        assert(category_geometry(sandbox, low, high, collision_type)[b as int] == simplified_world(
            sandbox,
            collision_type,
            groups[b as int],
        ));
        assert(geometry_view(out@) =~= geometry_view(prev).push((collision_type, world@)));
        assert(geometry_view(out@) =~= start + category_geometry(
            sandbox,
            low,
            high,
            collision_type,
        ).subrange(0, b + 1));
        b = b + 1;
    }
    assert(category_geometry(sandbox, low, high, collision_type).subrange(0, b as int)
        =~= category_geometry(sandbox, low, high, collision_type));
}

/// The polylines that replace tile `k`'s geometry: per collision category, the
/// tile's box (with one more row and column) marched, chained, simplified, and
/// placed in the consumer's coordinates.
pub fn chunk_colliders(sandbox: &Sandbox, k: usize) -> (r: Vec<(CollisionType, Vec<(i64, i64)>)>)
    requires
        sandbox.wf(),
        k < sandbox.chunk_seq().len(),
        sandbox.spec_width() < COORD_LIMIT,
        sandbox.spec_height() < COORD_LIMIT,
    ensures
        geometry_view(r@) == chunk_geometry(sandbox, k as int),
{
    proof {
        sandbox.lemma_chunk_shape(k as int);
        sandbox.lemma_dims();
        let px = k as int % sandbox.xc();
        let py = k as int / sandbox.xc();
        assert(px * sandbox.cw() + sandbox.cw() <= sandbox.xc() * sandbox.cw()) by (nonlinear_arith)
            requires
                0 <= px < sandbox.xc(),
                sandbox.cw() > 0,
        ;
        assert(py * sandbox.ch() + sandbox.ch() <= sandbox.yc() * sandbox.ch()) by (nonlinear_arith)
            requires
                0 <= py < sandbox.yc(),
                sandbox.ch() > 0,
        ;
        assert(0 <= px * sandbox.cw() && 0 <= py * sandbox.ch()) by (nonlinear_arith)
            requires
                0 <= px,
                0 <= py,
                sandbox.cw() > 0,
                sandbox.ch() > 0,
        ;
    }
    let chunks = sandbox.get_all_chunks();
    let chunk = &chunks[k];
    assert(*chunk == sandbox.chunk_seq()[k as int]);
    let low = local_to_world(chunk, (0, 0));
    let high = local_to_world(chunk, (chunk.width() as i64, chunk.height() as i64));
    assert(low == chunk_low(sandbox, k as int));
    assert(high == chunk_high(sandbox, k as int));
    let mut out: Vec<(CollisionType, Vec<(i64, i64)>)> = Vec::new();
    assert(geometry_view(out@) =~= Seq::<(CollisionType, Seq<(i64, i64)>)>::empty());
    let types = CollisionType::iter();
    let mut t: usize = 1;
    while t < types.len()
        invariant
            1 <= t <= 5,
            types@ == seq![
                CollisionType::Empty,
                CollisionType::Solid,
                CollisionType::Acid,
                CollisionType::Fire,
                CollisionType::Water,
            ],
            sandbox.wf(),
            sandbox.spec_width() < COORD_LIMIT,
            sandbox.spec_height() < COORD_LIMIT,
            low == chunk_low(sandbox, k as int),
            high == chunk_high(sandbox, k as int),
            -COORD_LIMIT <= low.0,
            -COORD_LIMIT <= low.1,
            high.0 < COORD_LIMIT,
            high.1 < COORD_LIMIT,
            t >= 2 ==> geometry_view(out@) == category_geometry(sandbox, low, high, types@[1])
                + if t >= 3 {
                category_geometry(sandbox, low, high, types@[2])
            } else {
                seq![]
            } + if t >= 4 {
                category_geometry(sandbox, low, high, types@[3])
            } else {
                seq![]
            } + if t >= 5 {
                category_geometry(sandbox, low, high, types@[4])
            } else {
                seq![]
            },
            t == 1 ==> geometry_view(out@) == Seq::<(CollisionType, Seq<(i64, i64)>)>::empty(),
        decreases 5 - t,
    {
        append_category(sandbox, low, high, types[t], &mut out);
        proof {
            let e = Seq::<(CollisionType, Seq<(i64, i64)>)>::empty();
            let c1 = category_geometry(sandbox, low, high, types@[1]);
            let c2 = category_geometry(sandbox, low, high, types@[2]);
            let c3 = category_geometry(sandbox, low, high, types@[3]);
            let c4 = category_geometry(sandbox, low, high, types@[4]);
            assert(e + c1 =~= c1 + e + e + e);
            assert(c1 + e + e + e + c2 =~= c1 + c2 + e + e);
            assert(c1 + c2 + e + e + c3 =~= c1 + c2 + c3 + e);
            assert(c1 + c2 + c3 + e + c4 =~= c1 + c2 + c3 + c4);
        }
        t = t + 1;
    }
    out
}

/// Every cell of `a` and `b` is occupied alike, and by particles of the same
/// collision category.
pub open spec fn same_categories(a: &Sandbox, b: &Sandbox) -> bool {
    forall|qx: int, qy: int|
        #![trigger a.cell(qx, qy)]
        #![trigger b.cell(qx, qy)]
        a.in_bounds(qx, qy) ==> (a.cell(qx, qy) is Some <==> b.cell(qx, qy) is Some) && (a.cell(
            qx,
            qy,
        ) is Some ==> a.cell(qx, qy).unwrap().collision_type == b.cell(
            qx,
            qy,
        ).unwrap().collision_type)
}

/// The cells of `a` and `b` with `x0 <= x <= x1` and `y0 <= y <= y1` are
/// occupied alike, and by particles of the same collision category.
pub open spec fn same_categories_in(a: &Sandbox, b: &Sandbox, x0: int, x1: int, y0: int, y1: int) -> bool {
    forall|qx: int, qy: int|
        #![trigger a.cell(qx, qy)]
        #![trigger b.cell(qx, qy)]
        a.in_bounds(qx, qy) && x0 <= qx <= x1 && y0 <= qy <= y1 ==> (a.cell(qx, qy) is Some
            <==> b.cell(qx, qy) is Some) && (a.cell(qx, qy) is Some ==> a.cell(
            qx,
            qy,
        ).unwrap().collision_type == b.cell(qx, qy).unwrap().collision_type)
}

/// Boundary extraction of tile `k` depends only on which cells in and around
/// the tile's marched box are occupied and by which collision category: two
/// grids of the same shape that agree on those cells give the same geometry for
/// the tile, so re-extracting an unchanged tile reproduces its polylines.
pub proof fn lemma_extraction_depends_on_nearby_cells(a: &Sandbox, b: &Sandbox, k: int)
    requires
        a.same_geometry(b),
        same_categories_in(
            a,
            b,
            chunk_low(a, k).0 - 1,
            chunk_high(a, k).0 + 1,
            chunk_low(a, k).1 - 1,
            chunk_high(a, k).1 + 1,
        ),
    ensures
        chunk_geometry(a, k) == chunk_geometry(b, k),
{
    let low = chunk_low(a, k);
    let high = chunk_high(a, k);
    assert forall|ct: CollisionType| #[trigger]
        category_geometry(a, low, high, ct) == category_geometry(b, low, high, ct) by {
        lemma_box_same(
            a,
            b,
            low.0 as int,
            high.0 + 1,
            low.1 as int,
            high.1 + 1,
            ct,
            low.0 - 1,
            high.0 + 1,
            low.1 - 1,
            high.1 + 1,
        );
    }
}

/// Boundary extraction depends only on which cells are occupied and by which
/// collision category: two grids of the same shape that agree on that give the
/// same geometry for every tile.
pub proof fn lemma_extraction_depends_on_cells(a: &Sandbox, b: &Sandbox, k: int)
    requires
        a.same_geometry(b),
        same_categories(a, b),
    ensures
        chunk_geometry(a, k) == chunk_geometry(b, k),
{
    lemma_extraction_depends_on_nearby_cells(a, b, k);
}

proof fn lemma_box_same(
    a: &Sandbox,
    b: &Sandbox,
    lo_x: int,
    x_end: int,
    lo_y: int,
    y_end: int,
    collision_type: CollisionType,
    x0: int,
    x1: int,
    y0: int,
    y1: int,
)
    requires
        a.same_geometry(b),
        same_categories_in(a, b, x0, x1, y0, y1),
        x0 <= lo_x - 1,
        x_end <= x1,
        y0 <= lo_y - 1,
        y_end <= y1,
    ensures
        box_corners(a, lo_x, x_end, lo_y, y_end, collision_type) == box_corners(
            b,
            lo_x,
            x_end,
            lo_y,
            y_end,
            collision_type,
        ),
    decreases x_end - lo_x,
{
    if x_end > lo_x {
        lemma_box_same(a, b, lo_x, x_end - 1, lo_y, y_end, collision_type, x0, x1, y0, y1);
        lemma_column_same(a, b, x_end - 1, lo_y, y_end, collision_type, x0, x1, y0, y1);
    }
}

proof fn lemma_column_same(
    a: &Sandbox,
    b: &Sandbox,
    x: int,
    lo_y: int,
    y_end: int,
    collision_type: CollisionType,
    x0: int,
    x1: int,
    y0: int,
    y1: int,
)
    requires
        a.same_geometry(b),
        same_categories_in(a, b, x0, x1, y0, y1),
        x0 <= x - 1,
        x + 1 <= x1,
        y0 <= lo_y - 1,
        y_end <= y1,
    ensures
        column_corners(a, x, lo_y, y_end, collision_type) == column_corners(
            b,
            x,
            lo_y,
            y_end,
            collision_type,
        ),
    decreases y_end - lo_y,
{
    if y_end > lo_y {
        lemma_column_same(a, b, x, lo_y, y_end - 1, collision_type, x0, x1, y0, y1);
        let y = y_end - 1;
        assert(matches_at(a, x, y, collision_type) == matches_at(b, x, y, collision_type));
        assert(matches_at(a, x + 1, y, collision_type) == matches_at(b, x + 1, y, collision_type));
        assert(matches_at(a, x - 1, y, collision_type) == matches_at(b, x - 1, y, collision_type));
        assert(matches_at(a, x, y + 1, collision_type) == matches_at(b, x, y + 1, collision_type));
        assert(matches_at(a, x, y - 1, collision_type) == matches_at(b, x, y - 1, collision_type));
    }
}

} // verus!
