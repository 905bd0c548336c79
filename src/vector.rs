use vstd::prelude::*;

verus! {

/// -1, 0 or 1, as `v` is negative, zero or positive.
pub open spec fn sign(v: int) -> int {
    if v < 0 {
        -1
    } else if v > 0 {
        1
    } else {
        0
    }
}

pub open spec fn abs(v: int) -> int {
    if v < 0 {
        -v
    } else {
        v
    }
}

/// The length of `(x, y)` in the chessboard metric.
pub open spec fn magnitude(x: int, y: int) -> int {
    if abs(x) >= abs(y) {
        abs(x)
    } else {
        abs(y)
    }
}

/// The 8-way direction of `(x, y)` turned one eighth of a turn clockwise.
pub open spec fn dir_45_clockwise(x: int, y: int) -> (int, int) {
    (sign(sign(x) + sign(y)), sign(sign(y) - sign(x)))
}

/// The 8-way direction of `(x, y)` turned one eighth of a turn counterclockwise.
pub open spec fn dir_45_counterclockwise(x: int, y: int) -> (int, int) {
    (sign(sign(x) - sign(y)), sign(sign(x) + sign(y)))
}

pub open spec fn scaled(d: (int, int), m: int) -> (int, int) {
    (d.0 * m, d.1 * m)
}

/// Both components can be negated.
pub open spec fn negatable(x: i32, y: i32) -> bool {
    x > i32::MIN && y > i32::MIN
}

fn sign_of(v: i32) -> (r: i32)
    ensures
        r == sign(v as int),
{
    if v < 0 {
        -1
    } else if v > 0 {
        1
    } else {
        0
    }
}

fn magnitude_of(x: i32, y: i32) -> (r: i32)
    requires
        negatable(x, y),
    ensures
        r == magnitude(x as int, y as int),
        r >= 0,
{
    let ax = if x < 0 {
        -x
    } else {
        x
    };
    let ay = if y < 0 {
        -y
    } else {
        y
    };
    if ax >= ay {
        ax
    } else {
        ay
    }
}

fn sign_times(s: i32, m: i32) -> (r: i32)
    requires
        -1 <= s <= 1,
        0 <= m,
    ensures
        r == s * m,
{
    if s < 0 {
        assert(s * m == -m) by (nonlinear_arith)
            requires
                s == -1,
        ;
        -m
    } else if s > 0 {
        assert(s * m == m) by (nonlinear_arith)
            requires
                s == 1,
        ;
        m
    } else {
        assert(s * m == 0) by (nonlinear_arith)
            requires
                s == 0,
        ;
        0
    }
}

/// Turns `(x, y)` one eighth of a turn clockwise, keeping its chessboard length.
pub fn rotate_45_clockwise(x: i32, y: i32) -> (r: (i32, i32))
    requires
        negatable(x, y),
    ensures
        (r.0 as int, r.1 as int) == scaled(
            dir_45_clockwise(x as int, y as int),
            magnitude(x as int, y as int),
        ),
{
    let m = magnitude_of(x, y);
    let sx = sign_of(x);
    let sy = sign_of(y);
    (sign_times(sign_of(sx + sy), m), sign_times(sign_of(sy - sx), m))
}

/// Turns `(x, y)` one eighth of a turn counterclockwise, keeping its chessboard length.
pub fn rotate_45_counterclockwise(x: i32, y: i32) -> (r: (i32, i32))
    requires
        negatable(x, y),
    ensures
        (r.0 as int, r.1 as int) == scaled(
            dir_45_counterclockwise(x as int, y as int),
            magnitude(x as int, y as int),
        ),
{
    let m = magnitude_of(x, y);
    let sx = sign_of(x);
    let sy = sign_of(y);
    (sign_times(sign_of(sx - sy), m), sign_times(sign_of(sx + sy), m))
}

/// Turns `(x, y)` a quarter turn clockwise, keeping its chessboard length.
pub fn rotate_90_clockwise(x: i32, y: i32) -> (r: (i32, i32))
    requires
        negatable(x, y),
    ensures
        (r.0 as int, r.1 as int) == scaled(
            (sign(y as int), -sign(x as int)),
            magnitude(x as int, y as int),
        ),
{
    let m = magnitude_of(x, y);
    (sign_times(sign_of(y), m), sign_times(-sign_of(x), m))
}

/// Turns `(x, y)` a quarter turn counterclockwise, keeping its chessboard length.
pub fn rotate_90_counterclockwise(x: i32, y: i32) -> (r: (i32, i32))
    requires
        negatable(x, y),
    ensures
        (r.0 as int, r.1 as int) == scaled(
            (-sign(y as int), sign(x as int)),
            magnitude(x as int, y as int),
        ),
{
    let m = magnitude_of(x, y);
    (sign_times(-sign_of(y), m), sign_times(sign_of(x), m))
}

/// The unit 8-way step a quarter turn clockwise from the direction of `(x, y)`.
pub fn rotate_90_clockwise_normalized(x: i32, y: i32) -> (r: (i32, i32))
    ensures
        (r.0 as int, r.1 as int) == (sign(y as int), -sign(x as int)),
{
    (sign_of(y), -sign_of(x))
}

/// The unit 8-way step a quarter turn counterclockwise from the direction of `(x, y)`.
pub fn rotate_90_counterclockwise_normalized(x: i32, y: i32) -> (r: (i32, i32))
    ensures
        (r.0 as int, r.1 as int) == (-sign(y as int), sign(x as int)),
{
    (-sign_of(y), sign_of(x))
}

} // verus!
