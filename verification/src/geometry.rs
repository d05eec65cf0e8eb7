//! Exact integer geometry: cells, boxes and the reach of a projectile.
use vstd::prelude::*;
use crate::configs::{ENTITY_PROJECTILE_RADIUS, WORLD_TILE_SIZE};
use crate::math::clamp_spec;

verus! {

/// Smallest world coordinate: the origin of the lowest cell that a grid
/// coordinate can name.
pub const WORLD_MIN: i64 = -150_323_855_360_000;

/// Largest world coordinate: the origin of the highest cell that a grid
/// coordinate can name.
pub const WORLD_MAX: i64 = 150_323_855_290_000;

/// A coordinate that the simulation accepts. The cell nearest to such a
/// coordinate has an index that fits the cell type.
pub open spec fn in_world(v: int) -> bool {
    WORLD_MIN <= v <= WORLD_MAX
}

/// Whether a coordinate lies in the world.
pub fn is_in_world(v: i64) -> (b: bool)
    ensures
        b == in_world(v as int),
{
    WORLD_MIN <= v && v <= WORLD_MAX
}

/// The grid index nearest to a world coordinate; a coordinate half way
/// between two belongs to the larger.
pub open spec fn cell_index(v: int) -> int {
    (v + WORLD_TILE_SIZE / 2) / (WORLD_TILE_SIZE as int)
}

/// World coordinate of the low edge of a grid index.
pub open spec fn cell_origin(c: int) -> int {
    c * WORLD_TILE_SIZE
}

/// A disc of radius `r` about `(cx, cy)` meets the box whose low corner is
/// `(rx, ry)` and whose extents are `w` and `h`: the point of the box nearest
/// to the centre is no farther from it than `r`. Edges count as inside.
pub open spec fn circle_meets_rect(cx: int, cy: int, r: int, rx: int, ry: int, w: int, h: int) -> bool {
    let dx = cx - clamp_spec(cx, rx, rx + w);
    let dy = cy - clamp_spec(cy, ry, ry + h);
    dx * dx + dy * dy <= r * r
}

/// A projectile at `(px, py)` touches the tile of cell `(x, y)`.
pub open spec fn touches_tile(px: int, py: int, x: int, y: int) -> bool {
    circle_meets_rect(
        px,
        py,
        ENTITY_PROJECTILE_RADIUS as int,
        cell_origin(x),
        cell_origin(y),
        WORLD_TILE_SIZE as int,
        WORLD_TILE_SIZE as int,
    )
}

/// Where the box is met, some point of it lies within the radius, and the
/// other way round: the nearest point decides.
pub proof fn lemma_circle_meets_rect_iff_point(
    cx: int,
    cy: int,
    r: int,
    rx: int,
    ry: int,
    w: int,
    h: int,
)
    requires
        r >= 0,
        w >= 0,
        h >= 0,
    ensures
        circle_meets_rect(cx, cy, r, rx, ry, w, h) <==> exists|px: int, py: int|
            rx <= px <= rx + w && ry <= py <= ry + h && #[trigger] within(cx, cy, r, px, py),
{
    let nx = clamp_spec(cx, rx, rx + w);
    let ny = clamp_spec(cy, ry, ry + h);
    if circle_meets_rect(cx, cy, r, rx, ry, w, h) {
        assert(within(cx, cy, r, nx, ny));
    }
    assert forall|px: int, py: int|
        rx <= px <= rx + w && ry <= py <= ry + h && #[trigger] within(
            cx,
            cy,
            r,
            px,
            py,
        ) implies circle_meets_rect(cx, cy, r, rx, ry, w, h) by {
        lemma_nearer_square(cx - nx, cx - px);
        lemma_nearer_square(cy - ny, cy - py);
    }
}

/// The point `(px, py)` is no farther from `(cx, cy)` than `r`.
pub open spec fn within(cx: int, cy: int, r: int, px: int, py: int) -> bool {
    (cx - px) * (cx - px) + (cy - py) * (cy - py) <= r * r
}

/// Of two offsets to the same side, the shorter has the smaller square.
proof fn lemma_nearer_square(a: int, b: int)
    requires
        (0 <= a <= b) || (b <= a <= 0),
    ensures
        a * a <= b * b,
{
    assert(a * a <= b * b) by (nonlinear_arith)
        requires
            (0 <= a <= b) || (b <= a <= 0),
    ;
}

/// An offset longer than the radius has a larger square than the radius.
pub proof fn lemma_square_exceeds(d: int, r: int)
    requires
        r >= 0,
        d > r || d < -r,
    ensures
        d * d > r * r,
{
    assert(d * d > r * r) by (nonlinear_arith)
        requires
            r >= 0,
            d > r || d < -r,
    ;
}

/// A square is not negative.
pub proof fn lemma_square_nonneg(d: int)
    ensures
        d * d >= 0,
{
    assert(d * d >= 0) by (nonlinear_arith);
}

/// A square within a bound stays within the bound's square.
pub proof fn lemma_square_bounded(d: int, r: int)
    requires
        -r <= d <= r,
    ensures
        0 <= d * d <= r * r,
{
    assert(0 <= d * d <= r * r) by (nonlinear_arith)
        requires
            -r <= d <= r,
    ;
}

/// The point of the span from `lo` to `hi` nearest to `v`.
pub fn nearest_in_span(v: i64, lo: i64, hi: i64) -> (r: i64)
    ensures
        r == clamp_spec(v as int, lo as int, hi as int),
{
    if v > lo {
        if v < hi {
            v
        } else {
            hi
        }
    } else {
        lo
    }
}

/// The grid index nearest to a world coordinate.
pub fn cell_of(v: i64) -> (c: i64)
    requires
        WORLD_MIN - WORLD_TILE_SIZE <= v <= WORLD_MAX + WORLD_TILE_SIZE,
    ensures
        c == cell_index(v as int),
        in_world(v as int) ==> i32::MIN <= c <= i32::MAX,
        cell_origin(c as int) - WORLD_TILE_SIZE / 2 <= v < cell_origin(c as int) + WORLD_TILE_SIZE
            / 2,
{
    let shifted: i64 = v + WORLD_TILE_SIZE / 2;
    if shifted >= 0 {
        shifted / WORLD_TILE_SIZE
    } else {
        let up: i64 = (-shifted + (WORLD_TILE_SIZE - 1)) / WORLD_TILE_SIZE;
        -up
    }
}

/// Whether a disc of radius `r` about `(cx, cy)` meets the box with low
/// corner `(rx, ry)` and extents `w` and `h`.
pub fn check_collision_circle_rec(cx: i64, cy: i64, r: i64, rx: i64, ry: i64, w: i64, h: i64) -> (b:
    bool)
    requires
        0 <= r <= 1_000_000_000,
        0 <= w <= 1_000_000_000,
        0 <= h <= 1_000_000_000,
        in_world(rx as int),
        in_world(ry as int),
        WORLD_MIN - WORLD_TILE_SIZE <= cx <= WORLD_MAX + WORLD_TILE_SIZE,
        WORLD_MIN - WORLD_TILE_SIZE <= cy <= WORLD_MAX + WORLD_TILE_SIZE,
    ensures
        b == circle_meets_rect(
            cx as int,
            cy as int,
            r as int,
            rx as int,
            ry as int,
            w as int,
            h as int,
        ),
{
    let dx: i64 = cx - nearest_in_span(cx, rx, rx + w);
    let dy: i64 = cy - nearest_in_span(cy, ry, ry + h);
    proof {
        lemma_square_nonneg(dx as int);
        lemma_square_nonneg(dy as int);
    }
    if dx > r || dx < -r {
        proof {
            lemma_square_exceeds(dx as int, r as int);
        }
        return false;
    }
    if dy > r || dy < -r {
        proof {
            lemma_square_exceeds(dy as int, r as int);
        }
        return false;
    }
    proof {
        lemma_square_bounded(dx as int, r as int);
        lemma_square_bounded(dy as int, r as int);
        lemma_square_bounded(r as int, 1_000_000_000);
    }
    dx * dx + dy * dy <= r * r
}

/// A projectile touches only tiles of the cell nearest to it and of the
/// eight cells around that one: looking at those nine misses nothing.
pub proof fn lemma_touch_is_near(px: int, py: int, x: int, y: int)
    requires
        touches_tile(px, py, x, y),
    ensures
        cell_index(px) - 1 <= x <= cell_index(px) + 1,
        cell_index(py) - 1 <= y <= cell_index(py) + 1,
{
    let r = ENTITY_PROJECTILE_RADIUS as int;
    let t = WORLD_TILE_SIZE as int;
    let dx = px - clamp_spec(px, cell_origin(x), cell_origin(x) + t);
    let dy = py - clamp_spec(py, cell_origin(y), cell_origin(y) + t);
    lemma_square_nonneg(dx);
    lemma_square_nonneg(dy);
    if dx > r || dx < -r {
        lemma_square_exceeds(dx, r);
    }
    if dy > r || dy < -r {
        lemma_square_exceeds(dy, r);
    }
    assert(-r <= dx <= r);
    assert(-r <= dy <= r);
}

} // verus!
