//! Occlusion-aware field of view.
//!
//! A point `b` is visible from `a` within radius `r` when its squared
//! straight-line distance is at most `r * r` and the discrete ray from `a`
//! to `b` is unobstructed. The ray steps one tile at a time, each coordinate
//! moving one unit towards the target when it differs (king moves). A
//! non-walkable tile strictly between the endpoints blocks everything beyond
//! it on that ray; the origin never blocks, and the target itself is visible
//! even when it is a wall.

use vstd::prelude::*;
use crate::grid::{
    abs_of, cheb_dist, dist2, lemma_sq_mono, lemma_sq_root_bound, step_toward, within_radius,
    Coordinate,
};
use crate::terrain::{walkable_pt, GridMap, Tile};

verus! {

/// The points of the discrete ray from `a` to `b`, both endpoints included.
pub open spec fn line_points(a: (int, int), b: (int, int)) -> Seq<(int, int)>
    decreases cheb_dist(a, b),
{
    if a == b || cheb_dist(a, b) <= 0 {
        seq![a]
    } else {
        seq![a] + line_points(step_toward(a, b), b)
    }
}

/// The ray from `a` to `b` is unobstructed: every point strictly between
/// them is walkable.
pub open spec fn ray_clear(m: Map<(int, int), Tile>, a: (int, int), b: (int, int)) -> bool
    decreases cheb_dist(a, b),
{
    if a == b || cheb_dist(a, b) <= 0 {
        true
    } else {
        let n = step_toward(a, b);
        n == b || (walkable_pt(m, n) && ray_clear(m, n, b))
    }
}

/// `b` is visible from `a` under map `m` within radius `r`.
pub open spec fn visible(m: Map<(int, int), Tile>, a: (int, int), b: (int, int), r: int) -> bool {
    dist2(a, b) <= r * r && ray_clear(m, a, b)
}

/// The ray starts at `a`, ends at `b`, and has at least two points when the
/// endpoints differ.
pub proof fn lemma_line_endpoints(a: (int, int), b: (int, int))
    ensures
        line_points(a, b).len() >= 1,
        line_points(a, b)[0] == a,
        line_points(a, b).last() == b,
        a != b ==> line_points(a, b).len() >= 2,
    decreases cheb_dist(a, b),
{
    if a != b {
        lemma_line_endpoints(step_toward(a, b), b);
    }
}

/// A ray is unobstructed exactly when all its interior points are walkable.
pub proof fn lemma_ray_interior(m: Map<(int, int), Tile>, a: (int, int), b: (int, int))
    ensures
        ray_clear(m, a, b) <==> (forall|i: int|
            0 < i < line_points(a, b).len() - 1 ==> walkable_pt(m, #[trigger] line_points(a, b)[i])),
    decreases cheb_dist(a, b),
{
    let l = line_points(a, b);
    lemma_line_endpoints(a, b);
    if a != b {
        let n = step_toward(a, b);
        let l2 = line_points(n, b);
        lemma_line_endpoints(n, b);
        lemma_ray_interior(m, n, b);
        assert(l == seq![a] + l2);
        if n == b {
            assert(l.len() == 2);
        } else {
            if ray_clear(m, a, b) {
                assert forall|i: int| 0 < i < l.len() - 1 implies walkable_pt(
                    m,
                    #[trigger] l[i],
                ) by {
                    assert(l[i] == l2[i - 1]);
                    if i == 1 {
                        assert(l2[0] == n);
                    }
                }
            } else {
                if !walkable_pt(m, n) {
                    assert(l[1] == l2[0]);
                    assert(!walkable_pt(m, l[1]));
                } else {
                    let j = choose|j: int|
                        !(0 < j < l2.len() - 1 ==> walkable_pt(m, #[trigger] l2[j]));
                    assert(l[j + 1] == l2[j]);
                    assert(!walkable_pt(m, l[j + 1]));
                }
            }
        }
    }
}

/// Whether `p` lies between `a` and `b` on one axis, in either order.
pub open spec fn between(a: int, p: int, b: int) -> bool {
    (a <= p <= b) || (b <= p <= a)
}

/// Whether `p` lies in the bounding box of `a` and `b`.
pub open spec fn in_box(p: (int, int), a: (int, int), b: (int, int)) -> bool {
    between(a.0, p.0, b.0) && between(a.1, p.1, b.1)
}

/// Every point of a ray lies in the bounding box of its endpoints.
pub proof fn lemma_line_in_box(a: (int, int), b: (int, int))
    ensures
        forall|i: int|
            0 <= i < line_points(a, b).len() ==> in_box(#[trigger] line_points(a, b)[i], a, b),
    decreases cheb_dist(a, b),
{
    let l = line_points(a, b);
    if a != b {
        let n = step_toward(a, b);
        let l2 = line_points(n, b);
        lemma_line_in_box(n, b);
        assert(l == seq![a] + l2);
        assert forall|i: int| 0 <= i < l.len() implies in_box(#[trigger] l[i], a, b) by {
            if i > 0 {
                assert(l[i] == l2[i - 1]);
                assert(in_box(l2[i - 1], n, b));
            }
        }
    }
}

/// A point in the bounding box of `a` and `b` is no farther from `a` than
/// `b` is.
pub proof fn lemma_box_dist2(p: (int, int), a: (int, int), b: (int, int))
    requires
        in_box(p, a, b),
    ensures
        dist2(a, p) <= dist2(a, b),
{
    lemma_sq_mono(a.0 - p.0, a.0 - b.0);
    lemma_sq_mono(a.1 - p.1, a.1 - b.1);
}

/// Law: with no obstruction inside the radius, every point within the radius
/// is visible, so the visible set is exactly the disc around the viewer.
pub proof fn lemma_open_map_visible(m: Map<(int, int), Tile>, a: (int, int), b: (int, int), r: int)
    requires
        0 <= r,
        dist2(a, b) <= r * r,
        forall|p: (int, int)| dist2(a, p) <= r * r ==> #[trigger] walkable_pt(m, p),
    ensures
        visible(m, a, b, r),
{
    lemma_ray_interior(m, a, b);
    lemma_line_in_box(a, b);
    let l = line_points(a, b);
    assert forall|i: int| 0 < i < l.len() - 1 implies walkable_pt(m, #[trigger] l[i]) by {
        lemma_box_dist2(l[i], a, b);
        assert(dist2(a, l[i]) <= r * r);
    }
}

/// Law: on an open map — every point within the radius walkable — the
/// visible set from `a` is exactly the disc of radius `r` around `a`.
pub proof fn lemma_open_map_disc(m: Map<(int, int), Tile>, a: (int, int), r: int)
    requires
        0 <= r,
        forall|p: (int, int)| dist2(a, p) <= r * r ==> #[trigger] walkable_pt(m, p),
    ensures
        forall|b: (int, int)| #[trigger] visible(m, a, b, r) <==> dist2(a, b) <= r * r,
{
    assert forall|b: (int, int)| #[trigger] visible(m, a, b, r) <==> dist2(a, b) <= r * r by {
        if dist2(a, b) <= r * r {
            lemma_open_map_visible(m, a, b, r);
        }
    }
}

/// Law: a non-walkable tile strictly between `a` and `b` on their ray makes
/// `b` invisible from `a`, whatever the radius.
pub proof fn lemma_occlusion_blocks(
    m: Map<(int, int), Tile>,
    a: (int, int),
    b: (int, int),
    r: int,
    i: int,
)
    requires
        0 < i < line_points(a, b).len() - 1,
        !walkable_pt(m, line_points(a, b)[i]),
    ensures
        !visible(m, a, b, r),
{
    lemma_ray_interior(m, a, b);
}

/// Law: visibility of `b` from `a` depends only on the walkability of the
/// points strictly between them; maps that agree there agree on visibility.
pub proof fn lemma_visible_depends_on_ray(
    m1: Map<(int, int), Tile>,
    m2: Map<(int, int), Tile>,
    a: (int, int),
    b: (int, int),
    r: int,
)
    requires
        forall|i: int|
            0 < i < line_points(a, b).len() - 1 ==> walkable_pt(m1, #[trigger] line_points(a, b)[i])
                == walkable_pt(m2, line_points(a, b)[i]),
    ensures
        visible(m1, a, b, r) == visible(m2, a, b, r),
{
    lemma_ray_interior(m1, a, b);
    lemma_ray_interior(m2, a, b);
    let l = line_points(a, b);
    if ray_clear(m1, a, b) {
        assert forall|i: int| 0 < i < l.len() - 1 implies walkable_pt(m2, #[trigger] l[i]) by {
            assert(walkable_pt(m1, l[i]));
        }
    }
    if ray_clear(m2, a, b) {
        assert forall|i: int| 0 < i < l.len() - 1 implies walkable_pt(m1, #[trigger] l[i]) by {
            assert(walkable_pt(m2, l[i]));
        }
    }
}

/// Law: placing a tile at a point `q` that no interior point of the ray from
/// `a` to `b` touches leaves the visibility of `b` from `a` unchanged —
/// an obstruction removes nothing on a different ray.
pub proof fn lemma_off_ray_change(
    m: Map<(int, int), Tile>,
    q: (int, int),
    t: Tile,
    a: (int, int),
    b: (int, int),
    r: int,
)
    requires
        forall|i: int| 0 < i < line_points(a, b).len() - 1 ==> #[trigger] line_points(a, b)[i] != q,
    ensures
        visible(m.insert(q, t), a, b, r) == visible(m, a, b, r),
{
    let l = line_points(a, b);
    assert forall|i: int| 0 < i < l.len() - 1 implies walkable_pt(m.insert(q, t), #[trigger] l[i])
        == walkable_pt(m, l[i]) by {
        assert(l[i] != q);
    }
    lemma_visible_depends_on_ray(m.insert(q, t), m, a, b, r);
}

/// Cast the discrete ray from `a` to `b` and report whether it is
/// unobstructed.
pub fn cast_ray(map: &GridMap, a: Coordinate, b: Coordinate) -> (res: bool)
    ensures
        res == ray_clear(map@, a.pt(), b.pt()),
{
    let mut cx = a.x;
    let mut cy = a.y;
    while cx != b.x || cy != b.y
        invariant
            ray_clear(map@, a.pt(), b.pt()) == ray_clear(map@, (cx as int, cy as int), b.pt()),
        decreases cheb_dist((cx as int, cy as int), b.pt()),
    {
        let nx = if b.x > cx {
            cx + 1
        } else if b.x < cx {
            cx - 1
        } else {
            cx
        };
        let ny = if b.y > cy {
            cy + 1
        } else if b.y < cy {
            cy - 1
        } else {
            cy
        };
        proof {
            assert((nx as int, ny as int) == step_toward((cx as int, cy as int), b.pt()));
        }
        if nx == b.x && ny == b.y {
            return true;
        }
        if !map.walkable_at(Coordinate { x: nx, y: ny }) {
            return false;
        }
        cx = nx;
        cy = ny;
    }
    true
}

/// Compute the set of coordinates visible from `pos` within `radius`: the
/// returned vector contains a coordinate exactly when it is visible.
pub fn compute_visible_tiles(map: &GridMap, pos: Coordinate, radius: u16) -> (tiles: Vec<
    Coordinate,
>)
    ensures
        forall|c: Coordinate| #[trigger]
            tiles@.contains(c) <==> visible(map@, pos.pt(), c.pt(), radius as int),
        tiles@.no_duplicates(),
{
    let r = radius as i64;
    let mut tiles: Vec<Coordinate> = Vec::new();
    let mut dx: i64 = -r;
    while dx <= r
        invariant
            r == radius,
            -r <= dx <= r + 1,
            forall|c: Coordinate| #[trigger]
                tiles@.contains(c) <==> (visible(map@, pos.pt(), c.pt(), radius as int)
                    && -r <= c.x - pos.x < dx),
            tiles@.no_duplicates(),
        decreases r + 1 - dx,
    {
        let mut dy: i64 = -r;
        while dy <= r
            invariant
                r == radius,
                -r <= dx <= r,
                -r <= dy <= r + 1,
                forall|c: Coordinate| #[trigger]
                    tiles@.contains(c) <==> (visible(map@, pos.pt(), c.pt(), radius as int)
                        && ((-r <= c.x - pos.x < dx) || (c.x - pos.x == dx && -r <= c.y - pos.y
                        < dy))),
                tiles@.no_duplicates(),
            decreases r + 1 - dy,
        {
            let ghost tiles0 = tiles@;
            let x = pos.x as i64 + dx;
            let y = pos.y as i64 + dy;
            if i32::MIN as i64 <= x && x <= i32::MAX as i64 && i32::MIN as i64 <= y && y
                <= i32::MAX as i64 {
                let cand = Coordinate { x: x as i32, y: y as i32 };
                if within_radius(pos, cand, radius) && cast_ray(map, pos, cand) {
                    tiles.push(cand);
                    proof {
                        assert(tiles@ == tiles0.push(cand));
                        assert(tiles@[tiles@.len() - 1] == cand);
                        assert(!tiles0.contains(cand));
                        assert forall|i: int, j: int| 0 <= i < j < tiles@.len() implies tiles@[i]
                            != tiles@[j] by {
                            if j == tiles@.len() - 1 {
                                assert(tiles0[i] == tiles@[i]);
                                if tiles@[i] == cand {
                                    assert(tiles0.contains(cand));
                                }
                            }
                        }
                        assert forall|c: Coordinate| #[trigger]
                            tiles@.contains(c) <==> (visible(map@, pos.pt(), c.pt(), radius as int)
                                && ((-r <= c.x - pos.x < dx) || (c.x - pos.x == dx && -r <= c.y
                                - pos.y < dy + 1))) by {
                            if tiles@.contains(c) {
                                let i = choose|i: int|
                                    0 <= i < tiles@.len() && tiles@[i] == c;
                                if i < tiles0.len() {
                                    assert(tiles0[i] == c);
                                    assert(tiles0.contains(c));
                                } else {
                                    assert(c == cand);
                                }
                            }
                            if visible(map@, pos.pt(), c.pt(), radius as int) && ((-r <= c.x
                                - pos.x < dx) || (c.x - pos.x == dx && -r <= c.y - pos.y < dy
                                + 1)) {
                                if c.x - pos.x == dx && c.y - pos.y == dy {
                                    assert(c == cand);
                                    assert(tiles@.contains(c));
                                } else {
                                    assert(tiles0.contains(c));
                                    let i = choose|i: int|
                                        0 <= i < tiles0.len() && tiles0[i] == c;
                                    assert(tiles@[i] == c);
                                    assert(tiles@.contains(c));
                                }
                            }
                        }
                    }
                } else {
                    proof {
                        assert forall|c: Coordinate|
                            visible(map@, pos.pt(), c.pt(), radius as int) && c.x - pos.x == dx
                                && c.y - pos.y == dy implies false by {
                            assert(c == cand);
                        }
                    }
                }
            } else {
                proof {
                    assert forall|c: Coordinate| c.x - pos.x == dx && c.y - pos.y == dy
                        implies false by {
                        assert(c.x as int == x as int);
                    }
                }
            }
            dy = dy + 1;
        }
        proof {
            assert forall|c: Coordinate|
                visible(map@, pos.pt(), c.pt(), radius as int) && c.x - pos.x == dx implies -r
                <= c.y - pos.y < dy by {
            crate::grid::lemma_sq_bounds(
                    pos.pt().0 - c.pt().0,
                    abs_of(pos.pt().0 - c.pt().0),
                );
                lemma_sq_root_bound(pos.pt().1 - c.pt().1, radius as int);
            }
        }
        dx = dx + 1;
    }
    proof {
        assert forall|c: Coordinate|
            visible(map@, pos.pt(), c.pt(), radius as int) implies -r <= c.x - pos.x < dx by {
            crate::grid::lemma_sq_bounds(pos.pt().1 - c.pt().1, abs_of(pos.pt().1 - c.pt().1));
            lemma_sq_root_bound(pos.pt().0 - c.pt().0, radius as int);
        }
    }
    tiles
}

/// Whether a vector of coordinates contains `c`.
pub fn contains_coord(v: &Vec<Coordinate>, c: Coordinate) -> (r: bool)
    ensures
        r == v@.contains(c),
{
    let mut i: usize = 0;
    while i < v.len()
        invariant
            i <= v@.len(),
            forall|j: int| 0 <= j < i ==> v@[j] != c,
        decreases v@.len() - i,
    {
        if v[i].x == c.x && v[i].y == c.y {
            return true;
        }
        i = i + 1;
    }
    false
}

} // verus!
