//! Integer geometry for vector shapes: a 32-step sine table, ship and asteroid
//! outlines, rotation, fragmenting, and per-size asteroid radius and score.

use vstd::prelude::*;

verus! {

/// Truncating division (rounding toward zero), as Rust's `/` on signed integers.
pub open spec fn tdiv(x: int, d: int) -> int
    recommends
        d > 0,
{
    if x >= 0 {
        x / d
    } else {
        -((-x) / d)
    }
}

fn div_trunc(x: i32, d: i32) -> (r: i32)
    requires
        d > 0,
    ensures
        r == tdiv(x as int, d as int),
{
    match x.checked_div(d) {
        Some(r) => r,
        None => 0,
    }
}

/// Saturating conversion of a script integer to `i32`.
pub open spec fn clamp_i32(value: int) -> int {
    if value < i32::MIN {
        i32::MIN as int
    } else if value > i32::MAX {
        i32::MAX as int
    } else {
        value
    }
}

/// Clamps `value` into the `i32` range.
pub fn to_i32(value: i64) -> (r: i32)
    ensures
        r == clamp_i32(value as int),
{
    if value < i32::MIN as i64 {
        i32::MIN
    } else if value > i32::MAX as i64 {
        i32::MAX
    } else {
        value as i32
    }
}

/// Quarter-wave table of `1024 * sin(step * pi / 16)` for `step` in `0..=8`.
pub open spec fn base_sin(step: int) -> int {
    if step == 0 {
        0
    } else if step == 1 {
        200
    } else if step == 2 {
        392
    } else if step == 3 {
        569
    } else if step == 4 {
        724
    } else if step == 5 {
        851
    } else if step == 6 {
        946
    } else if step == 7 {
        1004
    } else {
        1024
    }
}

/// Quarter-wave sine table entry for `step` in `0..=7`; any other step reads the peak.
pub fn base_sin_i32(step: i32) -> (r: i32)
    ensures
        r == base_sin(step as int),
{
    match step {
        0 => 0,
        1 => 200,
        2 => 392,
        3 => 569,
        4 => 724,
        5 => 851,
        6 => 946,
        7 => 1004,
        _ => 1024,
    }
}

/// Sine of `idx` thirty-seconds of a turn, scaled by 1024.
pub open spec fn sin32(idx: int) -> int {
    let i = idx % 32;
    let q = i / 8;
    let o = i % 8;
    if q == 0 {
        base_sin(o)
    } else if q == 1 {
        base_sin(8 - o)
    } else if q == 2 {
        -base_sin(o)
    } else {
        -base_sin(8 - o)
    }
}

/// `1024 * sin(idx * 2pi / 32)` from the integer table.
pub fn sin32_i32(idx: i32) -> (r: i32)
    ensures
        r == sin32(idx as int),
        -1024 <= r <= 1024,
{
    let i = match idx.checked_rem_euclid(32) {
        Some(i) => i,
        None => 0,
    };
    let q = i / 8;
    let o = i % 8;
    if q == 0 {
        base_sin_i32(o)
    } else if q == 1 {
        base_sin_i32(8 - o)
    } else if q == 2 {
        -base_sin_i32(o)
    } else {
        -base_sin_i32(8 - o)
    }
}

/// A point of a shape outline.
pub open spec fn pt(p: [i32; 2]) -> (int, int) {
    (p[0] as int, p[1] as int)
}

/// Points of `v` as integer pairs.
pub open spec fn pts(v: Seq<[i32; 2]>) -> Seq<(int, int)> {
    v.map_values(|p: [i32; 2]| pt(p))
}

/// Outline of the ship pointing at `heading`: nose, right wing, tail notch, left wing.
pub open spec fn ship_points(heading: int) -> Seq<(int, int)> {
    let fx = sin32(heading);
    let fy = -sin32(heading + 8);
    let rx = -fy;
    let ry = fx;
    seq![
        (tdiv(fx * 7, 1024), tdiv(fy * 7, 1024)),
        (tdiv((-fx * 3) - (rx * 3), 1024), tdiv((-fy * 3) - (ry * 3), 1024)),
        (tdiv(-fx, 1024), tdiv(-fy, 1024)),
        (tdiv((-fx * 3) + (rx * 3), 1024), tdiv((-fy * 3) + (ry * 3), 1024)),
    ]
}

/// Ship outline for `heading` in thirty-seconds of a turn.
pub fn ship_points_i32(heading: i32) -> (r: Vec<[i32; 2]>)
    requires
        heading <= i32::MAX - 8,
    ensures
        pts(r@) == ship_points(heading as int),
{
    let fx = sin32_i32(heading);
    let fy = -sin32_i32(heading + 8);
    let rx = -fy;
    let ry = fx;
    let nfx = -fx;
    let nfy = -fy;
    let p0 = [div_trunc(fx * 7, 1024), div_trunc(fy * 7, 1024)];
    let p1 = [div_trunc((nfx * 3) - (rx * 3), 1024), div_trunc((nfy * 3) - (ry * 3), 1024)];
    let p2 = [div_trunc(nfx, 1024), div_trunc(nfy, 1024)];
    let p3 = [div_trunc((nfx * 3) + (rx * 3), 1024), div_trunc((nfy * 3) + (ry * 3), 1024)];
    let r = vec![p0, p1, p2, p3];
    assert(pts(r@) =~= ship_points(heading as int));
    r
}

/// The four asteroid outlines (before scaling), chosen by `shape` modulo 4.
pub open spec fn asteroid_shape(shape: int) -> Seq<(int, int)> {
    let k = shape % 4;
    if k == 0 {
        seq![(0, -10), (8, -6), (10, 1), (4, 9), (-4, 9), (-10, 2), (-8, -7)]
    } else if k == 1 {
        seq![(-2, -10), (6, -10), (11, -5), (10, 1), (11, 8), (2, 10), (-7, 9), (-11, 2), (-8, -6)]
    } else if k == 2 {
        seq![(0, -11), (7, -8), (10, -1), (8, 7), (1, 11), (-6, 9), (-10, 3), (-9, -4), (-4, -10)]
    } else {
        seq![
            (1, -10),
            (8, -9),
            (11, -2),
            (9, 5),
            (4, 9),
            (-2, 10),
            (-9, 8),
            (-11, 1),
            (-10, -6),
            (-4, -10),
        ]
    }
}

/// Unscaled asteroid outline number `shape` modulo 4.
pub fn asteroid_shape_i32(shape: i32) -> (r: Vec<[i32; 2]>)
    ensures
        pts(r@) == asteroid_shape(shape as int),
        7 <= r.len() <= 10,
        forall|i: int| 0 <= i < r.len() ==> -11 <= #[trigger] r@[i][0] <= 11 && -11 <= r@[i][1] <= 11,
{
    let k = match shape.checked_rem_euclid(4) {
        Some(k) => k,
        None => 0,
    };
    let r = if k == 0 {
        vec![[0, -10], [8, -6], [10, 1], [4, 9], [-4, 9], [-10, 2], [-8, -7]]
    } else if k == 1 {
        vec![[-2, -10], [6, -10], [11, -5], [10, 1], [11, 8], [2, 10], [-7, 9], [-11, 2], [-8, -6]]
    } else if k == 2 {
        vec![[0, -11], [7, -8], [10, -1], [8, 7], [1, 11], [-6, 9], [-10, 3], [-9, -4], [-4, -10]]
    } else {
        vec![
            [1, -10],
            [8, -9],
            [11, -2],
            [9, 5],
            [4, 9],
            [-2, 10],
            [-9, 8],
            [-11, 1],
            [-10, -6],
            [-4, -10],
        ]
    };
    assert(pts(r@) =~= asteroid_shape(shape as int));
    r
}

/// Scale (in tenths) of an asteroid of the given size class.
pub open spec fn asteroid_scale(size: int) -> int {
    if size <= 0 {
        3
    } else if size == 1 {
        5
    } else if size == 2 {
        8
    } else {
        12
    }
}

/// Scale (in tenths) for the asteroid size class.
pub fn asteroid_scale_i32(size: i32) -> (r: i32)
    ensures
        r == asteroid_scale(size as int),
{
    if size <= 0 {
        3
    } else if size == 1 {
        5
    } else if size == 2 {
        8
    } else {
        12
    }
}

/// Asteroid outline for `shape` scaled to size class `size`.
pub open spec fn asteroid_points(shape: int, size: int) -> Seq<(int, int)> {
    let scale = asteroid_scale(size);
    asteroid_shape(shape).map_values(
        |p: (int, int)| (tdiv(p.0 * scale, 10), tdiv(p.1 * scale, 10)),
    )
}

/// Scaled asteroid outline.
pub fn asteroid_points_i32(shape: i32, size: i32) -> (r: Vec<[i32; 2]>)
    ensures
        pts(r@) == asteroid_points(shape as int, size as int),
        7 <= r.len() <= 10,
{
    let scale = asteroid_scale_i32(size);
    let base = asteroid_shape_i32(shape);
    let mut r: Vec<[i32; 2]> = Vec::new();
    let mut i: usize = 0;
    while i < base.len()
        invariant
            i <= base.len(),
            7 <= base.len() <= 10,
            3 <= scale <= 12,
            scale == asteroid_scale(size as int),
            pts(base@) == asteroid_shape(shape as int),
            forall|j: int| 0 <= j < base.len() ==> -11 <= #[trigger] base@[j][0] <= 11 && -11
                <= base@[j][1] <= 11,
            r.len() == i,
            forall|j: int|
                0 <= j < i ==> #[trigger] pt(r@[j]) == (
                    tdiv(base@[j][0] * scale, 10),
                    tdiv(base@[j][1] * scale, 10),
                ),
        decreases base.len() - i,
    {
        let p = base[i];
        assert(-11 <= p[0] <= 11 && -11 <= p[1] <= 11);
        r.push([div_trunc(p[0] * scale, 10), div_trunc(p[1] * scale, 10)]);
        i = i + 1;
    }
    proof {
        assert forall|j: int| 0 <= j < r.len() implies #[trigger] pts(r@)[j] == asteroid_points(
            shape as int,
            size as int,
        )[j] by {
            assert(asteroid_shape(shape as int)[j] == pt(base@[j]));
        }
        assert(pts(r@) =~= asteroid_points(shape as int, size as int));
    }
    r
}

/// `p` rotated by `heading` thirty-seconds of a turn, in 1024ths, floored and
/// truncated to 32 bits.
pub open spec fn rotate_point(p: (int, int), heading: int) -> (int, int) {
    let sin = sin32(heading);
    let cos = sin32(heading + 8);
    (
        (((p.0 * cos) - (p.1 * sin)) / 1024) as i32 as int,
        (((p.0 * sin) + (p.1 * cos)) / 1024) as i32 as int,
    )
}

fn floor_div_1024(v: i64) -> (r: i64)
    ensures
        r == v as int / 1024,
{
    match v.checked_div_euclid(1024) {
        Some(r) => r,
        None => 0,
    }
}

/// Rotates every point of `points` by `heading`.
pub fn rotate_points_i32(points: &[[i32; 2]], heading: i32) -> (r: Vec<[i32; 2]>)
    requires
        heading <= i32::MAX - 8,
    ensures
        pts(r@) == pts(points@).map_values(|p: (int, int)| rotate_point(p, heading as int)),
{
    let sin = sin32_i32(heading) as i64;
    let cos = sin32_i32(heading + 8) as i64;
    let mut r: Vec<[i32; 2]> = Vec::new();
    let mut i: usize = 0;
    while i < points.len()
        invariant
            i <= points.len(),
            sin == sin32(heading as int),
            cos == sin32(heading as int + 8),
            -1024 <= sin <= 1024,
            -1024 <= cos <= 1024,
            r.len() == i,
            forall|j: int|
                0 <= j < i ==> #[trigger] pt(r@[j]) == rotate_point(pt(points@[j]), heading as int),
        decreases points.len() - i,
    {
        let x = points[i][0] as i64;
        let y = points[i][1] as i64;
        assert(-2147483648 <= x <= 2147483647 && -2147483648 <= y <= 2147483647);
        assert(-2199023255552 <= x * cos <= 2199023255552) by (nonlinear_arith)
            requires
                -2147483648 <= x <= 2147483647,
                -1024 <= cos <= 1024,
        ;
        assert(-2199023255552 <= y * sin <= 2199023255552) by (nonlinear_arith)
            requires
                -2147483648 <= y <= 2147483647,
                -1024 <= sin <= 1024,
        ;
        assert(-2199023255552 <= x * sin <= 2199023255552) by (nonlinear_arith)
            requires
                -2147483648 <= x <= 2147483647,
                -1024 <= sin <= 1024,
        ;
        assert(-2199023255552 <= y * cos <= 2199023255552) by (nonlinear_arith)
            requires
                -2147483648 <= y <= 2147483647,
                -1024 <= cos <= 1024,
        ;
        let rx = floor_div_1024((x * cos) - (y * sin));
        let ry = floor_div_1024((x * sin) + (y * cos));
        r.push([rx as i32, ry as i32]);
        i = i + 1;
    }
    proof {
        assert(pts(r@) =~= pts(points@).map_values(
            |p: (int, int)| rotate_point(p, heading as int),
        ));
    }
    r
}

/// Boundaries splitting an outline of `count` points into three fragments.
pub open spec fn fragment_cut(count: int, k: int) -> int {
    if k == 0 {
        0
    } else if k == 1 {
        count / 3
    } else if k == 2 {
        (count * 2) / 3
    } else {
        count
    }
}

/// One third of an asteroid outline as a closed wedge: the centre, the points of
/// fragment `fragment % 3` (its last point wrapping to the first outline point),
/// and the centre again.
pub open spec fn asteroid_fragment_points(shape: int, size: int, fragment: int) -> Seq<(int, int)> {
    let points = asteroid_points(shape, size);
    let count = points.len() as int;
    let f = fragment % 3;
    let start = fragment_cut(count, f);
    let end = fragment_cut(count, f + 1);
    seq![(0int, 0int)] + Seq::new(
        (end - start + 1) as nat,
        |k: int|
            if start + k == count {
                points[0]
            } else {
                points[start + k]
            },
    ) + seq![(0int, 0int)]
}

/// Wedge outline of one third of an asteroid (see [`asteroid_fragment_points`]).
pub fn asteroid_fragment_points_i32(shape: i32, size: i32, fragment: i32) -> (r: Vec<[i32; 2]>)
    ensures
        pts(r@) == asteroid_fragment_points(shape as int, size as int, fragment as int),
{
    let points = asteroid_points_i32(shape, size);
    let count = points.len();
    let f = match fragment.checked_rem_euclid(3) {
        Some(f) => f as usize,
        None => 0,
    };
    let start = if f == 0 {
        0
    } else if f == 1 {
        count / 3
    } else {
        (count * 2) / 3
    };
    let end = if f == 0 {
        count / 3
    } else if f == 1 {
        (count * 2) / 3
    } else {
        count
    };
    let ghost spec_points = asteroid_points(shape as int, size as int);
    let ghost middle = Seq::new(
        (end - start + 1) as nat,
        |k: int|
            if start + k == count {
                spec_points[0]
            } else {
                spec_points[start + k]
            },
    );
    let mut out: Vec<[i32; 2]> = Vec::new();
    out.push([0, 0]);
    let mut idx = start;
    while idx <= end
        invariant
            start <= idx <= end + 1,
            end <= count == points.len(),
            7 <= count <= 10,
            pts(points@) == spec_points,
            middle.len() == end - start + 1,
            forall|k: int|
                0 <= k < middle.len() ==> #[trigger] middle[k] == (if start + k == count {
                    spec_points[0]
                } else {
                    spec_points[start + k]
                }),
            pts(out@) == seq![(0int, 0int)] + middle.subrange(0, idx - start),
        decreases end + 1 - idx,
    {
        let wrapped = if idx == count {
            0
        } else {
            idx
        };
        let ghost old_out = out@;
        out.push(points[wrapped]);
        proof {
            assert(pts(points@)[wrapped as int] == pt(points@[wrapped as int]));
            assert(middle[idx - start] == pt(points@[wrapped as int]));
            assert(pts(out@) =~= pts(old_out).push(pt(points@[wrapped as int])));
            assert(middle.subrange(0, idx + 1 - start) =~= middle.subrange(0, idx - start).push(
                middle[idx - start],
            ));
            assert(pts(out@) =~= seq![(0int, 0int)] + middle.subrange(0, idx + 1 - start));
        }
        idx = idx + 1;
    }
    out.push([0, 0]);
    proof {
        assert(middle.subrange(0, idx - start) =~= middle);
        assert(pts(out@) =~= seq![(0int, 0int)] + middle + seq![(0int, 0int)]);
        assert(middle =~= Seq::new(
            (fragment_cut(count as int, fragment as int % 3 + 1) - fragment_cut(
                count as int,
                fragment as int % 3,
            ) + 1) as nat,
            |k: int|
                if fragment_cut(count as int, fragment as int % 3) + k == count {
                    spec_points[0]
                } else {
                    spec_points[fragment_cut(count as int, fragment as int % 3) + k]
                },
        ));
    }
    out
}

/// Collision radius of an asteroid of size class `size`.
pub open spec fn asteroid_radius(size: int) -> int {
    if size <= 0 {
        4
    } else if size == 1 {
        7
    } else if size == 2 {
        11
    } else {
        15
    }
}

/// Collision radius for the asteroid size class.
pub fn asteroid_radius_i32(size: i32) -> (r: i32)
    ensures
        r == asteroid_radius(size as int),
{
    if size <= 0 {
        4
    } else if size == 1 {
        7
    } else if size == 2 {
        11
    } else {
        15
    }
}

/// Points awarded for destroying an asteroid of size class `size`.
pub open spec fn asteroid_score(size: int) -> int {
    if size <= 0 {
        35
    } else if size == 1 {
        25
    } else if size == 2 {
        15
    } else {
        10
    }
}

/// Score for the asteroid size class.
pub fn asteroid_score_i32(size: i32) -> (r: i32)
    ensures
        r == asteroid_score(size as int),
{
    if size <= 0 {
        35
    } else if size == 1 {
        25
    } else if size == 2 {
        15
    } else {
        10
    }
}


/// The point an item of a script's point list stands for: a list whose first
/// two entries are integers, narrowed to 32 bits.
pub open spec fn item_point(item: Option<Seq<Option<i64>>>) -> Option<(i32, i32)> {
    match item {
        Some(v) => if v.len() >= 2 && v[0] is Some && v[1] is Some {
            Some((v[0].unwrap() as i32, v[1].unwrap() as i32))
        } else {
            None
        },
        None => None,
    }
}

/// The points a script's point list stands for, in order, skipping items that
/// are not such lists.
pub open spec fn list_points(items: Seq<Option<Seq<Option<i64>>>>) -> Seq<(i32, i32)>
    decreases items.len(),
{
    if items.len() == 0 {
        Seq::empty()
    } else {
        let rest = list_points(items.drop_last());
        match item_point(items.last()) {
            Some(p) => rest.push(p),
            None => rest,
        }
    }
}

/// View of a script's point list: each item's entries when it is a list
/// (`None` for entries that are not integers).
pub open spec fn items_view(items: Seq<Option<Vec<Option<i64>>>>) -> Seq<Option<Seq<Option<i64>>>> {
    items.map_values(|i: Option<Vec<Option<i64>>>| match i {
        Some(v) => Some(v@),
        None => None,
    })
}

/// Reads a script's point list (see [`list_points`]).
pub fn points_from_items(items: &Vec<Option<Vec<Option<i64>>>>) -> (r: Vec<[i32; 2]>)
    ensures
        r@.map_values(|p: [i32; 2]| (p[0], p[1])) == list_points(items_view(items@)),
{
    let ghost iv = items_view(items@);
    let mut out: Vec<[i32; 2]> = Vec::new();
    let mut i: usize = 0;
    while i < items.len()
        invariant
            iv == items_view(items@),
            i <= items@.len(),
            out@.map_values(|p: [i32; 2]| (p[0], p[1])) == list_points(iv.subrange(0, i as int)),
        decreases items.len() - i,
    {
        proof {
            assert(iv.subrange(0, i + 1).drop_last() =~= iv.subrange(0, i as int));
            assert(iv.subrange(0, i + 1).last() == iv[i as int]);
        }
        match &items[i] {
            Some(v) => {
                if v.len() >= 2 {
                    match (v[0], v[1]) {
                        (Some(x), Some(y)) => {
                            let ghost before = out@;
                            let p: [i32; 2] = [x as i32, y as i32];
                            out.push(p);
                            proof {
                                assert(out@.map_values(|p: [i32; 2]| (p[0], p[1])) =~= before.map_values(|p: [i32; 2]| (p[0], p[1])).push((x as i32, y as i32)));
                            }
                        },
                        _ => {},
                    }
                }
            },
            None => {},
        }
        i = i + 1;
    }
    assert(iv.subrange(0, items@.len() as int) =~= iv);
    out
}

} // verus!
