use vstd::prelude::*;

use crate::error::GeometryError;
use crate::fixed::{div_up, lemma_div_up_bounds, Ratio, SCALE};

verus! {

/// Largest magnitude of a coordinate, in fixed-point units. It keeps every
/// extent, area and ratio of a bounding box inside 64 bits.
pub const COORD_LIMIT: i64 = 500_000_000_000;

/// A point of a floor plan, in fixed-point units. `x` and `z` span the
/// horizontal plane; `y` is height and takes no part in any measurement.
#[derive(Clone, Copy, Debug, PartialEq, Eq)]
pub struct Transformation {
    pub x: Option<i64>,
    pub y: Option<i64>,
    pub z: Option<i64>,
}

impl Transformation {
    /// Takes over every coordinate that `other` has.
    pub fn merge_from(&mut self, other: Option<&Transformation>)
        ensures
            match other {
                Some(o) => {
                    &&& final(self).x == (if o.x is Some { o.x } else { old(self).x })
                    &&& final(self).y == (if o.y is Some { o.y } else { old(self).y })
                    &&& final(self).z == (if o.z is Some { o.z } else { old(self).z })
                },
                None => *final(self) == *old(self),
            },
    {
        if let Some(o) = other {
            if o.x.is_some() {
                self.x = o.x;
            }
            if o.y.is_some() {
                self.y = o.y;
            }
            if o.z.is_some() {
                self.z = o.z;
            }
        }
    }
}

/// Axis-aligned extent of a point set and the ratios derived from it.
/// `width` and `height` are twice the spread of the `x` and `z` coordinates.
#[derive(Clone, Copy, Debug, PartialEq, Eq)]
pub struct BoundingBox {
    pub width: u64,
    pub height: u64,
    pub area: u64,
    pub aspect: Ratio,
    pub aspect_ri: Ratio,
}

/// The coordinate of `p` along `x` (when `along_x`) or along `z`.
pub open spec fn coord(p: Transformation, along_x: bool) -> Option<i64> {
    if along_x {
        p.x
    } else {
        p.z
    }
}

pub open spec fn opt_min(a: Option<i64>, b: Option<i64>) -> Option<i64> {
    match (a, b) {
        (Some(v), Some(w)) => Some(if w < v { w } else { v }),
        (Some(v), None) => Some(v),
        (None, w) => w,
    }
}

pub open spec fn opt_max(a: Option<i64>, b: Option<i64>) -> Option<i64> {
    match (a, b) {
        (Some(v), Some(w)) => Some(if w > v { w } else { v }),
        (Some(v), None) => Some(v),
        (None, w) => w,
    }
}

/// Least coordinate present along one axis, if any point has one.
pub open spec fn axis_min(pts: Seq<Transformation>, along_x: bool) -> Option<i64>
    decreases pts.len(),
{
    if pts.len() == 0 {
        None
    } else {
        opt_min(axis_min(pts.drop_last(), along_x), coord(pts.last(), along_x))
    }
}

/// Greatest coordinate present along one axis, if any point has one.
pub open spec fn axis_max(pts: Seq<Transformation>, along_x: bool) -> Option<i64>
    decreases pts.len(),
{
    if pts.len() == 0 {
        None
    } else {
        opt_max(axis_max(pts.drop_last(), along_x), coord(pts.last(), along_x))
    }
}

pub open spec fn coord_within_limit(c: Option<i64>) -> bool {
    c is Some ==> -COORD_LIMIT <= c->0 <= COORD_LIMIT
}

pub open spec fn point_within_limit(p: Transformation) -> bool {
    coord_within_limit(p.x) && coord_within_limit(p.z)
}

pub open spec fn points_within_limit(pts: Seq<Transformation>) -> bool {
    forall|i: int| 0 <= i < pts.len() ==> point_within_limit(#[trigger] pts[i])
}

/// `width / height`, infinite when `height` is zero.
pub open spec fn aspect_of(width: int, height: int) -> Ratio {
    if height == 0 {
        Ratio::Infinite
    } else {
        Ratio::Finite(div_up(width * SCALE, height) as u64)
    }
}

/// The longer side over the shorter one, infinite when either is zero.
pub open spec fn aspect_ri_of(width: int, height: int) -> Ratio {
    if width == 0 || height == 0 {
        Ratio::Infinite
    } else if width >= height {
        Ratio::Finite(div_up(width * SCALE, height) as u64)
    } else {
        Ratio::Finite(div_up(height * SCALE, width) as u64)
    }
}

/// The box with the given sides.
pub open spec fn box_of_sides(width: int, height: int) -> BoundingBox {
    BoundingBox {
        width: width as u64,
        height: height as u64,
        area: div_up(width * height, SCALE as int) as u64,
        aspect: aspect_of(width, height),
        aspect_ri: aspect_ri_of(width, height),
    }
}

/// Point `p` has both horizontal coordinates.
pub open spec fn is_full_point(p: Transformation) -> bool {
    p.x is Some && p.z is Some
}

/// Some point of the set has both horizontal coordinates.
pub open spec fn has_full_point(pts: Seq<Transformation>) -> bool {
    exists|i: int| 0 <= i < pts.len() && is_full_point(#[trigger] pts[i])
}

/// The bounding box of a point set: no box unless some point has both `x`
/// and `z`; otherwise sides twice the spread along `x` and along `z`, over
/// every coordinate present, so that a point missing one coordinate still
/// counts on the other axis.
pub open spec fn spec_bounding_box(pts: Seq<Transformation>) -> Result<BoundingBox, GeometryError> {
    if !has_full_point(pts) {
        Err(GeometryError::EmptyGeometry)
    } else {
        match (axis_min(pts, true), axis_max(pts, true), axis_min(pts, false), axis_max(pts, false)) {
            (Some(x0), Some(x1), Some(z0), Some(z1)) => Ok(
                box_of_sides(2 * (x1 - x0), 2 * (z1 - z0)),
            ),
            _ => Err(GeometryError::EmptyGeometry),
        }
    }
}

/// An axis on which some point has a coordinate has a least and a greatest
/// coordinate.
pub proof fn lemma_axis_present(pts: Seq<Transformation>, along_x: bool, i: int)
    requires
        0 <= i < pts.len(),
        coord(pts[i], along_x) is Some,
    ensures
        axis_min(pts, along_x) is Some,
        axis_max(pts, along_x) is Some,
    decreases pts.len(),
{
    if i < pts.len() - 1 {
        let init = pts.drop_last();
        assert(init[i] == pts[i]);
        lemma_axis_present(init, along_x, i);
    }
}

/// Along each axis the least and greatest coordinates exist together, lie
/// within the coordinate limit, and are ordered.
pub proof fn lemma_axis_extremes(pts: Seq<Transformation>, along_x: bool)
    requires
        points_within_limit(pts),
    ensures
        axis_min(pts, along_x) is Some <==> axis_max(pts, along_x) is Some,
        coord_within_limit(axis_min(pts, along_x)),
        coord_within_limit(axis_max(pts, along_x)),
        axis_min(pts, along_x) is Some ==> axis_min(pts, along_x)->0 <= axis_max(pts, along_x)->0,
    decreases pts.len(),
{
    if pts.len() > 0 {
        let init = pts.drop_last();
        assert forall|i: int| 0 <= i < init.len() implies point_within_limit(#[trigger] init[i]) by {
            assert(init[i] == pts[i]);
        }
        lemma_axis_extremes(init, along_x);
        assert(point_within_limit(pts[pts.len() - 1]));
    }
}

/// `num / den` rounded up, for a numerator within 64 bits times `SCALE`.
fn ratio_up(num: u64, den: u64) -> (r: u64)
    requires
        den > 0,
        num <= 4_000_000_000_000,
    ensures
        r == div_up(num * SCALE, den as int),
{
    proof {
        assert(num * 1_000_000 <= 4_000_000_000_000_000_000) by (nonlinear_arith)
            requires
                num <= 4_000_000_000_000,
        ;
    }
    let scaled: u128 = (num as u128) * 1_000_000u128;
    proof {
        lemma_div_up_bounds(num * SCALE, den as int);
    }
    ((scaled + (den as u128) - 1) / (den as u128)) as u64
}

/// Measures a point set: fails with `EmptyGeometry` unless some point has
/// both an `x` and a `z`; points missing one coordinate still count on the
/// other axis.
pub fn compute_bounding_box(points: &[Transformation]) -> (r: Result<BoundingBox, GeometryError>)
    requires
        points_within_limit(points@),
    ensures
        r == spec_bounding_box(points@),
        points@.len() == 0 ==> r == Err::<BoundingBox, GeometryError>(GeometryError::EmptyGeometry),
{
    let mut min_x: Option<i64> = None;
    let mut max_x: Option<i64> = None;
    let mut min_z: Option<i64> = None;
    let mut max_z: Option<i64> = None;
    let mut full = false;
    let mut i: usize = 0;
    while i < points.len()
        invariant
            i <= points@.len(),
            full == has_full_point(points@.subrange(0, i as int)),
            min_x == axis_min(points@.subrange(0, i as int), true),
            max_x == axis_max(points@.subrange(0, i as int), true),
            min_z == axis_min(points@.subrange(0, i as int), false),
            max_z == axis_max(points@.subrange(0, i as int), false),
        decreases points.len() - i,
    {
        let p = points[i];
        let ghost next = points@.subrange(0, i + 1);
        proof {
            assert(next.drop_last() =~= points@.subrange(0, i as int));
            assert(next.last() == p);
            if has_full_point(points@.subrange(0, i as int)) {
                let j = choose|j: int| 0 <= j < i && is_full_point(#[trigger] points@.subrange(0, i as int)[j]);
                assert(next[j] == points@.subrange(0, i as int)[j]);
            }
            if has_full_point(next) {
                let j = choose|j: int| 0 <= j < i + 1 && is_full_point(#[trigger] next[j]);
                if j < i {
                    assert(next[j] == points@.subrange(0, i as int)[j]);
                }
            }
            if is_full_point(p) {
                assert(next[i as int] == p);
            }
        }
        full = full || (p.x.is_some() && p.z.is_some());
        min_x = match (min_x, p.x) {
            (Some(v), Some(w)) => Some(if w < v { w } else { v }),
            (Some(v), None) => Some(v),
            (None, w) => w,
        };
        max_x = match (max_x, p.x) {
            (Some(v), Some(w)) => Some(if w > v { w } else { v }),
            (Some(v), None) => Some(v),
            (None, w) => w,
        };
        min_z = match (min_z, p.z) {
            (Some(v), Some(w)) => Some(if w < v { w } else { v }),
            (Some(v), None) => Some(v),
            (None, w) => w,
        };
        max_z = match (max_z, p.z) {
            (Some(v), Some(w)) => Some(if w > v { w } else { v }),
            (Some(v), None) => Some(v),
            (None, w) => w,
        };
        i = i + 1;
    }
    proof {
        assert(points@.subrange(0, points@.len() as int) =~= points@);
        lemma_axis_extremes(points@, true);
        lemma_axis_extremes(points@, false);
        if full {
            let j = choose|j: int| 0 <= j < points@.len() && is_full_point(#[trigger] points@[j]);
            lemma_axis_present(points@, true, j);
            lemma_axis_present(points@, false, j);
        }
    }
    if !full {
        return Err(GeometryError::EmptyGeometry);
    }
    match (min_x, max_x, min_z, max_z) {
        (Some(x0), Some(x1), Some(z0), Some(z1)) => {
            let width: u64 = (2 * (x1 - x0)) as u64;
            let height: u64 = (2 * (z1 - z0)) as u64;
            proof {
                assert(width * height <= 16_000_000_000_000_000_000_000_000) by (nonlinear_arith)
                    requires
                        width <= 4_000_000_000_000,
                        height <= 4_000_000_000_000,
                ;
                assert((width * height + 1_000_000 - 1) / 1_000_000 <= 16_000_000_000_000_000_001) by (nonlinear_arith)
                    requires
                        0 <= width * height <= 16_000_000_000_000_000_000_000_000,
                ;
            }
            let product: u128 = (width as u128) * (height as u128);
            let area: u64 = ((product + (SCALE as u128) - 1) / (SCALE as u128)) as u64;
            let aspect = if height == 0 {
                Ratio::Infinite
            } else {
                Ratio::Finite(ratio_up(width, height))
            };
            let aspect_ri = if width == 0 || height == 0 {
                Ratio::Infinite
            } else if width >= height {
                Ratio::Finite(ratio_up(width, height))
            } else {
                Ratio::Finite(ratio_up(height, width))
            };
            Ok(BoundingBox { width, height, area, aspect, aspect_ri })
        },
        _ => Err(GeometryError::EmptyGeometry),
    }
}

/// The least and greatest coordinates along an axis are coordinates that
/// some point actually has.
pub proof fn lemma_axis_attained(pts: Seq<Transformation>, along_x: bool)
    ensures
        axis_min(pts, along_x) is Some ==> exists|i: int|
            0 <= i < pts.len() && coord(#[trigger] pts[i], along_x) == axis_min(pts, along_x),
        axis_max(pts, along_x) is Some ==> exists|i: int|
            0 <= i < pts.len() && coord(#[trigger] pts[i], along_x) == axis_max(pts, along_x),
    decreases pts.len(),
{
    if pts.len() > 0 {
        let init = pts.drop_last();
        lemma_axis_attained(init, along_x);
        if axis_min(init, along_x) is Some {
            let i = choose|i: int| 0 <= i < init.len() && coord(#[trigger] init[i], along_x) == axis_min(init, along_x);
            assert(pts[i] == init[i]);
        }
        if axis_max(init, along_x) is Some {
            let i = choose|i: int| 0 <= i < init.len() && coord(#[trigger] init[i], along_x) == axis_max(init, along_x);
            assert(pts[i] == init[i]);
        }
        assert(pts[pts.len() - 1] == pts.last());
    }
}

/// A measured box never has a negative side or area: each side is twice the
/// distance from the least to the greatest coordinate of its axis, and the
/// area is the product of the sides.
pub proof fn lemma_bounding_box_nonnegative(pts: Seq<Transformation>)
    requires
        points_within_limit(pts),
        pts.len() > 0,
    ensures
        spec_bounding_box(pts) is Ok ==> {
            let b = spec_bounding_box(pts)->Ok_0;
            &&& b.width as int == 2 * (axis_max(pts, true)->0 - axis_min(pts, true)->0) >= 0
            &&& b.height as int == 2 * (axis_max(pts, false)->0 - axis_min(pts, false)->0) >= 0
            &&& b.area as int == div_up(b.width * b.height, SCALE as int) >= 0
        },
{
    lemma_axis_extremes(pts, true);
    lemma_axis_extremes(pts, false);
    if spec_bounding_box(pts) is Ok {
        let w = 2 * (axis_max(pts, true)->0 - axis_min(pts, true)->0);
        let h = 2 * (axis_max(pts, false)->0 - axis_min(pts, false)->0);
        assert(w * h <= 16_000_000_000_000_000_000_000_000) by (nonlinear_arith)
            requires
                0 <= w <= 4_000_000_000_000,
                0 <= h <= 4_000_000_000_000,
        ;
        assert(0 <= (w * h + 1_000_000 - 1) / 1_000_000 <= 16_000_000_000_000_000_001) by (nonlinear_arith)
            requires
                0 <= w * h <= 16_000_000_000_000_000_000_000_000,
        ;
    }
}

/// Points that all share one `x` (or all share one `z`) still give a box,
/// without error, as long as some point has both coordinates: the box is flat,
/// its inverted aspect ratio is infinite, and its aspect is infinite when the
/// flat side is the height.
pub proof fn lemma_collinear_box(pts: Seq<Transformation>, along_x: bool)
    requires
        points_within_limit(pts),
        has_full_point(pts),
        forall|i: int, j: int|
            0 <= i < pts.len() && 0 <= j < pts.len() && coord(pts[i], along_x) is Some && coord(pts[j], along_x) is Some
                ==> coord(#[trigger] pts[i], along_x) == coord(#[trigger] pts[j], along_x),
    ensures
        spec_bounding_box(pts) is Ok,
        along_x ==> spec_bounding_box(pts)->Ok_0.width == 0,
        !along_x ==> spec_bounding_box(pts)->Ok_0.height == 0,
        spec_bounding_box(pts)->Ok_0.aspect_ri == Ratio::Infinite,
        spec_bounding_box(pts)->Ok_0.height == 0 ==> spec_bounding_box(pts)->Ok_0.aspect == Ratio::Infinite,
{
    let f = choose|f: int| 0 <= f < pts.len() && is_full_point(#[trigger] pts[f]);
    lemma_axis_present(pts, true, f);
    lemma_axis_present(pts, false, f);
    lemma_axis_extremes(pts, true);
    lemma_axis_extremes(pts, false);
    lemma_axis_attained(pts, along_x);
    let i = choose|i: int| 0 <= i < pts.len() && coord(#[trigger] pts[i], along_x) == axis_min(pts, along_x);
    let j = choose|j: int| 0 <= j < pts.len() && coord(#[trigger] pts[j], along_x) == axis_max(pts, along_x);
    assert(coord(pts[i], along_x) == coord(pts[j], along_x));
}

/// A single point with both coordinates gives a box of zero sides whose
/// aspect and inverted aspect ratio are both infinite.
pub proof fn lemma_single_point_box(p: Transformation)
    requires
        point_within_limit(p),
        p.x is Some,
        p.z is Some,
    ensures
        spec_bounding_box(seq![p]) is Ok,
        spec_bounding_box(seq![p])->Ok_0.width == 0,
        spec_bounding_box(seq![p])->Ok_0.height == 0,
        spec_bounding_box(seq![p])->Ok_0.area == 0,
        spec_bounding_box(seq![p])->Ok_0.aspect == Ratio::Infinite,
        spec_bounding_box(seq![p])->Ok_0.aspect_ri == Ratio::Infinite,
{
    let s = seq![p];
    assert(s.drop_last() =~= Seq::<Transformation>::empty());
    assert(s.last() == p);
    assert(axis_min(s.drop_last(), true) is None);
    assert(axis_min(s.drop_last(), false) is None);
    assert(axis_max(s.drop_last(), true) is None);
    assert(axis_max(s.drop_last(), false) is None);
    assert(is_full_point(s[0]));
    assert(axis_min(s, true) == p.x);
    assert(axis_max(s, true) == p.x);
    assert(axis_min(s, false) == p.z);
    assert(axis_max(s, false) == p.z);
    assert(div_up(0, SCALE as int) == 0);
}

} // verus!
