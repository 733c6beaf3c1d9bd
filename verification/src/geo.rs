//! Axis-aligned bounding boxes over micro-degree coordinates.
//!
//! Every alert carries a box `(minx, miny, maxx, maxy)`. When a feed gives
//! no usable geometry the whole-world box stands in, so a stored box is
//! always valid: `minx <= maxx` and `miny <= maxy`.

use vstd::prelude::*;

verus! {

/// West edge of the whole-world box, in micro-degrees.
pub const WORLD_MIN_X: i64 = -180000000;

/// South edge of the whole-world box, in micro-degrees.
pub const WORLD_MIN_Y: i64 = -90000000;

/// East edge of the whole-world box, in micro-degrees.
pub const WORLD_MAX_X: i64 = 180000000;

/// North edge of the whole-world box, in micro-degrees.
pub const WORLD_MAX_Y: i64 = 90000000;

/// One vertex, in micro-degrees: `x` is longitude, `y` is latitude.
#[derive(Clone, Copy, PartialEq, Eq, Structural, Debug)]
pub struct Coord {
    pub x: i64,
    pub y: i64,
}

/// An axis-aligned bounding box in micro-degrees.
#[derive(Clone, Copy, PartialEq, Eq, Structural, Debug)]
pub struct BBox {
    pub minx: i64,
    pub miny: i64,
    pub maxx: i64,
    pub maxy: i64,
}

impl BBox {
    /// A box is valid when each minimum is at most its maximum.
    pub open spec fn valid(self) -> bool {
        self.minx <= self.maxx && self.miny <= self.maxy
    }

    /// The whole-world fallback box.
    pub open spec fn spec_world() -> BBox {
        BBox { minx: WORLD_MIN_X, miny: WORLD_MIN_Y, maxx: WORLD_MAX_X, maxy: WORLD_MAX_Y }
    }

    /// Returns the whole-world box, the fallback for absent or degenerate
    /// geometry.
    pub fn world() -> (r: BBox)
        ensures
            r == Self::spec_world(),
            r.valid(),
    {
        BBox { minx: WORLD_MIN_X, miny: WORLD_MIN_Y, maxx: WORLD_MAX_X, maxy: WORLD_MAX_Y }
    }

    /// Two boxes overlap when their extents intersect on both axes.
    pub open spec fn spec_overlaps(self, other: BBox) -> bool {
        self.minx <= other.maxx && self.maxx >= other.minx && self.miny <= other.maxy
            && self.maxy >= other.miny
    }

    /// Standard two-dimensional interval-overlap test.
    pub fn overlaps(&self, other: &BBox) -> (r: bool)
        ensures
            r == self.spec_overlaps(*other),
    {
        self.minx <= other.maxx && self.maxx >= other.minx && self.miny <= other.maxy
            && self.maxy >= other.miny
    }
}

/// The rings of a geometry as a sequence of vertex sequences.
pub open spec fn rings_view(rings: Seq<Vec<Coord>>) -> Seq<Seq<Coord>> {
    rings.map_values(|r: Vec<Coord>| r@)
}

/// All vertices of a list of rings, flattened in order.
pub open spec fn all_points(rings: Seq<Seq<Coord>>) -> Seq<Coord>
    decreases rings.len(),
{
    if rings.len() == 0 {
        Seq::empty()
    } else {
        all_points(rings.drop_last()) + rings.last()
    }
}

/// The box `b` encloses every point of `pts`, and touches it on each of the
/// four sides: it is the tightest valid box around a non-empty point set.
pub open spec fn tight_box(pts: Seq<Coord>, b: BBox) -> bool {
    &&& forall|i: int|
        0 <= i < pts.len() ==> b.minx <= #[trigger] pts[i].x <= b.maxx && b.miny <= pts[i].y
            <= b.maxy
    &&& exists|i: int| 0 <= i < pts.len() && #[trigger] pts[i].x == b.minx
    &&& exists|i: int| 0 <= i < pts.len() && #[trigger] pts[i].y == b.miny
    &&& exists|i: int| 0 <= i < pts.len() && #[trigger] pts[i].x == b.maxx
    &&& exists|i: int| 0 <= i < pts.len() && #[trigger] pts[i].y == b.maxy
}

/// Computes the tightest bounding box around the vertices of the given
/// rings; `None` exactly when there is no vertex at all.
pub fn bbox_of(rings: &Vec<Vec<Coord>>) -> (r: Option<BBox>)
    ensures
        (r is Some) <==> all_points(rings_view(rings@)).len() > 0,
        r matches Some(b) ==> tight_box(all_points(rings_view(rings@)), b) && b.valid(),
{
    let ghost full = all_points(rings_view(rings@));
    let mut found = false;
    let mut acc = BBox { minx: 0, miny: 0, maxx: 0, maxy: 0 };
    let mut i: usize = 0;
    proof {
        lemma_all_points_take(rings_view(rings@), 0);
    }
    while i < rings.len()
        invariant
            0 <= i <= rings.len(),
            full == all_points(rings_view(rings@)),
            found <==> all_points(rings_view(rings@).take(i as int)).len() > 0,
            found ==> tight_box(all_points(rings_view(rings@).take(i as int)), acc),
        decreases rings.len() - i,
    {
        let ring = &rings[i];
        let ghost prefix = all_points(rings_view(rings@).take(i as int));
        let mut j: usize = 0;
        while j < ring.len()
            invariant
                0 <= j <= ring.len(),
                ring@ == rings_view(rings@)[i as int],
                i < rings.len(),
                found <==> (prefix + ring@.take(j as int)).len() > 0,
                found ==> tight_box(prefix + ring@.take(j as int), acc),
            decreases ring.len() - j,
        {
            let p = ring[j];
            proof {
                assert(ring@.take(j + 1).drop_last() =~= ring@.take(j as int));
                assert((prefix + ring@.take(j + 1)).drop_last() =~= prefix + ring@.take(
                    j as int,
                ));
                assert((prefix + ring@.take(j + 1)).last() == p);
                assert(prefix + ring@.take(j + 1) =~= (prefix + ring@.take(j as int)).push(p));
            }
            if !found {
                found = true;
                acc = BBox { minx: p.x, miny: p.y, maxx: p.x, maxy: p.y };
            } else {
                if p.x < acc.minx {
                    acc.minx = p.x;
                }
                if p.y < acc.miny {
                    acc.miny = p.y;
                }
                if p.x > acc.maxx {
                    acc.maxx = p.x;
                }
                if p.y > acc.maxy {
                    acc.maxy = p.y;
                }
            }
            j += 1;
        }
        proof {
            assert(ring@.take(ring@.len() as int) =~= ring@);
            lemma_all_points_take(rings_view(rings@), i + 1);
            assert(rings_view(rings@).take(i + 1).drop_last() =~= rings_view(rings@).take(
                i as int,
            ));
            assert(all_points(rings_view(rings@).take(i + 1)) =~= prefix + ring@);
        }
        i += 1;
    }
    proof {
        assert(rings_view(rings@).take(rings.len() as int) =~= rings_view(rings@));
    }
    if found {
        Some(acc)
    } else {
        None
    }
}

/// Unfolds `all_points` one step at a prefix boundary.
proof fn lemma_all_points_take(rings: Seq<Seq<Coord>>, n: int)
    requires
        0 <= n <= rings.len(),
    ensures
        n == 0 ==> all_points(rings.take(n)) =~= Seq::<Coord>::empty(),
        n > 0 ==> all_points(rings.take(n)) == all_points(rings.take(n - 1)) + rings[n - 1],
{
    if n > 0 {
        assert(rings.take(n).drop_last() =~= rings.take(n - 1));
        assert(rings.take(n).last() == rings[n - 1]);
    } else {
        assert(rings.take(0).len() == 0);
    }
}

/// The bounding box stored for a geometry: the tight box when there is at
/// least one vertex, the whole-world box otherwise.
pub fn bbox_or_world(rings: &Vec<Vec<Coord>>) -> (r: BBox)
    ensures
        r.valid(),
        all_points(rings_view(rings@)).len() == 0 ==> r == BBox::spec_world(),
        all_points(rings_view(rings@)).len() > 0 ==> tight_box(all_points(rings_view(rings@)), r),
{
    match bbox_of(rings) {
        Some(b) => b,
        None => BBox::world(),
    }
}

/// A coordinate value clamped into the valid longitude range.
pub open spec fn spec_clamp_x(v: int) -> int {
    if v < WORLD_MIN_X {
        WORLD_MIN_X as int
    } else if v > WORLD_MAX_X {
        WORLD_MAX_X as int
    } else {
        v
    }
}

/// A coordinate value clamped into the valid latitude range.
pub open spec fn spec_clamp_y(v: int) -> int {
    if v < WORLD_MIN_Y {
        WORLD_MIN_Y as int
    } else if v > WORLD_MAX_Y {
        WORLD_MAX_Y as int
    } else {
        v
    }
}

/// A box lies within the whole-world box.
pub open spec fn box_in_world(b: BBox) -> bool {
    WORLD_MIN_X <= b.minx && b.maxx <= WORLD_MAX_X && WORLD_MIN_Y <= b.miny && b.maxy
        <= WORLD_MAX_Y
}

/// The box with each edge clamped into the whole-world box.
pub open spec fn spec_clamp_box(b: BBox) -> BBox {
    BBox {
        minx: spec_clamp_x(b.minx as int) as i64,
        miny: spec_clamp_y(b.miny as int) as i64,
        maxx: spec_clamp_x(b.maxx as int) as i64,
        maxy: spec_clamp_y(b.maxy as int) as i64,
    }
}

/// Clamps a box into the whole-world box; validity is preserved because
/// clamping is monotone.
pub fn clamp_box(b: &BBox) -> (r: BBox)
    requires
        b.valid(),
    ensures
        r == spec_clamp_box(*b),
        r.valid(),
        box_in_world(r),
{
    let minx = if b.minx < WORLD_MIN_X {
        WORLD_MIN_X
    } else if b.minx > WORLD_MAX_X {
        WORLD_MAX_X
    } else {
        b.minx
    };
    let miny = if b.miny < WORLD_MIN_Y {
        WORLD_MIN_Y
    } else if b.miny > WORLD_MAX_Y {
        WORLD_MAX_Y
    } else {
        b.miny
    };
    let maxx = if b.maxx < WORLD_MIN_X {
        WORLD_MIN_X
    } else if b.maxx > WORLD_MAX_X {
        WORLD_MAX_X
    } else {
        b.maxx
    };
    let maxy = if b.maxy < WORLD_MIN_Y {
        WORLD_MIN_Y
    } else if b.maxy > WORLD_MAX_Y {
        WORLD_MAX_Y
    } else {
        b.maxy
    };
    BBox { minx, miny, maxx, maxy }
}

} // verus!
