//! Ring assembly: one polygon out of the tagged boundary rings of a record.
//!
//! The points of all outer rings, in the order of the record, make the
//! exterior ring; each inner ring becomes one hole, in the order of the
//! record. Nothing is checked: neither closure, nor winding, nor that a ring
//! has enough points.
use crate::geometry::{views, Geometry, GeometryView, LineString, Point, Polygon, PolygonView};
use vstd::prelude::*;

verus! {

/// One boundary ring of a record, tagged by the source as outer or inner.
#[derive(Clone, Debug, PartialEq, Eq, Hash)]
pub enum PolygonRing {
    Outer(Vec<Point>),
    Inner(Vec<Point>),
}

/// What a tagged ring holds.
pub ghost enum RingView {
    Outer(Seq<Point>),
    Inner(Seq<Point>),
}

impl RingView {
    /// The points of the ring, whatever its tag.
    pub open spec fn points(self) -> Seq<Point> {
        match self {
            RingView::Outer(ps) => ps,
            RingView::Inner(ps) => ps,
        }
    }
}

impl View for PolygonRing {
    type V = RingView;

    open spec fn view(&self) -> RingView {
        match self {
            PolygonRing::Outer(ps) => RingView::Outer(ps@),
            PolygonRing::Inner(ps) => RingView::Inner(ps@),
        }
    }
}

/// The points of the outer rings of `rings`, one ring after the other.
pub open spec fn exterior_points(rings: Seq<RingView>) -> Seq<Point>
    decreases rings.len(),
{
    if rings.len() == 0 {
        Seq::empty()
    } else {
        match rings.last() {
            RingView::Outer(ps) => exterior_points(rings.drop_last()) + ps,
            RingView::Inner(_) => exterior_points(rings.drop_last()),
        }
    }
}

/// The inner rings of `rings`, in their order.
pub open spec fn interior_rings(rings: Seq<RingView>) -> Seq<Seq<Point>>
    decreases rings.len(),
{
    if rings.len() == 0 {
        Seq::empty()
    } else {
        match rings.last() {
            RingView::Outer(_) => interior_rings(rings.drop_last()),
            RingView::Inner(ps) => interior_rings(rings.drop_last()).push(ps),
        }
    }
}

/// Whether `ring` is tagged inner.
pub open spec fn is_inner(ring: RingView) -> bool {
    ring is Inner
}

/// Whether `ring` is tagged outer.
pub open spec fn is_outer(ring: RingView) -> bool {
    ring is Outer
}

/// The holes are the inner rings of the record: one hole for each inner
/// ring, in the order in which the inner rings stand in the record. A record
/// without an inner ring gives no hole.
pub proof fn lemma_holes_are_the_inner_rings(rings: Seq<RingView>)
    ensures
        interior_rings(rings) == rings.filter(|r: RingView| is_inner(r)).map_values(
            |r: RingView| r.points(),
        ),
        interior_rings(rings).len() == rings.filter(|r: RingView| is_inner(r)).len(),
        (forall|i: int| 0 <= i < rings.len() ==> !is_inner(#[trigger] rings[i]))
            ==> interior_rings(rings) == Seq::<Seq<Point>>::empty(),
    decreases rings.len(),
{
    let inner = |r: RingView| is_inner(r);
    let points = |r: RingView| r.points();
    reveal(Seq::filter);
    if rings.len() > 0 {
        let front = rings.drop_last();
        lemma_holes_are_the_inner_rings(front);
        assert(rings.filter(inner) == if is_inner(rings.last()) {
            front.filter(inner).push(rings.last())
        } else {
            front.filter(inner)
        });
        assert(interior_rings(rings) =~= rings.filter(inner).map_values(points));
        if forall|i: int| 0 <= i < rings.len() ==> !is_inner(#[trigger] rings[i]) {
            assert(!is_inner(rings[rings.len() - 1]));
            assert forall|i: int| 0 <= i < front.len() implies !is_inner(#[trigger] front[i]) by {
                assert(front[i] == rings[i]);
            }
        }
    } else {
        assert(interior_rings(rings) =~= rings.filter(inner).map_values(points));
    }
}

/// The exterior ring is the concatenation of the outer rings of the record,
/// in the order in which they stand in the record.
pub proof fn lemma_exterior_is_the_outer_rings(rings: Seq<RingView>)
    ensures
        exterior_points(rings) == rings.filter(|r: RingView| is_outer(r)).map_values(
            |r: RingView| r.points(),
        ).flatten(),
    decreases rings.len(),
{
    let outer = |r: RingView| is_outer(r);
    let points = |r: RingView| r.points();
    reveal(Seq::filter);
    let kept = rings.filter(outer).map_values(points);
    kept.lemma_flatten_and_flatten_alt_are_equivalent();
    if rings.len() > 0 {
        let front = rings.drop_last();
        let kept_front = front.filter(outer).map_values(points);
        lemma_exterior_is_the_outer_rings(front);
        kept_front.lemma_flatten_and_flatten_alt_are_equivalent();
        if is_outer(rings.last()) {
            assert(rings.filter(outer) == front.filter(outer).push(rings.last()));
            assert(kept.drop_last() =~= kept_front);
            assert(kept.last() == rings.last().points());
        } else {
            assert(rings.filter(outer) == front.filter(outer));
        }
    }
}

/// The polygon that `rings` assemble into.
pub open spec fn assembled(rings: Seq<RingView>) -> PolygonView {
    PolygonView { exterior: exterior_points(rings), interiors: interior_rings(rings) }
}

/// Assembles the rings of one record into a polygon.
pub fn assemble(rings: &Vec<PolygonRing>) -> (r: Polygon)
    ensures
        r@ == assembled(views(rings@)),
{
    let mut exterior: Vec<Point> = Vec::new();
    let mut interiors: Vec<LineString> = Vec::new();
    let mut i: usize = 0;
    while i < rings.len()
        invariant
            i <= rings.len(),
            exterior@ == exterior_points(views(rings@).take(i as int)),
            views(interiors@) == interior_rings(views(rings@).take(i as int)),
        decreases rings.len() - i,
    {
        proof {
            let seen = views(rings@).take(i + 1);
            assert(seen.drop_last() == views(rings@).take(i as int));
            assert(seen.last() == rings@[i as int]@);
        }
        match &rings[i] {
            PolygonRing::Outer(ps) => {
                let mut copy = ps.clone();
                exterior.append(&mut copy);
            },
            PolygonRing::Inner(ps) => {
                let ghost before = views(interiors@);
                interiors.push(LineString(ps.clone()));
                assert(views(interiors@) == before.push(ps@));
            },
        }
        i += 1;
    }
    assert(views(rings@).take(rings.len() as int) == views(rings@));
    Polygon { exterior: LineString(exterior), interiors }
}

/// Turns the rings of one record into a polygon geometry.
pub fn to_geo(rings: &Vec<PolygonRing>) -> (r: Geometry)
    ensures
        r@ == GeometryView::Polygon(assembled(views(rings@))),
{
    Geometry::Polygon(assemble(rings))
}

} // verus!
