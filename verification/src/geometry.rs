//! The geometry model: points, rings, polygons and the tagged union over them.
//!
//! Every type has a mathematical view (`@`): a run of points is a `Seq<Point>`,
//! a polygon a [`PolygonView`], a geometry a [`GeometryView`]. Two values are
//! equal (`==`) exactly when their views are.
use vstd::prelude::*;
use vstd::std_specs::cmp::PartialEqSpecImpl;

verus! {

/// A position. Each coordinate is the IEEE 754 binary64 bit pattern of the
/// value, so that a coordinate survives every step unchanged. Two points are
/// equal when their bit patterns are: `0.0` and `-0.0` are different
/// coordinates, and a NaN is equal to itself.
#[derive(Clone, Copy, Debug, Eq, Hash)]
pub struct Point {
    pub x: u64,
    pub y: u64,
}

impl PartialEq for Point {
    fn eq(&self, other: &Self) -> (r: bool) {
        self.x == other.x && self.y == other.y
    }
}

impl PartialEqSpecImpl for Point {
    open spec fn obeys_eq_spec() -> bool {
        true
    }

    open spec fn eq_spec(&self, other: &Self) -> bool {
        *self == *other
    }
}

/// The views of the items of `s`, in order.
pub open spec fn views<T: View>(s: Seq<T>) -> Seq<T::V> {
    Seq::new(s.len(), |i: int| s[i]@)
}

/// Two runs have the same views exactly when they are as long as each other
/// and agree, view by view, at every position.
pub proof fn lemma_views_equal<T: View>(a: Seq<T>, b: Seq<T>)
    ensures
        views(a) == views(b) <==> (a.len() == b.len() && forall|i: int|
            0 <= i < a.len() ==> (#[trigger] a[i])@ == b[i]@),
{
    if views(a) == views(b) {
        assert(views(a).len() == views(b).len());
        assert forall|i: int| 0 <= i < a.len() implies (#[trigger] a[i])@ == b[i]@ by {
            assert(views(a)[i] == views(b)[i]);
        }
    }
    if a.len() == b.len() && forall|i: int| 0 <= i < a.len() ==> (#[trigger] a[i])@ == b[i]@ {
        assert(views(a) =~= views(b));
    }
}

/// An ordered run of points: a ring where it bounds a polygon.
#[derive(Debug, Eq, Hash)]
pub struct LineString(pub Vec<Point>);

impl View for LineString {
    type V = Seq<Point>;

    open spec fn view(&self) -> Seq<Point> {
        self.0@
    }
}

impl Clone for LineString {
    fn clone(&self) -> (r: Self)
        ensures
            r@ == self@,
    {
        LineString(self.0.clone())
    }
}

impl PartialEq for LineString {
    fn eq(&self, other: &Self) -> (r: bool) {
        let r = self.0 == other.0;
        assert(r == (self.0@ =~= other.0@));
        r
    }
}

impl PartialEqSpecImpl for LineString {
    open spec fn obeys_eq_spec() -> bool {
        true
    }

    open spec fn eq_spec(&self, other: &Self) -> bool {
        self@ == other@
    }
}

/// What a polygon holds: the exterior ring and the holes, in order.
pub ghost struct PolygonView {
    pub exterior: Seq<Point>,
    pub interiors: Seq<Seq<Point>>,
}

/// One exterior ring and any number of interior rings (holes). Nothing is
/// asked of the rings: they are taken as the source gave them.
#[derive(Debug, Eq, Hash)]
pub struct Polygon {
    pub exterior: LineString,
    pub interiors: Vec<LineString>,
}

impl View for Polygon {
    type V = PolygonView;

    open spec fn view(&self) -> PolygonView {
        PolygonView { exterior: self.exterior@, interiors: views(self.interiors@) }
    }
}

impl Clone for Polygon {
    fn clone(&self) -> (r: Self)
        ensures
            r@ == self@,
    {
        let r = Polygon { exterior: self.exterior.clone(), interiors: self.interiors.clone() };
        assert(views(r.interiors@) =~= views(self.interiors@));
        r
    }
}

impl PartialEq for Polygon {
    fn eq(&self, other: &Self) -> (r: bool) {
        let r = self.exterior == other.exterior && self.interiors == other.interiors;
        proof {
            lemma_views_equal(self.interiors@, other.interiors@);
        }
        r
    }
}

impl PartialEqSpecImpl for Polygon {
    open spec fn obeys_eq_spec() -> bool {
        true
    }

    open spec fn eq_spec(&self, other: &Self) -> bool {
        self@ == other@
    }
}

/// What a geometry holds, variant by variant.
pub ghost enum GeometryView {
    Point(Point),
    Line(Point, Point),
    LineString(Seq<Point>),
    Polygon(PolygonView),
    MultiPoint(Seq<Point>),
    MultiLineString(Seq<Seq<Point>>),
    MultiPolygon(Seq<PolygonView>),
    GeometryCollection(Seq<GeometryView>),
    Rect(Point, Point),
    Triangle(Point, Point, Point),
}

/// The tagged union of the shapes that a source can hold. Water is tested
/// against polygons and multi-polygons only; a target of another shape is
/// carried through as it came and matches nothing.
#[derive(Debug, Eq, Hash)]
pub enum Geometry {
    Point(Point),
    /// A segment, from its start to its end.
    Line(Point, Point),
    LineString(LineString),
    Polygon(Polygon),
    MultiPoint(Vec<Point>),
    MultiLineString(Vec<LineString>),
    MultiPolygon(Vec<Polygon>),
    GeometryCollection(Vec<Geometry>),
    /// An axis-aligned rectangle, by two opposite corners.
    Rect(Point, Point),
    /// A triangle, by its three corners.
    Triangle(Point, Point, Point),
}

/// What `g` holds. A nested collection holds the views of its members.
pub open spec fn geometry_view(g: Geometry) -> GeometryView
    decreases g,
{
    match g {
        Geometry::Point(p) => GeometryView::Point(p),
        Geometry::Line(a, b) => GeometryView::Line(a, b),
        Geometry::LineString(l) => GeometryView::LineString(l@),
        Geometry::Polygon(p) => GeometryView::Polygon(p@),
        Geometry::MultiPoint(ps) => GeometryView::MultiPoint(ps@),
        Geometry::MultiLineString(ls) => GeometryView::MultiLineString(views(ls@)),
        Geometry::MultiPolygon(ps) => GeometryView::MultiPolygon(views(ps@)),
        Geometry::GeometryCollection(gs) => GeometryView::GeometryCollection(
            Seq::new(
                gs@.len(),
                |i: int|
                    if 0 <= i < gs@.len() {
                        geometry_view(gs@[i])
                    } else {
                        arbitrary()
                    },
            ),
        ),
        Geometry::Rect(a, b) => GeometryView::Rect(a, b),
        Geometry::Triangle(a, b, c) => GeometryView::Triangle(a, b, c),
    }
}

impl View for Geometry {
    type V = GeometryView;

    open spec fn view(&self) -> GeometryView {
        geometry_view(*self)
    }
}

/// The view of a nested collection is the run of its members' views.
pub proof fn lemma_nested_view(gs: Vec<Geometry>)
    ensures
        Geometry::GeometryCollection(gs)@ == GeometryView::GeometryCollection(views(gs@)),
{
    let nested = Geometry::GeometryCollection(gs)@->GeometryCollection_0;
    assert(nested =~= views(gs@));
}

impl Clone for Geometry {
    fn clone(&self) -> (r: Self)
        ensures
            r@ == self@,
        decreases self,
    {
        match self {
            Geometry::Point(p) => Geometry::Point(*p),
            Geometry::Line(a, b) => Geometry::Line(*a, *b),
            Geometry::LineString(l) => Geometry::LineString(l.clone()),
            Geometry::Polygon(p) => Geometry::Polygon(p.clone()),
            Geometry::MultiPoint(ps) => Geometry::MultiPoint(ps.clone()),
            Geometry::MultiLineString(ls) => {
                let copy = ls.clone();
                assert(views(copy@) =~= views(ls@));
                Geometry::MultiLineString(copy)
            },
            Geometry::MultiPolygon(ps) => {
                let copy = ps.clone();
                assert(views(copy@) =~= views(ps@));
                Geometry::MultiPolygon(copy)
            },
            Geometry::GeometryCollection(gs) => {
                let mut copy: Vec<Geometry> = Vec::new();
                let mut i: usize = 0;
                while i < gs.len()
                    invariant
                        i <= gs.len(),
                        copy.len() == i,
                        forall|k: int| 0 <= k < i ==> copy@[k]@ == gs@[k]@,
                        self == Geometry::GeometryCollection(*gs),
                    decreases gs.len() - i,
                {
                    proof {
                        vstd::std_specs::vec::axiom_vec_index_decreases(*gs, i as int);
                        assert(decreases_to!(*self => self->GeometryCollection_0));
                    }
                    let member = gs[i].clone();
                    copy.push(member);
                    i += 1;
                }
                proof {
                    lemma_nested_view(*gs);
                    lemma_nested_view(copy);
                    assert(views(copy@) =~= views(gs@));
                }
                Geometry::GeometryCollection(copy)
            },
            Geometry::Rect(a, b) => Geometry::Rect(*a, *b),
            Geometry::Triangle(a, b, c) => Geometry::Triangle(*a, *b, *c),
        }
    }
}

impl Geometry {
    /// Compares two geometries by what they hold.
    pub fn same_as(&self, other: &Geometry) -> (r: bool)
        ensures
            r == (self@ == other@),
        decreases self,
    {
        match (self, other) {
            (Geometry::Point(a), Geometry::Point(b)) => *a == *b,
            (Geometry::Line(a, b), Geometry::Line(c, d)) => *a == *c && *b == *d,
            (Geometry::LineString(a), Geometry::LineString(b)) => *a == *b,
            (Geometry::Polygon(a), Geometry::Polygon(b)) => *a == *b,
            (Geometry::MultiPoint(a), Geometry::MultiPoint(b)) => {
                let r = *a == *b;
                assert(r == (a@ =~= b@));
                r
            },
            (Geometry::MultiLineString(a), Geometry::MultiLineString(b)) => {
                proof {
                    lemma_views_equal(a@, b@);
                }
                *a == *b
            },
            (Geometry::MultiPolygon(a), Geometry::MultiPolygon(b)) => {
                proof {
                    lemma_views_equal(a@, b@);
                }
                *a == *b
            },
            (Geometry::GeometryCollection(a), Geometry::GeometryCollection(b)) => {
                proof {
                    lemma_nested_view(*a);
                    lemma_nested_view(*b);
                    lemma_views_equal(a@, b@);
                }
                if a.len() != b.len() {
                    return false;
                }
                let mut i: usize = 0;
                while i < a.len()
                    invariant
                        i <= a.len(),
                        a.len() == b.len(),
                        forall|k: int| 0 <= k < i ==> a@[k]@ == b@[k]@,
                        self == Geometry::GeometryCollection(*a),
                        (self@ == other@) == (views(a@) == views(b@)),
                    decreases a.len() - i,
                {
                    proof {
                        vstd::std_specs::vec::axiom_vec_index_decreases(*a, i as int);
                        assert(decreases_to!(*self => self->GeometryCollection_0));
                    }
                    if !a[i].same_as(&b[i]) {
                        proof {
                            lemma_views_equal(a@, b@);
                        }
                        return false;
                    }
                    i += 1;
                }
                true
            },
            (Geometry::Rect(a, b), Geometry::Rect(c, d)) => *a == *c && *b == *d,
            (Geometry::Triangle(a, b, c), Geometry::Triangle(d, e, f)) => *a == *d && *b == *e
                && *c == *f,
            _ => false,
        }
    }
}

impl PartialEq for Geometry {
    fn eq(&self, other: &Self) -> (r: bool) {
        self.same_as(other)
    }
}

impl PartialEqSpecImpl for Geometry {
    open spec fn obeys_eq_spec() -> bool {
        true
    }

    open spec fn eq_spec(&self, other: &Self) -> bool {
        self@ == other@
    }
}

/// An ordered sequence of geometries.
#[derive(Debug, Eq, Hash)]
pub struct GeometryCollection(pub Vec<Geometry>);

impl View for GeometryCollection {
    type V = Seq<GeometryView>;

    open spec fn view(&self) -> Seq<GeometryView> {
        views(self.0@)
    }
}

impl Clone for GeometryCollection {
    fn clone(&self) -> (r: Self)
        ensures
            r@ == self@,
    {
        let copy = self.0.clone();
        assert(views(copy@) =~= views(self.0@));
        GeometryCollection(copy)
    }
}

impl PartialEq for GeometryCollection {
    fn eq(&self, other: &Self) -> (r: bool) {
        proof {
            lemma_views_equal(self.0@, other.0@);
        }
        self.0 == other.0
    }
}

impl PartialEqSpecImpl for GeometryCollection {
    open spec fn obeys_eq_spec() -> bool {
        true
    }

    open spec fn eq_spec(&self, other: &Self) -> bool {
        self@ == other@
    }
}

impl GeometryCollection {
    /// The collection of `geometries`, in their order.
    pub fn new_from(geometries: Vec<Geometry>) -> (r: GeometryCollection)
        ensures
            r@ == views(geometries@),
    {
        GeometryCollection(geometries)
    }

    /// How many geometries the collection holds.
    pub fn len(&self) -> (n: usize)
        ensures
            n == self@.len(),
    {
        self.0.len()
    }

    /// Whether the collection holds no geometry.
    pub fn is_empty(&self) -> (r: bool)
        ensures
            r == (self@.len() == 0),
    {
        self.0.len() == 0
    }
}

} // verus!
