//! The spatial join: the water geometries that intersect a target.
//!
//! Whether two shapes intersect is a question of coordinates, which this
//! library carries but does not compute with. The caller answers it, pair by
//! pair, in a table of outcomes; the join decides from the table which water
//! geometries to keep.
//!
//! A target is tested through its constituents: a polygon is its own single
//! constituent, a multi-polygon has its member polygons, and any other
//! geometry has none and so never matches. In the table, `hits[i][j][k]` says
//! whether water geometry `i` intersects constituent `k` of target `j`. An
//! outcome that the table lacks counts as no intersection.
use crate::geometry::{views, Geometry, GeometryCollection, GeometryView, Polygon, PolygonView};
use vstd::prelude::*;

verus! {

/// The polygons through which `target` is tested.
pub open spec fn constituents(target: GeometryView) -> Seq<PolygonView> {
    match target {
        GeometryView::Polygon(p) => seq![p],
        GeometryView::MultiPolygon(ps) => ps,
        _ => Seq::empty(),
    }
}

/// Whether the table says that water geometry `i` intersects constituent `k`
/// of target `j`.
pub open spec fn hit(table: Seq<Seq<Seq<bool>>>, i: int, j: int, k: int) -> bool {
    &&& 0 <= i < table.len()
    &&& 0 <= j < table[i].len()
    &&& 0 <= k < table[i][j].len()
    &&& table[i][j][k]
}

/// Whether water geometry `i` intersects one of the first `width`
/// constituents of target `j`.
pub open spec fn hits_target(table: Seq<Seq<Seq<bool>>>, i: int, j: int, width: int) -> bool {
    exists|k: int| 0 <= k < width && #[trigger] hit(table, i, j, k)
}

/// Whether water geometry `i` intersects one of the first `upto` targets:
/// a polygon itself, a multi-polygon in at least one of its members.
pub open spec fn hits_a_target(
    targets: Seq<GeometryView>,
    table: Seq<Seq<Seq<bool>>>,
    i: int,
    upto: int,
) -> bool {
    exists|j: int|
        0 <= j < upto && j < targets.len() && #[trigger] hits_target(
            table,
            i,
            j,
            constituents(targets[j]).len() as int,
        )
}

/// Whether `w` is one of the first `upto` water geometries and intersects a
/// target there.
pub open spec fn intersects_a_target(
    water: Seq<GeometryView>,
    targets: Seq<GeometryView>,
    table: Seq<Seq<Seq<bool>>>,
    w: GeometryView,
    upto: int,
) -> bool {
    exists|i: int|
        0 <= i < upto && i < water.len() && water[i] == w && #[trigger] hits_a_target(
            targets,
            table,
            i,
            targets.len() as int,
        )
}

/// `s` with every run of equal neighbours collapsed to its first item.
/// Equal items that something else separates both stay.
pub open spec fn dedup<T>(s: Seq<T>) -> Seq<T>
    decreases s.len(),
{
    if s.len() <= 1 {
        s
    } else if s[s.len() - 2] == s.last() {
        dedup(s.drop_last())
    } else {
        dedup(s.drop_last()).push(s.last())
    }
}

/// Those of the first `i` water geometries that intersect a target, in
/// their order.
pub open spec fn matching(
    water: Seq<GeometryView>,
    targets: Seq<GeometryView>,
    table: Seq<Seq<Seq<bool>>>,
    i: nat,
) -> Seq<GeometryView>
    decreases i,
{
    if i == 0 || i > water.len() {
        Seq::empty()
    } else {
        let before = matching(water, targets, table, (i - 1) as nat);
        if hits_a_target(targets, table, i - 1, targets.len() as int) {
            before.push(water[i - 1])
        } else {
            before
        }
    }
}

/// The result of the join: the water geometries that intersect a target,
/// in their order, equal neighbours collapsed.
pub open spec fn intersecting(
    water: Seq<GeometryView>,
    targets: Seq<GeometryView>,
    table: Seq<Seq<Seq<bool>>>,
) -> Seq<GeometryView> {
    dedup(matching(water, targets, table, water.len()))
}

/// Dropping duplicates keeps the last item in place.
pub proof fn lemma_dedup_last<T>(s: Seq<T>)
    requires
        s.len() > 0,
    ensures
        dedup(s).len() > 0,
        dedup(s).last() == s.last(),
    decreases s.len(),
{
    if s.len() > 1 {
        lemma_dedup_last(s.drop_last());
    }
}

/// How one more item extends a sequence without duplicate neighbours.
pub proof fn lemma_dedup_push<T>(s: Seq<T>, x: T)
    ensures
        dedup(s.push(x)) == if s.len() > 0 && s.last() == x {
            dedup(s)
        } else {
            dedup(s).push(x)
        },
{
    assert(s.push(x).drop_last() =~= s);
    if s.len() == 0 {
        assert(dedup(s).push(x) =~= s.push(x));
    }
}

/// Dropping duplicates among neighbours loses no geometry and adds none.
pub proof fn lemma_dedup_keeps_members<T>(s: Seq<T>, x: T)
    ensures
        dedup(s).contains(x) <==> s.contains(x),
    decreases s.len(),
{
    broadcast use vstd::seq_lib::lemma_seq_contains_after_push;

    if s.len() > 1 {
        let front = s.drop_last();
        lemma_dedup_keeps_members(front, x);
        assert(front.push(s.last()) =~= s);
        if s[s.len() - 2] == s.last() {
            assert(front[front.len() - 1] == s.last());
        }
    }
}

/// After duplicates are dropped no two neighbours are equal.
pub proof fn lemma_dedup_neighbours_differ<T>(s: Seq<T>, i: int)
    requires
        0 <= i,
        i + 1 < dedup(s).len(),
    ensures
        dedup(s)[i] != dedup(s)[i + 1],
    decreases s.len(),
{
    if s.len() > 1 {
        let front = s.drop_last();
        if s[s.len() - 2] == s.last() {
            lemma_dedup_neighbours_differ(front, i);
        } else {
            lemma_dedup_last(front);
            if i + 1 < dedup(front).len() {
                lemma_dedup_neighbours_differ(front, i);
            }
        }
    }
}

/// What testing `w`, water geometry `i`, against the first `k` constituents
/// of target `j` appends: `w` once for each one that it intersects.
pub open spec fn appended_for_target(
    w: GeometryView,
    table: Seq<Seq<Seq<bool>>>,
    i: int,
    j: int,
    k: nat,
) -> Seq<GeometryView>
    decreases k,
{
    if k == 0 {
        Seq::empty()
    } else {
        let before = appended_for_target(w, table, i, j, (k - 1) as nat);
        if hit(table, i, j, k - 1) {
            before.push(w)
        } else {
            before
        }
    }
}

/// What testing `w`, water geometry `i`, against the first `j` targets
/// appends.
pub open spec fn appended_for_water(
    w: GeometryView,
    targets: Seq<GeometryView>,
    table: Seq<Seq<Seq<bool>>>,
    i: int,
    j: nat,
) -> Seq<GeometryView>
    decreases j,
{
    if j == 0 || j > targets.len() {
        Seq::empty()
    } else {
        appended_for_water(w, targets, table, i, (j - 1) as nat) + appended_for_target(
            w,
            table,
            i,
            j - 1,
            constituents(targets[j - 1]).len(),
        )
    }
}

/// What testing the first `i` water geometries against every target
/// appends, before any duplicate is dropped.
pub open spec fn appended(
    water: Seq<GeometryView>,
    targets: Seq<GeometryView>,
    table: Seq<Seq<Seq<bool>>>,
    i: nat,
) -> Seq<GeometryView>
    decreases i,
{
    if i == 0 || i > water.len() {
        Seq::empty()
    } else {
        appended(water, targets, table, (i - 1) as nat) + appended_for_water(
            water[i - 1],
            targets,
            table,
            i - 1,
            targets.len(),
        )
    }
}

proof fn lemma_appended_for_target_members(
    w: GeometryView,
    table: Seq<Seq<Seq<bool>>>,
    i: int,
    j: int,
    k: nat,
    x: GeometryView,
)
    ensures
        appended_for_target(w, table, i, j, k).contains(x) <==> x == w && hits_target(
            table,
            i,
            j,
            k as int,
        ),
    decreases k,
{
    broadcast use vstd::seq_lib::lemma_seq_contains_after_push;

    if k > 0 {
        lemma_appended_for_target_members(w, table, i, j, (k - 1) as nat, x);
        if hits_target(table, i, j, k as int) {
            let kk = choose|kk: int| 0 <= kk < k && #[trigger] hit(table, i, j, kk);
            if kk < k - 1 {
                assert(hits_target(table, i, j, k - 1));
            }
        }
        if hits_target(table, i, j, k - 1) {
            let kk = choose|kk: int| 0 <= kk < k - 1 && #[trigger] hit(table, i, j, kk);
            assert(0 <= kk < k && hit(table, i, j, kk));
        }
        if hit(table, i, j, k - 1) {
            assert(hits_target(table, i, j, k as int));
        }
    }
}

proof fn lemma_appended_for_water_members(
    w: GeometryView,
    targets: Seq<GeometryView>,
    table: Seq<Seq<Seq<bool>>>,
    i: int,
    j: nat,
    x: GeometryView,
)
    requires
        j <= targets.len(),
    ensures
        appended_for_water(w, targets, table, i, j).contains(x) <==> x == w && hits_a_target(
            targets,
            table,
            i,
            j as int,
        ),
    decreases j,
{
    broadcast use vstd::seq_lib::lemma_seq_concat_contains_all_elements;

    if j > 0 {
        let width = constituents(targets[j - 1]).len();
        lemma_appended_for_water_members(w, targets, table, i, (j - 1) as nat, x);
        lemma_appended_for_target_members(w, table, i, j - 1, width, x);
        if hits_a_target(targets, table, i, j as int) {
            let jj = choose|jj: int|
                0 <= jj < j && jj < targets.len() && #[trigger] hits_target(
                    table,
                    i,
                    jj,
                    constituents(targets[jj]).len() as int,
                );
            if jj < j - 1 {
                assert(hits_a_target(targets, table, i, j - 1));
            }
        }
        if hits_a_target(targets, table, i, j - 1) {
            let jj = choose|jj: int|
                0 <= jj < j - 1 && jj < targets.len() && #[trigger] hits_target(
                    table,
                    i,
                    jj,
                    constituents(targets[jj]).len() as int,
                );
            assert(0 <= jj < j && hits_target(table, i, jj, constituents(targets[jj]).len() as int));
        }
        if hits_target(table, i, j - 1, width as int) {
            assert(hits_a_target(targets, table, i, j as int));
        }
    }
}

/// What is appended for one water geometry is that geometry, over and over.
proof fn lemma_appended_for_water_repeats(
    w: GeometryView,
    targets: Seq<GeometryView>,
    table: Seq<Seq<Seq<bool>>>,
    i: int,
)
    ensures
        ({
            let run = appended_for_water(w, targets, table, i, targets.len());
            &&& forall|n: int| 0 <= n < run.len() ==> run[n] == w
            &&& run.len() > 0 <==> hits_a_target(targets, table, i, targets.len() as int)
        }),
{
    let run = appended_for_water(w, targets, table, i, targets.len());
    assert forall|n: int| 0 <= n < run.len() implies run[n] == w by {
        lemma_appended_for_water_members(w, targets, table, i, targets.len(), run[n]);
        assert(run.contains(run[n]));
    }
    lemma_appended_for_water_members(w, targets, table, i, targets.len(), w);
    if run.len() > 0 {
        assert(run[0] == w);
        assert(run.contains(w));
    }
}

/// Behind a sequence, a run of one item repeated collapses to the item once.
proof fn lemma_dedup_run<T>(s: Seq<T>, run: Seq<T>, x: T)
    requires
        run.len() > 0,
        forall|n: int| 0 <= n < run.len() ==> run[n] == x,
    ensures
        dedup(s + run) == dedup(s.push(x)),
    decreases run.len(),
{
    let front = run.drop_last();
    assert(run.last() == x);
    assert(s + run =~= (s + front).push(x));
    lemma_dedup_push(s + front, x);
    if front.len() == 0 {
        assert(s + front =~= s);
    } else {
        assert((s + front).last() == front[front.len() - 1]);
        assert(front[front.len() - 1] == run[front.len() - 1]);
        lemma_dedup_run(s, front, x);
        lemma_dedup_push(s, x);
    }
}

/// Appending a water geometry once for every constituent that it
/// intersects and then collapsing equal neighbours gives the same as taking
/// each water geometry that intersects a target once and collapsing then.
pub proof fn lemma_appending_then_collapsing(
    water: Seq<GeometryView>,
    targets: Seq<GeometryView>,
    table: Seq<Seq<Seq<bool>>>,
    i: nat,
)
    requires
        i <= water.len(),
    ensures
        dedup(appended(water, targets, table, i)) == dedup(matching(water, targets, table, i)),
    decreases i,
{
    if i > 0 {
        let w = water[i - 1];
        let before = appended(water, targets, table, (i - 1) as nat);
        let kept = matching(water, targets, table, (i - 1) as nat);
        let run = appended_for_water(w, targets, table, i - 1, targets.len());
        lemma_appending_then_collapsing(water, targets, table, (i - 1) as nat);
        lemma_appended_for_water_repeats(w, targets, table, i - 1);
        if run.len() > 0 {
            lemma_dedup_run(before, run, w);
            lemma_dedup_push(before, w);
            lemma_dedup_push(kept, w);
            if before.len() > 0 {
                lemma_dedup_last(before);
            }
            if kept.len() > 0 {
                lemma_dedup_last(kept);
            }
        } else {
            assert(before + run =~= before);
        }
    }
}

proof fn lemma_matching_members(
    water: Seq<GeometryView>,
    targets: Seq<GeometryView>,
    table: Seq<Seq<Seq<bool>>>,
    i: nat,
    x: GeometryView,
)
    requires
        i <= water.len(),
    ensures
        matching(water, targets, table, i).contains(x) <==> intersects_a_target(
            water,
            targets,
            table,
            x,
            i as int,
        ),
    decreases i,
{
    broadcast use vstd::seq_lib::lemma_seq_contains_after_push;

    if i > 0 {
        lemma_matching_members(water, targets, table, (i - 1) as nat, x);
        if intersects_a_target(water, targets, table, x, i as int) {
            let ii = choose|ii: int|
                0 <= ii < i && ii < water.len() && water[ii] == x && #[trigger] hits_a_target(
                    targets,
                    table,
                    ii,
                    targets.len() as int,
                );
            if ii < i - 1 {
                assert(intersects_a_target(water, targets, table, x, i - 1));
            }
        }
        if intersects_a_target(water, targets, table, x, i - 1) {
            let ii = choose|ii: int|
                0 <= ii < i - 1 && ii < water.len() && water[ii] == x && #[trigger] hits_a_target(
                    targets,
                    table,
                    ii,
                    targets.len() as int,
                );
            assert(0 <= ii < i && hits_a_target(targets, table, ii, targets.len() as int));
        }
        if water[i - 1] == x && hits_a_target(targets, table, i - 1, targets.len() as int) {
            assert(intersects_a_target(water, targets, table, x, i as int));
        }
    }
}

/// A water geometry stands in the result exactly when it intersects a
/// target: a polygon target itself, a multi-polygon target in at least one of
/// its members.
pub proof fn lemma_found_iff_intersecting(
    water: Seq<GeometryView>,
    targets: Seq<GeometryView>,
    table: Seq<Seq<Seq<bool>>>,
    w: GeometryView,
)
    ensures
        intersecting(water, targets, table).contains(w) <==> intersects_a_target(
            water,
            targets,
            table,
            w,
            water.len() as int,
        ),
{
    lemma_dedup_keeps_members(matching(water, targets, table, water.len()), w);
    lemma_matching_members(water, targets, table, water.len(), w);
}

/// In the result no two neighbours are equal.
pub proof fn lemma_found_neighbours_differ(
    water: Seq<GeometryView>,
    targets: Seq<GeometryView>,
    table: Seq<Seq<Seq<bool>>>,
    n: int,
)
    requires
        0 <= n,
        n + 1 < intersecting(water, targets, table).len(),
    ensures
        intersecting(water, targets, table)[n] != intersecting(water, targets, table)[n + 1],
{
    lemma_dedup_neighbours_differ(matching(water, targets, table, water.len()), n);
}

/// The polygons through which `target` is to be tested, in the order of
/// their outcomes in the table.
pub fn target_polygons(target: &Geometry) -> (r: Vec<Polygon>)
    ensures
        views(r@) == constituents(target@),
{
    match target {
        Geometry::Polygon(p) => {
            let mut only: Vec<Polygon> = Vec::new();
            only.push(p.clone());
            assert(views(only@) =~= seq![p@]);
            only
        },
        Geometry::MultiPolygon(ps) => {
            let members = ps.clone();
            assert(views(members@) =~= views(ps@));
            members
        },
        _ => {
            let none: Vec<Polygon> = Vec::new();
            assert(views(none@) =~= Seq::<PolygonView>::empty());
            none
        },
    }
}

/// How many constituents `target` has.
fn constituent_count(target: &Geometry) -> (n: usize)
    ensures
        n == constituents(target@).len(),
{
    match target {
        Geometry::Polygon(_) => 1,
        Geometry::MultiPolygon(ps) => ps.len(),
        _ => 0,
    }
}

/// Looks one outcome up in the table.
fn outcome(hits: &Vec<Vec<Vec<bool>>>, i: usize, j: usize, k: usize) -> (r: bool)
    ensures
        r == hit(hits.deep_view(), i as int, j as int, k as int),
{
    i < hits.len() && j < hits[i].len() && k < hits[i][j].len() && hits[i][j][k]
}

/// Constituent `k` of `target`, as the value that a test is handed.
pub open spec fn constituent(target: Geometry, k: int) -> Polygon {
    match target {
        Geometry::Polygon(p) => p,
        Geometry::MultiPolygon(ps) => ps@[k],
        _ => arbitrary(),
    }
}

/// Whether `table` has one outcome for every water geometry, target and
/// constituent, and no other.
pub open spec fn fits(table: Seq<Seq<Seq<bool>>>, water: nat, targets: Seq<GeometryView>) -> bool {
    &&& table.len() == water
    &&& forall|i: int| 0 <= i < water ==> (#[trigger] table[i]).len() == targets.len()
    &&& forall|i: int, j: int|
        0 <= i < water && 0 <= j < targets.len() ==> (#[trigger] table[i][j]).len() == constituents(
            targets[j],
        ).len()
}

/// The outcomes of testing `water` against one target.
fn test_target<F: Fn(&Geometry, &Polygon) -> bool>(
    water: &Geometry,
    target: &Geometry,
    intersects: &F,
) -> (cell: Vec<bool>)
    requires
        forall|w: &Geometry, p: &Polygon| call_requires(intersects, (w, p)),
    ensures
        cell@.len() == constituents(target@).len(),
        forall|k: int|
            0 <= k < cell@.len() ==> call_ensures(
                intersects,
                (water, &constituent(*target, k)),
                #[trigger] cell@[k],
            ),
{
    let mut cell: Vec<bool> = Vec::new();
    match target {
        Geometry::Polygon(p) => {
            cell.push(intersects(water, p));
        },
        Geometry::MultiPolygon(ps) => {
            let mut k: usize = 0;
            while k < ps.len()
                invariant
                    k <= ps.len(),
                    cell@.len() == k,
                    *target == Geometry::MultiPolygon(*ps),
                    forall|w: &Geometry, p: &Polygon| call_requires(intersects, (w, p)),
                    forall|n: int|
                        0 <= n < k ==> call_ensures(
                            intersects,
                            (water, &constituent(*target, n)),
                            #[trigger] cell@[n],
                        ),
                decreases ps.len() - k,
            {
                cell.push(intersects(water, &ps[k]));
                k += 1;
            }
        },
        _ => {},
    }
    cell
}

/// Tests every water geometry against every constituent of every target
/// with `intersects`, and returns the table of the outcomes.
pub fn hit_table<F: Fn(&Geometry, &Polygon) -> bool>(
    water_geoms: &GeometryCollection,
    target_geoms: &GeometryCollection,
    intersects: F,
) -> (hits: Vec<Vec<Vec<bool>>>)
    requires
        forall|w: &Geometry, p: &Polygon| call_requires(intersects, (w, p)),
    ensures
        fits(hits.deep_view(), water_geoms@.len(), target_geoms@),
        forall|i: int, j: int, k: int|
            0 <= i < hits@.len() && 0 <= j < hits@[i]@.len() && 0 <= k < hits@[i]@[j]@.len()
                ==> call_ensures(
                intersects,
                (&water_geoms.0@[i], &constituent(target_geoms.0@[j], k)),
                #[trigger] hits@[i]@[j]@[k],
            ),
{
    let mut hits: Vec<Vec<Vec<bool>>> = Vec::new();
    let mut i: usize = 0;
    while i < water_geoms.0.len()
        invariant
            i <= water_geoms.0.len(),
            hits@.len() == i,
            forall|w: &Geometry, p: &Polygon| call_requires(intersects, (w, p)),
            forall|a: int| 0 <= a < i ==> (#[trigger] hits@[a])@.len() == target_geoms.0@.len(),
            forall|a: int, b: int|
                0 <= a < i && 0 <= b < target_geoms.0@.len() ==> (#[trigger] hits@[a]@[b])@.len()
                    == constituents(target_geoms.0@[b]@).len(),
            forall|a: int, b: int, c: int|
                0 <= a < i && 0 <= b < hits@[a]@.len() && 0 <= c < hits@[a]@[b]@.len()
                    ==> call_ensures(
                    intersects,
                    (&water_geoms.0@[a], &constituent(target_geoms.0@[b], c)),
                    #[trigger] hits@[a]@[b]@[c],
                ),
        decreases water_geoms.0.len() - i,
    {
        let mut row: Vec<Vec<bool>> = Vec::new();
        let mut j: usize = 0;
        while j < target_geoms.0.len()
            invariant
                i < water_geoms.0.len(),
                j <= target_geoms.0.len(),
                row@.len() == j,
                forall|w: &Geometry, p: &Polygon| call_requires(intersects, (w, p)),
                forall|b: int|
                    0 <= b < j ==> (#[trigger] row@[b])@.len() == constituents(
                        target_geoms.0@[b]@,
                    ).len(),
                forall|b: int, c: int|
                    0 <= b < j && 0 <= c < row@[b]@.len() ==> call_ensures(
                        intersects,
                        (&water_geoms.0@[i as int], &constituent(target_geoms.0@[b], c)),
                        #[trigger] row@[b]@[c],
                    ),
            decreases target_geoms.0.len() - j,
        {
            let cell = test_target(&water_geoms.0[i], &target_geoms.0[j], &intersects);
            row.push(cell);
            j += 1;
        }
        hits.push(row);
        i += 1;
    }
    proof {
        let table = hits.deep_view();
        assert forall|a: int| 0 <= a < table.len() implies (#[trigger] table[a]).len()
            == target_geoms@.len() by {
            assert(table[a] == hits@[a].deep_view());
        }
        assert forall|a: int, b: int| 0 <= a < table.len() && 0 <= b < target_geoms@.len() implies (
        #[trigger] table[a][b]).len() == constituents(target_geoms@[b]).len() by {
            assert(table[a] == hits@[a].deep_view());
            assert(table[a][b] == hits@[a]@[b].deep_view());
        }
    }
    hits
}

/// Collapses every run of equal neighbours to its first geometry.
pub fn dedup_adjacent(geometries: Vec<Geometry>) -> (r: Vec<Geometry>)
    ensures
        views(r@) == dedup(views(geometries@)),
{
    let ghost all = views(geometries@);
    let mut kept: Vec<Geometry> = Vec::new();
    for geometry in it: geometries
        invariant
            all.len() == it.seq().len(),
            forall|n: int| 0 <= n < all.len() ==> all[n] == (#[trigger] it.seq()[n])@,
            views(kept@) == dedup(all.take(it.index() as int)),
    {
        let ghost n = it.index() as int;
        let ghost seen = all.take(n);
        proof {
            assert(geometry == it.seq()[n]);
            assert(all.take(n + 1) =~= seen.push(geometry@));
            lemma_dedup_push(seen, geometry@);
            if n > 0 {
                lemma_dedup_last(seen);
            }
        }
        let repeats = kept.len() > 0 && kept[kept.len() - 1] == geometry;
        if !repeats {
            let ghost before = views(kept@);
            kept.push(geometry);
            assert(views(kept@) =~= before.push(all[n]));
        }
    }
    assert(all.take(all.len() as int) =~= all);
    kept
}

/// The water geometries that intersect a target, in the order of
/// `water_geoms`, as `hits` tells it.
///
/// Every water geometry is tested against every constituent of every target
/// and appended once for each constituent that it intersects; then equal
/// neighbours are collapsed. The result is always present, and empty where
/// nothing intersects. The same geometry can still stand in it twice, where
/// another one was appended in between.
pub fn geom_intersects(
    water_geoms: GeometryCollection,
    target_geoms: GeometryCollection,
    hits: Vec<Vec<Vec<bool>>>,
) -> (r: Option<GeometryCollection>)
    ensures
        r matches Some(found) && found@ == intersecting(
            water_geoms@,
            target_geoms@,
            hits.deep_view(),
        ),
{
    let ghost water = water_geoms@;
    let ghost targets = target_geoms@;
    let ghost table = hits.deep_view();
    let mut result: Vec<Geometry> = Vec::new();
    let mut i: usize = 0;
    while i < water_geoms.0.len()
        invariant
            i <= water_geoms.0.len(),
            water == water_geoms@,
            targets == target_geoms@,
            table == hits.deep_view(),
            views(result@) == appended(water, targets, table, i as nat),
        decreases water_geoms.0.len() - i,
    {
        let ghost done = views(result@);
        let mut j: usize = 0;
        while j < target_geoms.0.len()
            invariant
                i < water_geoms.0.len(),
                j <= target_geoms.0.len(),
                water == water_geoms@,
                targets == target_geoms@,
                table == hits.deep_view(),
                views(result@) == done + appended_for_water(
                    water[i as int],
                    targets,
                    table,
                    i as int,
                    j as nat,
                ),
            decreases target_geoms.0.len() - j,
        {
            let ghost done_here = appended_for_water(
                water[i as int],
                targets,
                table,
                i as int,
                j as nat,
            );
            let width = constituent_count(&target_geoms.0[j]);
            let mut k: usize = 0;
            while k < width
                invariant
                    i < water_geoms.0.len(),
                    j < target_geoms.0.len(),
                    k <= width,
                    water == water_geoms@,
                    table == hits.deep_view(),
                    views(result@) == done + done_here + appended_for_target(
                        water[i as int],
                        table,
                        i as int,
                        j as int,
                        k as nat,
                    ),
                decreases width - k,
            {
                if outcome(&hits, i, j, k) {
                    let ghost before = views(result@);
                    result.push(water_geoms.0[i].clone());
                    assert(views(result@) =~= before.push(water[i as int]));
                }
                k += 1;
            }
            j += 1;
        }
        i += 1;
    }
    proof {
        lemma_appending_then_collapsing(water, targets, table, water.len());
    }
    Some(GeometryCollection(dedup_adjacent(result)))
}

} // verus!
