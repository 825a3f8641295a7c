//! Turning the manifolds that the geometry backend reports into a contact
//! record: the manifolds are kept as they are, and their points are matched
//! against last frame's record to carry its impulses forward.
use crate::contacts::{
    manifolds_wf, models, ContactManifold, ContactPoint, Contacts, ManifoldModel, MAX_IMPULSE,
};
use crate::math::Vector;
use vstd::prelude::*;

verus! {

/// Warm-start matching is skipped for more manifolds than this.
pub const MAX_MATCHED_MANIFOLDS: usize = 4;

pub open spec fn dist2(a: Vector, b: Vector) -> int {
    (a.x - b.x) * (a.x - b.x) + (a.y - b.y) * (a.y - b.y) + (a.z - b.z) * (a.z - b.z)
}

/// `q`, a point of last frame, is the same contact as `p`: they lie on the
/// same pair of features (in either order), or both anchors are closer than
/// `threshold` to the old ones.
pub open spec fn points_match(p: ContactPoint, q: ContactPoint, threshold: int) -> bool {
    ||| (p.feature_id1 == q.feature_id1 && p.feature_id2 == q.feature_id2)
    ||| (p.feature_id1 == q.feature_id2 && p.feature_id2 == q.feature_id1)
    ||| (dist2(p.anchor1, q.anchor1) < threshold * threshold && dist2(p.anchor2, q.anchor2)
        < threshold * threshold)
}

/// The first of `qs` that matches `p`.
pub open spec fn first_match(p: ContactPoint, qs: Seq<ContactPoint>, threshold: int) -> Option<
    ContactPoint,
>
    decreases qs.len(),
{
    if qs.len() == 0 {
        None
    } else if points_match(p, qs[0], threshold) {
        Some(qs[0])
    } else {
        first_match(p, qs.drop_first(), threshold)
    }
}

/// The match of `p` among the manifolds `ms`: each manifold that holds a
/// match overrides the ones before it, so the last such manifold decides,
/// with its first matching point.
pub open spec fn match_in(p: ContactPoint, ms: Seq<ManifoldModel>, threshold: int) -> Option<
    ContactPoint,
>
    decreases ms.len(),
{
    if ms.len() == 0 {
        None
    } else {
        match first_match(p, ms.last().points, threshold) {
            Some(q) => Some(q),
            None => match_in(p, ms.drop_last(), threshold),
        }
    }
}

/// `p` with the impulses of its match in `previous`, or with none.
pub open spec fn warm_started(p: ContactPoint, previous: Option<Seq<ManifoldModel>>, threshold: int) -> ContactPoint {
    match previous {
        Some(pm) => match match_in(p, pm, threshold) {
            Some(q) => p.with_impulses(q.normal_impulse, q.tangent_impulse),
            None => p.with_impulses(0, 0),
        },
        None => p.with_impulses(0, 0),
    }
}

pub open spec fn warm_started_manifold(
    m: ManifoldModel,
    previous: Option<Seq<ManifoldModel>>,
    threshold: int,
) -> ManifoldModel {
    ManifoldModel {
        points: Seq::new(m.points.len(), |j: int| warm_started(m.points[j], previous, threshold)),
        normal: m.normal,
    }
}

pub open spec fn warm_started_manifolds(
    ms: Seq<ManifoldModel>,
    previous: Option<Seq<ManifoldModel>>,
    threshold: int,
) -> Seq<ManifoldModel> {
    Seq::new(ms.len(), |i: int| warm_started_manifold(ms[i], previous, threshold))
}

pub open spec fn impulse_of(p: ContactPoint, normal: bool) -> int {
    if normal {
        p.normal_impulse as int
    } else {
        p.tangent_impulse as int
    }
}

pub open spec fn sum_points(pts: Seq<ContactPoint>, normal: bool) -> int
    decreases pts.len(),
{
    if pts.len() == 0 {
        0
    } else {
        sum_points(pts.drop_last(), normal) + impulse_of(pts.last(), normal)
    }
}

/// The normal (or tangent) impulses of all points of `ms`, summed.
pub open spec fn total_impulse(ms: Seq<ManifoldModel>, normal: bool) -> int
    decreases ms.len(),
{
    if ms.len() == 0 {
        0
    } else {
        total_impulse(ms.drop_last(), normal) + sum_points(ms.last().points, normal)
    }
}

pub open spec fn deref_contacts(c: Option<&Contacts>) -> Option<Contacts> {
    match c {
        Some(c) => Some(*c),
        None => None,
    }
}

/// The manifolds of last frame that this frame's are matched against: those
/// of the earlier record, where matching is asked for, there is an earlier
/// record, and the backend reported at most four manifolds.
pub open spec fn matched_against(previous: Option<Contacts>, count: int, match_contacts: bool) -> Option<
    Seq<ManifoldModel>,
> {
    if match_contacts && count <= MAX_MATCHED_MANIFOLDS {
        match previous {
            Some(c) => Some(models(c.manifolds@)),
            None => None,
        }
    } else {
        None
    }
}

/// The manifolds that a record built from the backend's `manifolds` holds:
/// the same manifolds and points, with warm-started impulses.
pub open spec fn built_manifolds(
    manifolds: Seq<ManifoldModel>,
    previous: Option<Contacts>,
    match_contacts: bool,
    threshold: int,
) -> Seq<ManifoldModel> {
    warm_started_manifolds(
        manifolds,
        matched_against(previous, manifolds.len() as int, match_contacts),
        threshold,
    )
}

/// `r` is the record built for the colliders `entity1` and `entity2` from the
/// backend's `manifolds`.
pub open spec fn is_built_contacts(
    r: Contacts,
    entity1: u64,
    entity2: u64,
    body_entity1: Option<u64>,
    body_entity2: Option<u64>,
    is_sensor: bool,
    manifolds: Seq<ManifoldModel>,
    previous: Option<Contacts>,
    match_contacts: bool,
    threshold: int,
) -> bool {
    let ms = built_manifolds(manifolds, previous, match_contacts, threshold);
    &&& manifolds.len() > 0
    &&& r.entity1 == entity1
    &&& r.entity2 == entity2
    &&& r.body_entity1 == body_entity1
    &&& r.body_entity2 == body_entity2
    &&& models(r.manifolds@) == ms
    &&& r.during_current_frame
    &&& r.during_previous_frame == (previous is Some && previous.unwrap().during_previous_frame)
    &&& r.is_sensor == is_sensor
    &&& r.total_normal_impulse == total_impulse(ms, true)
    &&& r.total_tangent_impulse == total_impulse(ms, false)
    &&& r.wf()
}

/// Whether `a` and `b` are closer than `threshold`.
fn closer_than(a: &Vector, b: &Vector, threshold: u64) -> (r: bool)
    requires
        threshold < 0x2000_0000_0000_0000,
    ensures
        r == (dist2(*a, *b) < threshold * threshold),
{
    let t = threshold as i128;
    let dx = a.x as i128 - b.x as i128;
    let dy = a.y as i128 - b.y as i128;
    let dz = a.z as i128 - b.z as i128;
    proof {
        assert(dist2(*a, *b) == dx * dx + dy * dy + dz * dz);
    }
    if dx >= t || dx <= -t || dy >= t || dy <= -t || dz >= t || dz <= -t {
        proof {
            assert(dist2(*a, *b) >= t * t) by (nonlinear_arith)
                requires
                    dist2(*a, *b) == dx * dx + dy * dy + dz * dz,
                    t >= 0,
                    dx >= t || dx <= -t || dy >= t || dy <= -t || dz >= t || dz <= -t,
            ;
        }
        return false;
    }
    proof {
        assert(dx * dx + dy * dy + dz * dz < 3 * 0x400_0000_0000_0000_0000_0000_0000_0000) by (nonlinear_arith)
            requires
                -t < dx < t,
                -t < dy < t,
                -t < dz < t,
                0 <= t < 0x2000_0000_0000_0000,
        ;
        assert(0 <= dx * dx < 0x400_0000_0000_0000_0000_0000_0000_0000) by (nonlinear_arith)
            requires -t < dx < t, 0 <= t < 0x2000_0000_0000_0000;
        assert(0 <= dy * dy < 0x400_0000_0000_0000_0000_0000_0000_0000) by (nonlinear_arith)
            requires -t < dy < t, 0 <= t < 0x2000_0000_0000_0000;
        assert(0 <= dz * dz < 0x400_0000_0000_0000_0000_0000_0000_0000) by (nonlinear_arith)
            requires -t < dz < t, 0 <= t < 0x2000_0000_0000_0000;
        assert(0 <= t * t < 0x400_0000_0000_0000_0000_0000_0000_0000) by (nonlinear_arith)
            requires
                0 <= t < 0x2000_0000_0000_0000,
        ;
    }
    let xx = dx * dx;
    let yy = dy * dy;
    let zz = dz * dz;
    xx + yy + zz < t * t
}

fn points_match_exec(p: &ContactPoint, q: &ContactPoint, threshold: u64) -> (r: bool)
    requires
        threshold < 0x2000_0000_0000_0000,
    ensures
        r == points_match(*p, *q, threshold as int),
{
    (p.feature_id1 == q.feature_id1 && p.feature_id2 == q.feature_id2) || (p.feature_id1
        == q.feature_id2 && p.feature_id2 == q.feature_id1) || (closer_than(
        &p.anchor1,
        &q.anchor1,
        threshold,
    ) && closer_than(&p.anchor2, &q.anchor2, threshold))
}

fn first_match_exec(p: &ContactPoint, pts: &Vec<ContactPoint>, threshold: u64) -> (r: Option<
    ContactPoint,
>)
    requires
        threshold < 0x2000_0000_0000_0000,
        forall|k: int| 0 <= k < pts@.len() ==> (#[trigger] pts@[k]).wf(),
    ensures
        r == first_match(*p, pts@, threshold as int),
        r is Some ==> r.unwrap().wf(),
{
    assert(pts@.subrange(0, pts@.len() as int) =~= pts@);
    let mut j: usize = 0;
    while j < pts.len()
        invariant
            j <= pts@.len(),
            threshold < 0x2000_0000_0000_0000,
            forall|k: int| 0 <= k < pts@.len() ==> (#[trigger] pts@[k]).wf(),
            first_match(*p, pts@, threshold as int) == first_match(
                *p,
                pts@.subrange(j as int, pts@.len() as int),
                threshold as int,
            ),
        decreases pts@.len() - j,
    {
        proof {
            assert(pts@.subrange(j as int, pts@.len() as int).drop_first() =~= pts@.subrange(
                j as int + 1,
                pts@.len() as int,
            ));
        }
        if points_match_exec(p, &pts[j], threshold) {
            proof {
                assert(pts@[j as int].wf());
            }
            return Some(pts[j]);
        }
        j += 1;
    }
    proof {
        assert(first_match(*p, pts@.subrange(pts@.len() as int, pts@.len() as int), threshold as int)
            == None::<ContactPoint>);
    }
    None
}

fn find_match(p: &ContactPoint, previous: &Vec<ContactManifold>, threshold: u64) -> (r: Option<
    ContactPoint,
>)
    requires
        threshold < 0x2000_0000_0000_0000,
        manifolds_wf(previous@),
    ensures
        r == match_in(*p, models(previous@), threshold as int),
        r is Some ==> r.unwrap().wf(),
{
    let ghost pm = models(previous@);
    let mut found: Option<ContactPoint> = None;
    let mut i: usize = 0;
    while i < previous.len()
        invariant
            i <= previous@.len(),
            pm == models(previous@),
            threshold < 0x2000_0000_0000_0000,
            manifolds_wf(previous@),
            found == match_in(*p, pm.take(i as int), threshold as int),
            found is Some ==> found.unwrap().wf(),
        decreases previous@.len() - i,
    {
        proof {
            assert(pm.take(i as int + 1).drop_last() =~= pm.take(i as int));
            assert(pm.take(i as int + 1).last() == previous@[i as int]@);
            assert(previous@[i as int].wf());
        }
        match first_match_exec(p, &previous[i].points, threshold) {
            Some(q) => {
                found = Some(q);
            },
            None => {},
        }
        i += 1;
    }
    proof {
        assert(pm.take(pm.len() as int) =~= pm);
    }
    found
}

fn warm_start_manifold(m: &ContactManifold, previous: Option<&Vec<ContactManifold>>, threshold: u64) -> (r: ContactManifold)
    requires
        threshold < 0x2000_0000_0000_0000,
        previous is Some ==> manifolds_wf(previous.unwrap()@),
    ensures
        r.wf(),
        r@ == warm_started_manifold(
            m@,
            match previous {
                Some(v) => Some(models(v@)),
                None => None,
            },
            threshold as int,
        ),
{
    let ghost pm = match previous {
        Some(v) => Some(models(v@)),
        None => None,
    };
    let mut out: Vec<ContactPoint> = Vec::new();
    let mut j: usize = 0;
    while j < m.points.len()
        invariant
            j <= m.points@.len(),
            threshold < 0x2000_0000_0000_0000,
            previous is Some ==> manifolds_wf(previous.unwrap()@),
            out@.len() == j,
            forall|k: int| 0 <= k < j ==> (#[trigger] out@[k]).wf(),
            pm == match previous {
                Some(v) => Some(models(v@)),
                None => None::<Seq<ManifoldModel>>,
            },
            forall|k: int| 0 <= k < j ==> out@[k] == warm_started(m.points@[k], pm, threshold as int),
        decreases m.points@.len() - j,
    {
        let p = m.points[j];
        let found = match previous {
            Some(v) => find_match(&p, v, threshold),
            None => None,
        };
        let q = match found {
            Some(q) => ContactPoint {
                normal_impulse: q.normal_impulse,
                tangent_impulse: q.tangent_impulse,
                ..p
            },
            None => ContactPoint { normal_impulse: 0, tangent_impulse: 0, ..p },
        };
        out.push(q);
        j += 1;
    }
    let r = ContactManifold { points: out, normal: m.normal };
    proof {
        assert(r@.points =~= warm_started_manifold(m@, pm, threshold as int).points);
    }
    r
}

fn warm_start_manifolds(ms: &Vec<ContactManifold>, previous: Option<&Vec<ContactManifold>>, threshold: u64) -> (r: Vec<ContactManifold>)
    requires
        threshold < 0x2000_0000_0000_0000,
        previous is Some ==> manifolds_wf(previous.unwrap()@),
    ensures
        manifolds_wf(r@),
        models(r@) == warm_started_manifolds(
            models(ms@),
            match previous {
                Some(v) => Some(models(v@)),
                None => None,
            },
            threshold as int,
        ),
{
    let ghost pm = match previous {
        Some(v) => Some(models(v@)),
        None => None,
    };
    let mut out: Vec<ContactManifold> = Vec::new();
    let mut i: usize = 0;
    while i < ms.len()
        invariant
            i <= ms@.len(),
            threshold < 0x2000_0000_0000_0000,
            previous is Some ==> manifolds_wf(previous.unwrap()@),
            out@.len() == i,
            forall|k: int| 0 <= k < i ==> (#[trigger] out@[k]).wf(),
            pm == match previous {
                Some(v) => Some(models(v@)),
                None => None::<Seq<ManifoldModel>>,
            },
            forall|k: int| 0 <= k < i ==> (#[trigger] out@[k])@ == warm_started_manifold(ms@[k]@, pm, threshold as int),
        decreases ms@.len() - i,
    {
        let m = warm_start_manifold(&ms[i], previous, threshold);
        out.push(m);
        i += 1;
    }
    proof {
        assert(models(out@) =~= warm_started_manifolds(models(ms@), pm, threshold as int));
    }
    out
}

proof fn lemma_sum_points_zero(pts: Seq<ContactPoint>, normal: bool)
    requires
        forall|k: int| 0 <= k < pts.len() ==> impulse_of(#[trigger] pts[k], normal) == 0,
    ensures
        sum_points(pts, normal) == 0,
    decreases pts.len(),
{
    if pts.len() > 0 {
        lemma_sum_points_zero(pts.drop_last(), normal);
    }
}

/// Without anything to match against, every impulse starts from zero, and so
/// do the totals.
proof fn lemma_cold_totals_zero(ms: Seq<ManifoldModel>, threshold: int, normal: bool)
    ensures
        total_impulse(warm_started_manifolds(ms, None, threshold), normal) == 0,
    decreases ms.len(),
{
    let w = warm_started_manifolds(ms, None, threshold);
    if ms.len() > 0 {
        lemma_cold_totals_zero(ms.drop_last(), threshold, normal);
        assert(w.drop_last() =~= warm_started_manifolds(ms.drop_last(), None, threshold));
        lemma_sum_points_zero(w.last().points, normal);
    }
}

fn sum_point_impulses(pts: &Vec<ContactPoint>, normal: bool) -> (r: i128)
    requires
        forall|k: int| 0 <= k < pts@.len() ==> (#[trigger] pts@[k]).wf(),
    ensures
        r == sum_points(pts@, normal),
        -(pts@.len() as int) * MAX_IMPULSE <= r <= (pts@.len() as int) * MAX_IMPULSE,
{
    let mut sum: i128 = 0;
    let mut j: usize = 0;
    while j < pts.len()
        invariant
            j <= pts@.len(),
            forall|k: int| 0 <= k < pts@.len() ==> (#[trigger] pts@[k]).wf(),
            sum == sum_points(pts@.take(j as int), normal),
            -(j as int) * MAX_IMPULSE <= sum <= (j as int) * MAX_IMPULSE,
        decreases pts@.len() - j,
    {
        proof {
            assert(pts@.take(j as int + 1).drop_last() =~= pts@.take(j as int));
            assert(pts@[j as int].wf());
        }
        let value = if normal {
            pts[j].normal_impulse
        } else {
            pts[j].tangent_impulse
        };
        sum = sum + value as i128;
        j += 1;
    }
    proof {
        assert(pts@.take(pts@.len() as int) =~= pts@);
    }
    sum
}

fn total_impulses(ms: &Vec<ContactManifold>, normal: bool) -> (r: i128)
    requires
        ms@.len() <= MAX_MATCHED_MANIFOLDS,
        manifolds_wf(ms@),
    ensures
        r == total_impulse(models(ms@), normal),
{
    let ghost mm = models(ms@);
    let mut total: i128 = 0;
    let mut i: usize = 0;
    while i < ms.len()
        invariant
            i <= ms@.len() <= MAX_MATCHED_MANIFOLDS,
            manifolds_wf(ms@),
            mm == models(ms@),
            total == total_impulse(mm.take(i as int), normal),
            -(i as int) * 0x1_0000_0000_0000_0000 * MAX_IMPULSE <= total <= (i as int) * 0x1_0000_0000_0000_0000 * MAX_IMPULSE,
        decreases ms@.len() - i,
    {
        proof {
            assert(mm.take(i as int + 1).drop_last() =~= mm.take(i as int));
            assert(ms@[i as int].wf());
        }
        let n = ms[i].points.len();
        let s = sum_point_impulses(&ms[i].points, normal);
        assert(-0x1_0000_0000_0000_0000 * MAX_IMPULSE <= s <= 0x1_0000_0000_0000_0000 * MAX_IMPULSE) by (nonlinear_arith)
            requires
                -(n as int) * MAX_IMPULSE <= s <= (n as int) * MAX_IMPULSE,
                0 <= n <= 0x1_0000_0000_0000_0000int,
                MAX_IMPULSE > 0,
        ;
        total = total + s;
        i += 1;
    }
    proof {
        assert(mm.take(mm.len() as int) =~= mm);
    }
    total
}

/// Builds the record of the colliders `entity1` and `entity2` from the
/// manifolds that the geometry backend reported for them: the same manifolds
/// and points, whose impulses are set as follows. With `match_contacts`, an
/// earlier record `previous` and at most four manifolds, each point takes the
/// impulses of its match in `previous` within `distance_threshold` (see
/// `match_in`); every other point starts from zero. There is no record where
/// the backend reported no manifold.
pub fn build_contacts(
    entity1: u64,
    entity2: u64,
    body_entity1: Option<u64>,
    body_entity2: Option<u64>,
    is_sensor: bool,
    manifolds: &Vec<ContactManifold>,
    previous: Option<&Contacts>,
    match_contacts: bool,
    distance_threshold: u64,
) -> (r: Option<Contacts>)
    requires
        distance_threshold < 0x2000_0000_0000_0000,
        previous is Some ==> previous.unwrap().wf(),
    ensures
        r is None <==> manifolds@.len() == 0,
        r is Some ==> is_built_contacts(
            r.unwrap(),
            entity1,
            entity2,
            body_entity1,
            body_entity2,
            is_sensor,
            models(manifolds@),
            deref_contacts(previous),
            match_contacts,
            distance_threshold as int,
        ),
{
    if manifolds.len() == 0 {
        return None;
    }
    let matching = match_contacts && manifolds.len() <= MAX_MATCHED_MANIFOLDS;
    let against: Option<&Vec<ContactManifold>> = if matching {
        match previous {
            Some(c) => Some(&c.manifolds),
            None => None,
        }
    } else {
        None
    };
    let ms = warm_start_manifolds(manifolds, against, distance_threshold);
    let (total_normal, total_tangent) = if ms.len() <= MAX_MATCHED_MANIFOLDS {
        (total_impulses(&ms, true), total_impulses(&ms, false))
    } else {
        proof {
            lemma_cold_totals_zero(models(manifolds@), distance_threshold as int, true);
            lemma_cold_totals_zero(models(manifolds@), distance_threshold as int, false);
        }
        (0, 0)
    };
    let during_previous_frame = match previous {
        Some(c) => c.during_previous_frame,
        None => false,
    };
    Some(
        Contacts {
            entity1,
            entity2,
            body_entity1,
            body_entity2,
            manifolds: ms,
            during_current_frame: true,
            during_previous_frame,
            is_sensor,
            total_normal_impulse: total_normal,
            total_tangent_impulse: total_tangent,
        },
    )
}

/// The impulses that point `j` of manifold `i` of a built record starts
/// from: with matching, an earlier record and a match within the threshold,
/// those of the matched point of last frame; otherwise zero. Without
/// matching they are always zero.
pub proof fn lemma_warm_start_impulses(
    manifolds: Seq<ManifoldModel>,
    previous: Option<Contacts>,
    match_contacts: bool,
    threshold: int,
    i: int,
    j: int,
)
    requires
        0 <= i < manifolds.len(),
        0 <= j < manifolds[i].points.len(),
    ensures
        ({
            let p = manifolds[i].points[j];
            let built = built_manifolds(manifolds, previous, match_contacts, threshold);
            let against = matched_against(previous, manifolds.len() as int, match_contacts);
            &&& built.len() == manifolds.len()
            &&& built[i].normal == manifolds[i].normal
            &&& built[i].points.len() == manifolds[i].points.len()
            &&& built[i].points[j] == p.with_impulses(
                built[i].points[j].normal_impulse,
                built[i].points[j].tangent_impulse,
            )
            &&& (against is Some && match_in(p, against.unwrap(), threshold) is Some) ==> (
            built[i].points[j].normal_impulse == match_in(
                p,
                against.unwrap(),
                threshold,
            ).unwrap().normal_impulse && built[i].points[j].tangent_impulse == match_in(
                p,
                against.unwrap(),
                threshold,
            ).unwrap().tangent_impulse)
            &&& !(against is Some && match_in(p, against.unwrap(), threshold) is Some) ==> (
            built[i].points[j].normal_impulse == 0 && built[i].points[j].tangent_impulse == 0)
            &&& (!match_contacts || manifolds.len() > MAX_MATCHED_MANIFOLDS)
                ==> built[i].points[j].normal_impulse == 0
                && built[i].points[j].tangent_impulse == 0
        }),
{
}

pub open spec fn negated(v: Vector) -> Vector {
    Vector { x: (-v.x) as i64, y: (-v.y) as i64, z: (-v.z) as i64 }
}

/// The point as seen with the two colliders swapped: the anchors and
/// features change places and the normal turns round.
pub open spec fn swapped_point(p: ContactPoint) -> ContactPoint {
    ContactPoint {
        anchor1: p.anchor2,
        anchor2: p.anchor1,
        normal: negated(p.normal),
        feature_id1: p.feature_id2,
        feature_id2: p.feature_id1,
        ..p
    }
}

/// The manifolds as a symmetric backend reports them with the colliders swapped.
pub open spec fn swapped_manifolds(ms: Seq<ManifoldModel>) -> Seq<ManifoldModel> {
    Seq::new(
        ms.len(),
        |i: int|
            ManifoldModel {
                points: Seq::new(ms[i].points.len(), |j: int| swapped_point(ms[i].points[j])),
                normal: negated(ms[i].normal),
            },
    )
}

/// Building the record of `(a, b)` from `ms` and that of `(b, a)` from the
/// swapped manifolds gives the same manifolds and points, with anchors and
/// features swapped and normals negated, the same separations, and the same
/// flags; only the carried-over impulses may differ.
pub proof fn lemma_built_contacts_symmetric(
    r1: Contacts,
    r2: Contacts,
    entity1: u64,
    entity2: u64,
    body_entity1: Option<u64>,
    body_entity2: Option<u64>,
    is_sensor: bool,
    ms: Seq<ManifoldModel>,
    previous: Option<Contacts>,
    match_contacts: bool,
    threshold: int,
)
    requires
        is_built_contacts(
            r1,
            entity1,
            entity2,
            body_entity1,
            body_entity2,
            is_sensor,
            ms,
            previous,
            match_contacts,
            threshold,
        ),
        is_built_contacts(
            r2,
            entity2,
            entity1,
            body_entity2,
            body_entity1,
            is_sensor,
            swapped_manifolds(ms),
            previous,
            match_contacts,
            threshold,
        ),
    ensures
        ({
            let m1 = models(r1.manifolds@);
            let m2 = models(r2.manifolds@);
            &&& m1.len() == m2.len()
            &&& forall|i: int|
                0 <= i < m1.len() ==> {
                    &&& (#[trigger] m2[i]).normal == negated(m1[i].normal)
                    &&& m2[i].points.len() == m1[i].points.len()
                    &&& forall|j: int|
                        0 <= j < m1[i].points.len() ==> {
                            &&& (#[trigger] m2[i].points[j]).with_impulses(0, 0)
                                == swapped_point(m1[i].points[j]).with_impulses(0, 0)
                            &&& m2[i].points[j].separation == m1[i].points[j].separation
                            &&& m2[i].points[j].anchor1 == m1[i].points[j].anchor2
                            &&& m2[i].points[j].anchor2 == m1[i].points[j].anchor1
                            &&& m2[i].points[j].normal == negated(m1[i].points[j].normal)
                        }
                }
            &&& r1.is_sensor == r2.is_sensor
            &&& r1.during_previous_frame == r2.during_previous_frame
            &&& r1.during_current_frame && r2.during_current_frame
        }),
{
}

} // verus!
