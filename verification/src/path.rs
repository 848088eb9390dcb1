//! Paths as verb and point sequences: the builder, the stored path, and a
//! cursor that walks a path in both directions.
//!
//! Path syntax:
//!
//! ```text
//! Path    ::= SubPath*
//! SubPath ::= (BeginOpen | BeginClosed) Curve* (EndOpen | EndClosed)
//! Curve   ::= Line | Quad | Cubic
//! ```
//!
//! A builder stores one point for a begin verb, one for a line, two for a
//! quadratic, three for a cubic and none for an end verb. The first point of
//! any curve is the last point of the verb before it. Begin and end of a
//! sub-path agree on whether it is closed, and a closed sub-path ends on its
//! start point (`closed_ends_meet`).
use vstd::prelude::*;
use crate::geometry::{Line, Quad, Cubic, line, quad, cubic};
use vstd::std_specs::cmp::PartialEqSpec;

verus! {

/// One step of a path.
#[derive(Debug, Clone, Copy, PartialEq, Eq, Structural)]
pub enum Verb {
    BeginOpen,
    BeginClosed,
    Line,
    Quad,
    Cubic,
    EndOpen,
    EndClosed,
}

/// Where a left-to-right scan of the verbs stands.
pub enum Nesting {
    /// Between sub-paths.
    Outside,
    /// Inside a sub-path that began open (`closed == false`) or closed.
    Inside { closed: bool },
}

/// Whether the verb is a curve (line, quadratic or cubic).
pub open spec fn is_curve(v: Verb) -> bool {
    v == Verb::Line || v == Verb::Quad || v == Verb::Cubic
}

/// The number of points a curve adds beyond the shared start point.
pub open spec fn curve_points(v: Verb) -> nat {
    match v {
        Verb::Line => 1,
        Verb::Quad => 2,
        Verb::Cubic => 3,
        _ => 0,
    }
}

/// The number of points stored for a verb.
pub open spec fn stored_points(v: Verb) -> nat {
    match v {
        Verb::BeginOpen | Verb::BeginClosed => 1,
        Verb::EndOpen | Verb::EndClosed => 0,
        _ => curve_points(v),
    }
}

/// The number of points a cursor moves over when it passes a verb: a begin
/// verb only looks at the current point, an end verb moves past it.
pub open spec fn stepped_points(v: Verb) -> nat {
    match v {
        Verb::BeginOpen | Verb::BeginClosed => 0,
        Verb::EndOpen | Verb::EndClosed => 1,
        _ => curve_points(v),
    }
}

/// The scan state after one more verb, or `None` where the syntax is broken.
pub open spec fn step(s: Nesting, v: Verb) -> Option<Nesting> {
    match s {
        Nesting::Outside => match v {
            Verb::BeginOpen => Some(Nesting::Inside { closed: false }),
            Verb::BeginClosed => Some(Nesting::Inside { closed: true }),
            _ => None,
        },
        Nesting::Inside { closed } => {
            if is_curve(v) {
                Some(s)
            } else if (v == Verb::EndOpen && !closed) || (v == Verb::EndClosed && closed) {
                Some(Nesting::Outside)
            } else {
                None
            }
        },
    }
}

/// The scan state after all of `verbs`, or `None` where they break the syntax.
pub open spec fn nesting(verbs: Seq<Verb>) -> Option<Nesting>
    decreases verbs.len(),
{
    if verbs.len() == 0 {
        Some(Nesting::Outside)
    } else {
        match nesting(verbs.drop_last()) {
            Some(s) => step(s, verbs.last()),
            None => None,
        }
    }
}

/// The number of points stored for `verbs`.
pub open spec fn point_total(verbs: Seq<Verb>) -> nat
    decreases verbs.len(),
{
    if verbs.len() == 0 {
        0
    } else {
        point_total(verbs.drop_last()) + stored_points(verbs.last())
    }
}

/// The point index a cursor has reached after passing `verbs`.
pub open spec fn step_total(verbs: Seq<Verb>) -> nat
    decreases verbs.len(),
{
    if verbs.len() == 0 {
        0
    } else {
        step_total(verbs.drop_last()) + stepped_points(verbs.last())
    }
}

/// A well-formed path: complete sub-paths only, with exactly the points
/// their verbs call for. That a closed sub-path ends on its start point is
/// a rule on point values, which needs the point type's equality: it is
/// `closed_ends_meet`, which the builder keeps.
pub open spec fn path_wf(verbs: Seq<Verb>, n_points: nat) -> bool {
    &&& nesting(verbs) == Some(Nesting::Outside)
    &&& n_points == point_total(verbs)
}

/// 1 inside a sub-path, 0 outside.
pub open spec fn inside_bonus(s: Nesting) -> nat {
    match s {
        Nesting::Outside => 0,
        Nesting::Inside { .. } => 1,
    }
}

proof fn lemma_totals_relation(verbs: Seq<Verb>)
    requires
        nesting(verbs) is Some,
    ensures
        step_total(verbs) + inside_bonus(nesting(verbs)->0) == point_total(verbs),
    decreases verbs.len(),
{
    if verbs.len() > 0 {
        lemma_totals_relation(verbs.drop_last());
    }
}

proof fn lemma_nesting_prefix(verbs: Seq<Verb>, i: int)
    requires
        nesting(verbs) is Some,
        0 <= i <= verbs.len(),
    ensures
        nesting(verbs.take(i)) is Some,
        point_total(verbs.take(i)) <= point_total(verbs),
    decreases verbs.len(),
{
    if i == verbs.len() {
        assert(verbs.take(i) =~= verbs);
    } else {
        let d = verbs.drop_last();
        assert(d.take(i) =~= verbs.take(i));
        lemma_nesting_prefix(d, i);
    }
}

/// What holds at verb `i` of a well-formed path: the scan state before and
/// after it, and how the point counts move.
pub proof fn lemma_position(verbs: Seq<Verb>, n_points: nat, i: int)
    requires
        path_wf(verbs, n_points),
        0 <= i < verbs.len(),
    ensures
        nesting(verbs.take(i)) is Some,
        nesting(verbs.take(i + 1)) is Some,
        nesting(verbs.take(i + 1)) == step(nesting(verbs.take(i))->0, verbs[i]),
        step_total(verbs.take(i + 1)) == step_total(verbs.take(i)) + stepped_points(verbs[i]),
        point_total(verbs.take(i + 1)) == point_total(verbs.take(i)) + stored_points(verbs[i]),
        point_total(verbs.take(i + 1)) <= n_points,
        step_total(verbs.take(i)) + inside_bonus(nesting(verbs.take(i))->0) == point_total(
            verbs.take(i),
        ),
        step_total(verbs.take(i + 1)) + inside_bonus(nesting(verbs.take(i + 1))->0)
            == point_total(verbs.take(i + 1)),
{
    lemma_nesting_prefix(verbs, i);
    lemma_nesting_prefix(verbs, i + 1);
    let t = verbs.take(i + 1);
    assert(t.drop_last() =~= verbs.take(i));
    assert(t.last() == verbs[i]);
    lemma_totals_relation(verbs.take(i));
    lemma_totals_relation(t);
}

/// One event of a walk over a path.
#[derive(Debug, Clone, Copy, PartialEq)]
pub enum IterEvent<P> {
    /// First point, closed.
    Begin(P, bool),
    Line(Line<P>),
    Quad(Quad<P>),
    Cubic(Cubic<P>),
    /// Last point, closed.
    End(P, bool),
}

impl<P: Copy> IterEvent<P> {
    /// The event a walk in the other direction meets at the same place.
    pub open spec fn reversed(self) -> IterEvent<P> {
        match self {
            IterEvent::Begin(p, c) => IterEvent::End(p, c),
            IterEvent::Line(l) => IterEvent::Line(l.reversed()),
            IterEvent::Quad(q) => IterEvent::Quad(q.reversed()),
            IterEvent::Cubic(c) => IterEvent::Cubic(c.reversed()),
            IterEvent::End(p, c) => IterEvent::Begin(p, c),
        }
    }
}

/// The event produced by verb `i`, read from point index `p` onwards.
pub open spec fn event_at<P>(verbs: Seq<Verb>, points: Seq<P>, i: int, p: int) -> IterEvent<P> {
    match verbs[i] {
        Verb::BeginOpen => IterEvent::Begin(points[p], false),
        Verb::BeginClosed => IterEvent::Begin(points[p], true),
        Verb::Line => IterEvent::Line(Line { p0: points[p], p1: points[p + 1] }),
        Verb::Quad => IterEvent::Quad(Quad { p0: points[p], p1: points[p + 1], p2: points[p + 2] }),
        Verb::Cubic => IterEvent::Cubic(
            Cubic { p0: points[p], p1: points[p + 1], p2: points[p + 2], p3: points[p + 3] },
        ),
        Verb::EndOpen => IterEvent::End(points[p], false),
        Verb::EndClosed => IterEvent::End(points[p], true),
    }
}

/// The event produced when walking backwards over verb `i - 1`, from point
/// index `p`.
pub open spec fn event_before<P>(verbs: Seq<Verb>, points: Seq<P>, i: int, p: int) -> IterEvent<P> {
    match verbs[i - 1] {
        Verb::BeginOpen => IterEvent::End(points[p], false),
        Verb::BeginClosed => IterEvent::End(points[p], true),
        Verb::Line => IterEvent::Line(Line { p0: points[p], p1: points[p - 1] }),
        Verb::Quad => IterEvent::Quad(Quad { p0: points[p], p1: points[p - 1], p2: points[p - 2] }),
        Verb::Cubic => IterEvent::Cubic(
            Cubic { p0: points[p], p1: points[p - 1], p2: points[p - 2], p3: points[p - 3] },
        ),
        Verb::EndOpen => IterEvent::Begin(points[p - 1], false),
        Verb::EndClosed => IterEvent::Begin(points[p - 1], true),
    }
}

/// Walking one verb forward and then one verb back on a well-formed path
/// returns to the same place and meets the same event, traversed the other way.
pub proof fn lemma_next_then_prev<P: Copy>(verbs: Seq<Verb>, points: Seq<P>, i: int)
    requires
        path_wf(verbs, points.len()),
        0 <= i < verbs.len(),
    ensures
        ({
            let p = step_total(verbs.take(i)) as int;
            let q = step_total(verbs.take(i + 1)) as int;
            &&& q == p + stepped_points(verbs[i])
            &&& q - stepped_points(verbs[i]) == p
            &&& event_before(verbs, points, i + 1, q) == event_at(verbs, points, i, p).reversed()
        }),
{
    lemma_position(verbs, points.len(), i);
}

/// The point an event starts from.
pub open spec fn event_first_point<P>(e: IterEvent<P>) -> P {
    match e {
        IterEvent::Begin(p, _) => p,
        IterEvent::Line(l) => l.p0,
        IterEvent::Quad(q) => q.p0,
        IterEvent::Cubic(c) => c.p0,
        IterEvent::End(p, _) => p,
    }
}

/// The point an event ends on.
pub open spec fn event_last_point<P>(e: IterEvent<P>) -> P {
    match e {
        IterEvent::Begin(p, _) => p,
        IterEvent::Line(l) => l.p1,
        IterEvent::Quad(q) => q.p2,
        IterEvent::Cubic(c) => c.p3,
        IterEvent::End(p, _) => p,
    }
}

/// The closed flag of a begin or end event; `false` for a curve.
pub open spec fn event_closed<P>(e: IterEvent<P>) -> bool {
    match e {
        IterEvent::Begin(_, c) => c,
        IterEvent::End(_, c) => c,
        _ => false,
    }
}

/// The `k`-th event of a forward walk over a path.
pub open spec fn walk_event<P>(verbs: Seq<Verb>, points: Seq<P>, k: int) -> IterEvent<P> {
    event_at(verbs, points, k, step_total(verbs.take(k)) as int)
}

/// Two points meet: they are the same value, or the point type's `==` holds
/// of them.
pub open spec fn points_meet<P: PartialEq>(a: P, b: P) -> bool {
    a == b || a.eq_spec(&b)
}

/// Every closed sub-path ends on its start point: where verb `b` begins a
/// closed sub-path and verb `e` ends it, the end event's point meets the
/// begin event's point.
pub open spec fn closed_ends_meet<P: PartialEq>(verbs: Seq<Verb>, points: Seq<P>) -> bool {
    forall|b: int, e: int|
        #![trigger verbs[b], verbs[e]]
        0 <= b < e < verbs.len() && verbs[b] == Verb::BeginClosed && verbs[e] == Verb::EndClosed
            && (forall|k: int| b < k < e ==> is_curve(#[trigger] verbs[k])) ==> points_meet(
            points[step_total(verbs.take(e)) as int],
            points[step_total(verbs.take(b)) as int],
        )
}

proof fn lemma_walk_begin<P>(verbs: Seq<Verb>, points: Seq<P>, k: int)
    requires
        path_wf(verbs, points.len()),
        0 <= k < verbs.len(),
    ensures
        (walk_event(verbs, points, k) is Begin) <==> (k == 0 || walk_event(verbs, points, k - 1) is End),
{
    lemma_position(verbs, points.len(), k);
    if k == 0 {
        assert(verbs.take(0) =~= Seq::<Verb>::empty());
    } else {
        lemma_position(verbs, points.len(), k - 1);
    }
}

proof fn lemma_walk_chain<P>(verbs: Seq<Verb>, points: Seq<P>, k: int)
    requires
        path_wf(verbs, points.len()),
        0 < k < verbs.len(),
        !(walk_event(verbs, points, k) is Begin),
    ensures
        event_first_point(walk_event(verbs, points, k)) == event_last_point(
            walk_event(verbs, points, k - 1),
        ),
{
    lemma_walk_begin(verbs, points, k);
    lemma_position(verbs, points.len(), k - 1);
}

proof fn lemma_walk_sub_path<P: PartialEq>(verbs: Seq<Verb>, points: Seq<P>, b: int, e: int)
    requires
        path_wf(verbs, points.len()),
        0 <= b < e < verbs.len(),
        walk_event(verbs, points, b) is Begin,
        walk_event(verbs, points, e) is End,
        forall|k: int|
            b < k < e ==> !(#[trigger] walk_event(verbs, points, k) is Begin) && !(walk_event(
                verbs,
                points,
                k,
            ) is End),
    ensures
        event_closed(walk_event(verbs, points, b)) == event_closed(walk_event(verbs, points, e)),
        event_closed(walk_event(verbs, points, b)) && closed_ends_meet(verbs, points)
            ==> points_meet(
            event_first_point(walk_event(verbs, points, e)),
            event_first_point(walk_event(verbs, points, b)),
        ),
{
    lemma_position(verbs, points.len(), b);
    lemma_position(verbs, points.len(), e);
    assert forall|k: int| b < k < e implies is_curve(#[trigger] verbs[k]) by {
        assert(!(walk_event(verbs, points, k) is Begin) && !(walk_event(verbs, points, k) is End));
    }
    lemma_inside_run(verbs, b, e);
}

/// A forward walk over a well-formed path follows the path syntax: it
/// begins a sub-path first and after every end, and only there; it ends
/// with an end event; each curve and each end starts where the event
/// before it stopped; the begin and the end of a sub-path agree on whether
/// it is closed; and, where closed sub-paths end on their start points, the
/// end event of a closed sub-path carries a point that meets its begin point.
pub proof fn lemma_walk<P: Copy + PartialEq>(verbs: Seq<Verb>, points: Seq<P>)
    requires
        path_wf(verbs, points.len()),
    ensures
        verbs.len() > 0 ==> walk_event(verbs, points, verbs.len() - 1) is End,
        forall|k: int|
            0 <= k < verbs.len() ==> ((#[trigger] walk_event(verbs, points, k) is Begin) <==> (k
                == 0 || walk_event(verbs, points, k - 1) is End)),
        forall|k: int|
            0 < k < verbs.len() && !(#[trigger] walk_event(verbs, points, k) is Begin)
                ==> event_first_point(walk_event(verbs, points, k)) == event_last_point(
                walk_event(verbs, points, k - 1),
            ),
        forall|b: int, e: int|
            #![trigger walk_event(verbs, points, b), walk_event(verbs, points, e)]
            0 <= b < e < verbs.len() && walk_event(verbs, points, b) is Begin && walk_event(
                verbs,
                points,
                e,
            ) is End && (forall|k: int|
                b < k < e ==> !(#[trigger] walk_event(verbs, points, k) is Begin) && !(walk_event(
                    verbs,
                    points,
                    k,
                ) is End)) ==> {
                &&& event_closed(walk_event(verbs, points, b)) == event_closed(
                    walk_event(verbs, points, e),
                )
                &&& event_closed(walk_event(verbs, points, b)) && closed_ends_meet(verbs, points)
                    ==> points_meet(
                    event_first_point(walk_event(verbs, points, e)),
                    event_first_point(walk_event(verbs, points, b)),
                )
            },
{
    let n = verbs.len() as int;
    if n > 0 {
        lemma_position(verbs, points.len(), n - 1);
        assert(verbs.take(n) =~= verbs);
    }
    assert forall|k: int| 0 <= k < n implies ((#[trigger] walk_event(verbs, points, k) is Begin)
        <==> (k == 0 || walk_event(verbs, points, k - 1) is End)) by {
        lemma_walk_begin(verbs, points, k);
    }
    assert forall|k: int|
        0 < k < n && !(#[trigger] walk_event(verbs, points, k) is Begin) implies event_first_point(
        walk_event(verbs, points, k),
    ) == event_last_point(walk_event(verbs, points, k - 1)) by {
        lemma_walk_chain(verbs, points, k);
    }
    assert forall|b: int, e: int|
        #![trigger walk_event(verbs, points, b), walk_event(verbs, points, e)]
        0 <= b < e < n && walk_event(verbs, points, b) is Begin && walk_event(verbs, points, e) is End
            && (forall|k: int|
            b < k < e ==> !(#[trigger] walk_event(verbs, points, k) is Begin) && !(walk_event(
                verbs,
                points,
                k,
            ) is End)) implies {
        &&& event_closed(walk_event(verbs, points, b)) == event_closed(walk_event(verbs, points, e))
        &&& event_closed(walk_event(verbs, points, b)) && closed_ends_meet(verbs, points)
            ==> points_meet(
            event_first_point(walk_event(verbs, points, e)),
            event_first_point(walk_event(verbs, points, b)),
        )
    } by {
        lemma_walk_sub_path(verbs, points, b, e);
    }
}

/// A cursor over a path, between two verbs.
#[derive(Clone)]
pub struct Iter<'p, P> {
    verbs: &'p [Verb],
    points: &'p [P],
    verb: usize,
    point: usize,
}

impl<'p, P: Copy> Iter<'p, P> {
    /// The verbs of the path walked.
    pub closed spec fn verbs_view(&self) -> Seq<Verb> {
        self.verbs@
    }

    /// The points of the path walked.
    pub closed spec fn points_view(&self) -> Seq<P> {
        self.points@
    }

    /// How many verbs lie before the cursor.
    pub closed spec fn verb_index(&self) -> int {
        self.verb as int
    }

    /// The index of the current point.
    pub closed spec fn point_index(&self) -> int {
        self.point as int
    }

    /// The cursor stands on a well-formed path, at the point index that
    /// belongs to its verb index.
    pub open spec fn wf(&self) -> bool {
        &&& path_wf(self.verbs_view(), self.points_view().len())
        &&& 0 <= self.verb_index() <= self.verbs_view().len()
        &&& self.point_index() == step_total(self.verbs_view().take(self.verb_index()))
    }

    /// A cursor at the start of `path`.
    pub fn new(path: &Path<'p, P>) -> (it: Iter<'p, P>)
        requires
            path.wf(),
        ensures
            it.wf(),
            it.verbs_view() == path.verbs_view(),
            it.points_view() == path.points_view(),
            it.verb_index() == 0,
            it.point_index() == 0,
    {
        let it = Iter { verbs: path.verbs(), points: path.points(), verb: 0, point: 0 };
        assert(it.verbs@.take(0) =~= Seq::<Verb>::empty());
        it
    }

    /// Whether a verb lies after the cursor.
    pub fn has_next(&self) -> (r: bool)
        ensures
            r == (self.verb_index() < self.verbs_view().len()),
    {
        self.verb < self.verbs.len()
    }

    /// Whether a verb lies before the cursor.
    pub fn has_prev(&self) -> (r: bool)
        ensures
            r == (self.verb_index() > 0),
    {
        self.verb > 0
    }

    /// Whether two cursors stand at the same place.
    pub fn test_equal(&self, other: &Self) -> (r: bool)
        ensures
            r == (self.verb_index() == other.verb_index() && self.point_index()
                == other.point_index()),
    {
        self.verb == other.verb && self.point == other.point
    }

    /// Moves over the next verb and returns its event; `None` at the end.
    pub fn next(&mut self) -> (r: Option<IterEvent<P>>)
        requires
            old(self).wf(),
        ensures
            final(self).wf(),
            final(self).verbs_view() == old(self).verbs_view(),
            final(self).points_view() == old(self).points_view(),
            old(self).verb_index() < old(self).verbs_view().len() ==> {
                &&& r == Some(
                    walk_event(
                        old(self).verbs_view(),
                        old(self).points_view(),
                        old(self).verb_index(),
                    ),
                )
                &&& r == Some(
                    event_at(
                        old(self).verbs_view(),
                        old(self).points_view(),
                        old(self).verb_index(),
                        old(self).point_index(),
                    ),
                )
                &&& final(self).verb_index() == old(self).verb_index() + 1
                &&& final(self).point_index() == old(self).point_index() + stepped_points(
                    old(self).verbs_view()[old(self).verb_index()],
                )
            },
            old(self).verb_index() >= old(self).verbs_view().len() ==> {
                &&& r is None
                &&& final(self).verb_index() == old(self).verb_index()
                &&& final(self).point_index() == old(self).point_index()
            },
    {
        if !self.has_next() {
            return None;
        }
        proof {
            lemma_position(self.verbs@, self.points@.len(), self.verb as int);
        }
        let verb = self.verbs[self.verb];
        let p = self.point;
        let points = self.points;
        let result = match verb {
            Verb::BeginOpen | Verb::BeginClosed => {
                IterEvent::Begin(points[p], verb == Verb::BeginClosed)
            },
            Verb::Line => {
                self.point = p + 1;
                IterEvent::Line(line(points[p], points[p + 1]))
            },
            Verb::Quad => {
                self.point = p + 2;
                IterEvent::Quad(quad(points[p], points[p + 1], points[p + 2]))
            },
            Verb::Cubic => {
                self.point = p + 3;
                IterEvent::Cubic(cubic(points[p], points[p + 1], points[p + 2], points[p + 3]))
            },
            Verb::EndOpen | Verb::EndClosed => {
                self.point = p + 1;
                IterEvent::End(points[p], verb == Verb::EndClosed)
            },
        };
        self.verb = self.verb + 1;
        Some(result)
    }

    /// Moves back over the previous verb and returns its event, traversed
    /// backwards; `None` at the start.
    pub fn prev_rev(&mut self) -> (r: Option<IterEvent<P>>)
        requires
            old(self).wf(),
        ensures
            final(self).wf(),
            final(self).verbs_view() == old(self).verbs_view(),
            final(self).points_view() == old(self).points_view(),
            old(self).verb_index() > 0 ==> {
                &&& r == Some(
                    event_before(
                        old(self).verbs_view(),
                        old(self).points_view(),
                        old(self).verb_index(),
                        old(self).point_index(),
                    ),
                )
                &&& final(self).verb_index() == old(self).verb_index() - 1
                &&& final(self).point_index() == old(self).point_index() - stepped_points(
                    old(self).verbs_view()[old(self).verb_index() - 1],
                )
            },
            old(self).verb_index() == 0 ==> {
                &&& r is None
                &&& final(self).verb_index() == 0
                &&& final(self).point_index() == old(self).point_index()
            },
    {
        if !self.has_prev() {
            return None;
        }
        proof {
            lemma_position(self.verbs@, self.points@.len(), self.verb - 1);
        }
        let verb = self.verbs[self.verb - 1];
        let p = self.point;
        let points = self.points;
        let result = match verb {
            Verb::BeginOpen | Verb::BeginClosed => {
                IterEvent::End(points[p], verb == Verb::BeginClosed)
            },
            Verb::Line => {
                self.point = p - 1;
                IterEvent::Line(line(points[p], points[p - 1]))
            },
            Verb::Quad => {
                self.point = p - 2;
                IterEvent::Quad(quad(points[p], points[p - 1], points[p - 2]))
            },
            Verb::Cubic => {
                self.point = p - 3;
                IterEvent::Cubic(cubic(points[p], points[p - 1], points[p - 2], points[p - 3]))
            },
            Verb::EndOpen | Verb::EndClosed => {
                self.point = p - 1;
                IterEvent::Begin(points[p - 1], verb == Verb::EndClosed)
            },
        };
        self.verb = self.verb - 1;
        Some(result)
    }
}

/// A borrowed, well-formed path.
#[derive(Clone, Copy)]
pub struct Path<'a, P> {
    verbs: &'a [Verb],
    points: &'a [P],
}

impl<'a, P: Copy> Path<'a, P> {
    /// The verbs of the path.
    pub closed spec fn verbs_view(&self) -> Seq<Verb> {
        self.verbs@
    }

    /// The points of the path.
    pub closed spec fn points_view(&self) -> Seq<P> {
        self.points@
    }

    /// The path is well-formed.
    pub open spec fn wf(&self) -> bool {
        path_wf(self.verbs_view(), self.points_view().len())
    }

    /// The verbs of the path.
    pub fn verbs(&self) -> (r: &'a [Verb])
        ensures
            r@ == self.verbs_view(),
    {
        self.verbs
    }

    /// The points of the path.
    pub fn points(&self) -> (r: &'a [P])
        ensures
            r@ == self.points_view(),
    {
        self.points
    }

    /// A cursor at the start of the path.
    pub fn iter(&self) -> (it: Iter<'a, P>)
        requires
            self.wf(),
        ensures
            it.wf(),
            it.verbs_view() == self.verbs_view(),
            it.points_view() == self.points_view(),
            it.verb_index() == 0,
    {
        Iter::new(self)
    }
}


/// A path that owns its verbs and points.
pub struct PathBuf<P> {
    verbs: Vec<Verb>,
    points: Vec<P>,
}

impl<P: Copy> PathBuf<P> {
    /// The verbs of the path.
    pub closed spec fn verbs_view(&self) -> Seq<Verb> {
        self.verbs@
    }

    /// The points of the path.
    pub closed spec fn points_view(&self) -> Seq<P> {
        self.points@
    }

    /// The path is well-formed.
    pub open spec fn wf(&self) -> bool {
        path_wf(self.verbs_view(), self.points_view().len())
    }

    /// A path holding copies of `verbs` and `points`, which must have the
    /// path syntax.
    pub fn new_in(verbs: &[Verb], points: &[P]) -> (r: PathBuf<P>)
        requires
            path_wf(verbs@, points@.len()),
        ensures
            r.wf(),
            r.verbs_view() == verbs@,
            r.points_view() == points@,
    {
        let mut vs: Vec<Verb> = Vec::new();
        let mut i: usize = 0;
        while i < verbs.len()
            invariant
                i <= verbs.len(),
                vs@ == verbs@.take(i as int),
            decreases verbs.len() - i,
        {
            vs.push(verbs[i]);
            i = i + 1;
            assert(vs@ =~= verbs@.take(i as int));
        }
        let mut ps: Vec<P> = Vec::new();
        let mut j: usize = 0;
        while j < points.len()
            invariant
                j <= points.len(),
                ps@ == points@.take(j as int),
            decreases points.len() - j,
        {
            ps.push(points[j]);
            j = j + 1;
            assert(ps@ =~= points@.take(j as int));
        }
        assert(vs@ =~= verbs@);
        assert(ps@ =~= points@);
        PathBuf { verbs: vs, points: ps }
    }

    /// The path as a borrowed view.
    pub fn path(&self) -> (r: Path<'_, P>)
        ensures
            r.verbs_view() == self.verbs_view(),
            r.points_view() == self.points_view(),
    {
        Path { verbs: self.verbs.as_slice(), points: self.points.as_slice() }
    }
}

proof fn lemma_inside_run(v: Seq<Verb>, b: int, n: int)
    requires
        0 <= b < n <= v.len(),
        nesting(v.take(b)) == Some(Nesting::Outside),
        v[b] == Verb::BeginOpen || v[b] == Verb::BeginClosed,
        forall|j: int| b < j < n ==> is_curve(#[trigger] v[j]),
    ensures
        nesting(v.take(n)) == Some(Nesting::Inside { closed: v[b] == Verb::BeginClosed }),
    decreases n - b,
{
    assert(v.take(n).drop_last() =~= v.take(n - 1));
    if n == b + 1 {
    } else {
        lemma_inside_run(v, b, n - 1);
    }
}

proof fn lemma_point_total_update(v: Seq<Verb>, b: int, x: Verb)
    requires
        0 <= b < v.len(),
    ensures
        point_total(v.update(b, x)) + stored_points(v[b]) == point_total(v) + stored_points(x),
    decreases v.len(),
{
    let u = v.update(b, x);
    if b == v.len() - 1 {
        assert(u.drop_last() =~= v.drop_last());
    } else {
        assert(u.drop_last() =~= v.drop_last().update(b, x));
        lemma_point_total_update(v.drop_last(), b, x);
    }
}

proof fn lemma_push(v: Seq<Verb>, x: Verb)
    ensures
        v.push(x).drop_last() == v,
        v.push(x).last() == x,
{
    assert(v.push(x).drop_last() =~= v);
}

/// Facts about verb `i` of verbs whose scan does not break the syntax.
proof fn lemma_prefix_position(verbs: Seq<Verb>, i: int)
    requires
        nesting(verbs) is Some,
        0 <= i < verbs.len(),
    ensures
        nesting(verbs.take(i)) is Some,
        nesting(verbs.take(i + 1)) is Some,
        nesting(verbs.take(i + 1)) == step(nesting(verbs.take(i))->0, verbs[i]),
        point_total(verbs.take(i + 1)) == point_total(verbs.take(i)) + stored_points(verbs[i]),
        point_total(verbs.take(i + 1)) <= point_total(verbs),
        step_total(verbs.take(i)) + inside_bonus(nesting(verbs.take(i))->0) == point_total(
            verbs.take(i),
        ),
{
    lemma_nesting_prefix(verbs, i);
    lemma_nesting_prefix(verbs, i + 1);
    let t = verbs.take(i + 1);
    assert(t.drop_last() =~= verbs.take(i));
    assert(t.last() == verbs[i]);
    lemma_totals_relation(verbs.take(i));
}

/// Appending verbs other than a closed end, and points, keeps closed
/// sub-paths ending on their start points.
proof fn lemma_closed_ends_grow<P: PartialEq>(
    v: Seq<Verb>,
    pts: Seq<P>,
    v2: Seq<Verb>,
    pts2: Seq<P>,
)
    requires
        closed_ends_meet(v, pts),
        nesting(v) is Some,
        point_total(v) <= pts.len(),
        v.len() <= v2.len(),
        v2.take(v.len() as int) == v,
        forall|j: int| v.len() <= j < v2.len() ==> #[trigger] v2[j] != Verb::EndClosed,
        pts.len() <= pts2.len(),
        forall|i: int| 0 <= i < pts.len() ==> #[trigger] pts2[i] == pts[i],
    ensures
        closed_ends_meet(v2, pts2),
{
    assert forall|b: int, e: int|
        #![trigger v2[b], v2[e]]
        0 <= b < e < v2.len() && v2[b] == Verb::BeginClosed && v2[e] == Verb::EndClosed && (forall|
            k: int,
        |
            b < k < e ==> is_curve(#[trigger] v2[k])) implies points_meet(
        pts2[step_total(v2.take(e)) as int],
        pts2[step_total(v2.take(b)) as int],
    ) by {
        assert(e < v.len());
        assert(v2[e] == v2.take(v.len() as int)[e]);
        assert(v2[b] == v2.take(v.len() as int)[b]);
        assert(v2.take(e) =~= v.take(e));
        assert(v2.take(b) =~= v.take(b));
        assert forall|k: int| b < k < e implies is_curve(#[trigger] v[k]) by {
            assert(v2[k] == v2.take(v.len() as int)[k]);
        }
        lemma_prefix_position(v, e);
        lemma_prefix_position(v, b);
    }
}

/// Closing the open sub-path that begins at verb `b0`, whose last point
/// meets its first, keeps closed sub-paths ending on their start points.
proof fn lemma_closed_ends_close<P: PartialEq>(v0: Seq<Verb>, pts: Seq<P>, b0: int)
    requires
        closed_ends_meet(v0, pts),
        0 <= b0 < v0.len(),
        nesting(v0.take(b0)) == Some(Nesting::Outside),
        v0[b0] == Verb::BeginOpen,
        forall|j: int| b0 < j < v0.len() ==> is_curve(#[trigger] v0[j]),
        pts.len() == point_total(v0),
        point_total(v0.take(b0)) < pts.len(),
        points_meet(pts.last(), pts[point_total(v0.take(b0)) as int]),
    ensures
        closed_ends_meet(v0.update(b0, Verb::BeginClosed).push(Verb::EndClosed), pts),
{
    let u = v0.update(b0, Verb::BeginClosed);
    let v2 = u.push(Verb::EndClosed);
    let last = v2.len() - 1;
    assert(u.take(b0) =~= v0.take(b0));
    assert(v2.take(b0) =~= v0.take(b0));
    assert(v2.take(last) =~= u);
    lemma_inside_run(u, b0, u.len() as int);
    assert(u.take(u.len() as int) =~= u);
    lemma_totals_relation(u);
    lemma_totals_relation(v0.take(b0));
    lemma_point_total_update(v0, b0, Verb::BeginClosed);
    assert forall|b: int, e: int|
        #![trigger v2[b], v2[e]]
        0 <= b < e < v2.len() && v2[b] == Verb::BeginClosed && v2[e] == Verb::EndClosed && (forall|
            k: int,
        |
            b < k < e ==> is_curve(#[trigger] v2[k])) implies points_meet(
        pts[step_total(v2.take(e)) as int],
        pts[step_total(v2.take(b)) as int],
    ) by {
        if e == last {
            if b < b0 {
                assert(is_curve(v2[b0]));
            } else if b > b0 {
                assert(is_curve(v0[b]));
            }
        } else {
            assert(v2[e] == u[e]);
            if e >= b0 {
                if e > b0 {
                    assert(is_curve(v0[e]));
                }
            } else {
                assert(v2.take(e) =~= v0.take(e));
                assert(v2.take(b) =~= v0.take(b));
                assert(v2[b] == v0[b]);
                assert(v0[e] == v2[e]);
                assert forall|k: int| b < k < e implies is_curve(#[trigger] v0[k]) by {
                    assert(v2[k] == v0[k]);
                }
            }
        }
    }
}

/// Builds a path sub-path by sub-path.
pub struct PathBuilder<P> {
    verbs: Vec<Verb>,
    points: Vec<P>,
    in_path: bool,
    begin_point: Option<P>,
    begin_verb: usize,
}

/// The verbs once an open sub-path, if any, has been ended.
pub open spec fn ended(verbs: Seq<Verb>, in_path: bool) -> Seq<Verb> {
    if in_path {
        verbs.push(Verb::EndOpen)
    } else {
        verbs
    }
}

/// The state of a path builder as plain values.
pub struct BuilderModel<P> {
    pub verbs: Seq<Verb>,
    pub points: Seq<P>,
    pub in_path: bool,
    pub begin_verb: int,
    pub begin_point: P,
}

/// The builder state after `move_to(p0)`.
pub open spec fn model_move_to<P>(m: BuilderModel<P>, p0: P) -> BuilderModel<P> {
    let v0 = ended(m.verbs, m.in_path);
    BuilderModel {
        verbs: v0.push(Verb::BeginOpen),
        points: m.points.push(p0),
        in_path: true,
        begin_verb: v0.len() as int,
        begin_point: p0,
    }
}

/// The builder state after `line_to(p1)`.
pub open spec fn model_line_to<P>(m: BuilderModel<P>, p1: P) -> BuilderModel<P> {
    BuilderModel {
        verbs: m.verbs.push(Verb::Line),
        points: m.points.push(p1),
        in_path: m.in_path,
        begin_verb: m.begin_verb,
        begin_point: m.begin_point,
    }
}

/// The builder state after `quad_to(p1, p2)`.
pub open spec fn model_quad_to<P>(m: BuilderModel<P>, p1: P, p2: P) -> BuilderModel<P> {
    BuilderModel {
        verbs: m.verbs.push(Verb::Quad),
        points: m.points.push(p1).push(p2),
        in_path: m.in_path,
        begin_verb: m.begin_verb,
        begin_point: m.begin_point,
    }
}

/// The builder state after `cubic_to(p1, p2, p3)`.
pub open spec fn model_cubic_to<P>(m: BuilderModel<P>, p1: P, p2: P, p3: P) -> BuilderModel<P> {
    BuilderModel {
        verbs: m.verbs.push(Verb::Cubic),
        points: m.points.push(p1).push(p2).push(p3),
        in_path: m.in_path,
        begin_verb: m.begin_verb,
        begin_point: m.begin_point,
    }
}

/// The builder state after `close_path()`, where the last point and the
/// begin point are compared by the point type's equality.
pub open spec fn model_close<P: PartialEq>(m: BuilderModel<P>) -> BuilderModel<P> {
    let added = !m.points.last().eq_spec(&m.begin_point);
    let v0 = if added {
        m.verbs.push(Verb::Line)
    } else {
        m.verbs
    };
    BuilderModel {
        verbs: v0.update(m.begin_verb, Verb::BeginClosed).push(Verb::EndClosed),
        points: if added {
            m.points.push(m.begin_point)
        } else {
            m.points
        },
        in_path: false,
        begin_verb: usize::MAX as int,
        begin_point: m.begin_point,
    }
}

impl<P: Copy + PartialEq> PathBuilder<P> {
    /// The verbs pushed so far.
    pub closed spec fn verbs_view(&self) -> Seq<Verb> {
        self.verbs@
    }

    /// The points pushed so far.
    pub closed spec fn points_view(&self) -> Seq<P> {
        self.points@
    }

    /// Whether a sub-path is open for more curves.
    pub closed spec fn in_path_view(&self) -> bool {
        self.in_path
    }

    /// The index of the begin verb of the current sub-path.
    pub closed spec fn begin_verb_view(&self) -> int {
        self.begin_verb as int
    }

    /// The first point of the current sub-path.
    pub closed spec fn begin_point_view(&self) -> P {
        self.begin_point->0
    }

    /// Whether a begin point is recorded.
    pub closed spec fn begin_point_known(&self) -> bool {
        self.begin_point is Some
    }

    /// The builder's state as plain values.
    pub open spec fn model(&self) -> BuilderModel<P> {
        BuilderModel {
            verbs: self.verbs_view(),
            points: self.points_view(),
            in_path: self.in_path_view(),
            begin_verb: self.begin_verb_view(),
            begin_point: self.begin_point_view(),
        }
    }

    /// The builder's state is consistent: its verbs are complete sub-paths,
    /// then, while a sub-path is open, an open begin verb and curves; its
    /// points are those the verbs call for; and the begin point is the point
    /// stored with the current begin verb.
    pub open spec fn wf(&self) -> bool {
        let v = self.verbs_view();
        &&& nesting(v) == Some(
            if self.in_path_view() {
                Nesting::Inside { closed: false }
            } else {
                Nesting::Outside
            },
        )
        &&& self.points_view().len() == point_total(v)
        &&& self.in_path_view() ==> {
            &&& self.begin_point_known()
            &&& 0 <= self.begin_verb_view() < v.len()
            &&& v[self.begin_verb_view()] == Verb::BeginOpen
            &&& nesting(v.take(self.begin_verb_view())) == Some(Nesting::Outside)
            &&& forall|j: int| self.begin_verb_view() < j < v.len() ==> is_curve(#[trigger] v[j])
            &&& point_total(v.take(self.begin_verb_view())) < self.points_view().len()
            &&& self.begin_point_view() == self.points_view()[point_total(
                v.take(self.begin_verb_view()),
            ) as int]
        }
        &&& P::obeys_eq_spec() ==> closed_ends_meet(v, self.points_view())
    }

    /// An empty builder.
    pub fn new() -> (b: PathBuilder<P>)
        ensures
            b.wf(),
            b.verbs_view() == Seq::<Verb>::empty(),
            b.points_view() == Seq::<P>::empty(),
            !b.in_path_view(),
    {
        PathBuilder {
            verbs: Vec::new(),
            points: Vec::new(),
            in_path: false,
            begin_point: None,
            begin_verb: usize::MAX,
        }
    }

    /// Whether a sub-path is open.
    pub fn in_path(&self) -> (r: bool)
        ensures
            r == self.in_path_view(),
    {
        self.in_path
    }

    /// The last point of the open sub-path.
    pub fn last_point(&self) -> (r: P)
        requires
            self.wf(),
            self.in_path_view(),
        ensures
            r == self.points_view().last(),
    {
        self.points[self.points.len() - 1]
    }

    fn end_path(&mut self, verb: Verb)
        requires
            old(self).wf(),
            old(self).in_path_view(),
            verb == Verb::EndOpen,
            old(self).verbs_view().len() < usize::MAX,
        ensures
            final(self).wf(),
            !final(self).in_path_view(),
            final(self).verbs_view() == old(self).verbs_view().push(verb),
            final(self).points_view() == old(self).points_view(),
    {
        let ghost v0 = self.verbs@;
        proof {
            lemma_push(self.verbs@, verb);
        }
        self.verbs.push(verb);
        proof {
            if P::obeys_eq_spec() {
                assert(self.verbs@.take(v0.len() as int) =~= v0);
                lemma_closed_ends_grow(v0, self.points@, self.verbs@, self.points@);
            }
        }
        self.in_path = false;
        self.begin_verb = usize::MAX;
    }

    /// Starts a new sub-path at `p0`, ending an open one first.
    pub fn move_to(&mut self, p0: P)
        requires
            old(self).wf(),
            old(self).verbs_view().len() + 2 <= usize::MAX,
            old(self).points_view().len() + 1 <= usize::MAX,
        ensures
            final(self).wf(),
            final(self).in_path_view(),
            final(self).verbs_view() == ended(old(self).verbs_view(), old(self).in_path_view()).push(
                Verb::BeginOpen,
            ),
            final(self).points_view() == old(self).points_view().push(p0),
            final(self).begin_point_view() == p0,
            final(self).begin_verb_view() == ended(
                old(self).verbs_view(),
                old(self).in_path_view(),
            ).len(),
            final(self).model() == model_move_to(old(self).model(), p0),
    {
        if self.in_path {
            self.end_path(Verb::EndOpen);
        }
        let ghost v0 = self.verbs@;
        proof {
            lemma_push(v0, Verb::BeginOpen);
            assert(v0.push(Verb::BeginOpen).take(v0.len() as int) =~= v0);
        }
        let ghost p0s = self.points@;
        self.verbs.push(Verb::BeginOpen);
        self.points.push(p0);
        proof {
            if P::obeys_eq_spec() {
                assert(self.verbs@.take(v0.len() as int) =~= v0);
                lemma_closed_ends_grow(v0, p0s, self.verbs@, self.points@);
            }
        }
        self.in_path = true;
        self.begin_point = Some(p0);
        self.begin_verb = self.verbs.len() - 1;
    }

    fn push_curve(&mut self, verb: Verb)
        requires
            old(self).wf(),
            old(self).in_path_view(),
            is_curve(verb),
            old(self).verbs_view().len() + 1 <= usize::MAX,
        ensures
            final(self).verbs_view() == old(self).verbs_view().push(verb),
            final(self).points_view() == old(self).points_view(),
            final(self).in_path_view(),
            final(self).begin_verb_view() == old(self).begin_verb_view(),
            final(self).begin_point_view() == old(self).begin_point_view(),
            final(self).begin_point_known() == old(self).begin_point_known(),
            nesting(final(self).verbs_view()) == Some(Nesting::Inside { closed: false }),
            point_total(final(self).verbs_view()) == point_total(old(self).verbs_view())
                + curve_points(verb),
            forall|j: int|
                final(self).begin_verb_view() < j < final(self).verbs_view().len() ==> is_curve(
                    #[trigger] final(self).verbs_view()[j],
                ),
            final(self).verbs_view().take(final(self).begin_verb_view()) == old(
                self,
            ).verbs_view().take(old(self).begin_verb_view()),
    {
        let ghost v0 = self.verbs@;
        proof {
            lemma_push(v0, verb);
            assert(v0.push(verb).take(self.begin_verb as int) =~= v0.take(self.begin_verb as int));
        }
        self.verbs.push(verb);
    }

    /// Adds a line from the last point to `p1`.
    pub fn line_to(&mut self, p1: P)
        requires
            old(self).wf(),
            old(self).in_path_view(),
            old(self).verbs_view().len() + 1 <= usize::MAX,
            old(self).points_view().len() + 1 <= usize::MAX,
        ensures
            final(self).wf(),
            final(self).in_path_view(),
            final(self).verbs_view() == old(self).verbs_view().push(Verb::Line),
            final(self).points_view() == old(self).points_view().push(p1),
            final(self).begin_point_view() == old(self).begin_point_view(),
            final(self).begin_verb_view() == old(self).begin_verb_view(),
            final(self).model() == model_line_to(old(self).model(), p1),
    {
        let ghost (v0, p0s) = (self.verbs@, self.points@);
        self.push_curve(Verb::Line);
        self.points.push(p1);
        proof {
            if P::obeys_eq_spec() {
                assert(self.verbs@.take(v0.len() as int) =~= v0);
                lemma_closed_ends_grow(v0, p0s, self.verbs@, self.points@);
            }
        }
    }

    /// Adds a quadratic curve from the last point over `p1` to `p2`.
    pub fn quad_to(&mut self, p1: P, p2: P)
        requires
            old(self).wf(),
            old(self).in_path_view(),
            old(self).verbs_view().len() + 1 <= usize::MAX,
            old(self).points_view().len() + 2 <= usize::MAX,
        ensures
            final(self).wf(),
            final(self).in_path_view(),
            final(self).verbs_view() == old(self).verbs_view().push(Verb::Quad),
            final(self).points_view() == old(self).points_view().push(p1).push(p2),
            final(self).begin_point_view() == old(self).begin_point_view(),
            final(self).begin_verb_view() == old(self).begin_verb_view(),
            final(self).model() == model_quad_to(old(self).model(), p1, p2),
    {
        let ghost (v0, p0s) = (self.verbs@, self.points@);
        self.push_curve(Verb::Quad);
        self.points.push(p1);
        self.points.push(p2);
        proof {
            if P::obeys_eq_spec() {
                assert(self.verbs@.take(v0.len() as int) =~= v0);
                lemma_closed_ends_grow(v0, p0s, self.verbs@, self.points@);
            }
        }
    }

    /// Adds a cubic curve from the last point over `p1` and `p2` to `p3`.
    pub fn cubic_to(&mut self, p1: P, p2: P, p3: P)
        requires
            old(self).wf(),
            old(self).in_path_view(),
            old(self).verbs_view().len() + 1 <= usize::MAX,
            old(self).points_view().len() + 3 <= usize::MAX,
        ensures
            final(self).wf(),
            final(self).in_path_view(),
            final(self).verbs_view() == old(self).verbs_view().push(Verb::Cubic),
            final(self).points_view() == old(self).points_view().push(p1).push(p2).push(p3),
            final(self).begin_point_view() == old(self).begin_point_view(),
            final(self).begin_verb_view() == old(self).begin_verb_view(),
            final(self).model() == model_cubic_to(old(self).model(), p1, p2, p3),
    {
        let ghost (v0, p0s) = (self.verbs@, self.points@);
        self.push_curve(Verb::Cubic);
        self.points.push(p1);
        self.points.push(p2);
        self.points.push(p3);
        proof {
            if P::obeys_eq_spec() {
                assert(self.verbs@.take(v0.len() as int) =~= v0);
                lemma_closed_ends_grow(v0, p0s, self.verbs@, self.points@);
            }
        }
    }

    /// Removes everything built so far.
    pub fn clear(&mut self)
        ensures
            final(self).wf(),
            final(self).verbs_view() == Seq::<Verb>::empty(),
            final(self).points_view() == Seq::<P>::empty(),
            !final(self).in_path_view(),
    {
        self.verbs.clear();
        self.points.clear();
        self.in_path = false;
        self.begin_point = None;
        self.begin_verb = usize::MAX;
    }

    /// Ends any open sub-path and returns a copy of the path built so far;
    /// the builder keeps its contents.
    pub fn build(&mut self) -> (r: PathBuf<P>)
        requires
            old(self).wf(),
            old(self).verbs_view().len() + 1 <= usize::MAX,
        ensures
            final(self).wf(),
            !final(self).in_path_view(),
            final(self).verbs_view() == ended(old(self).verbs_view(), old(self).in_path_view()),
            final(self).points_view() == old(self).points_view(),
            r.wf(),
            r.verbs_view() == final(self).verbs_view(),
            r.points_view() == final(self).points_view(),
            P::obeys_eq_spec() ==> closed_ends_meet(r.verbs_view(), r.points_view()),
    {
        if self.in_path {
            self.end_path(Verb::EndOpen);
        }
        PathBuf::new_in(self.verbs.as_slice(), self.points.as_slice())
    }
}

impl<P: Copy + PartialEq> PathBuilder<P> {
    /// Closes the open sub-path: adds a line back to its first point unless
    /// the last point equals it, marks the sub-path closed and ends it.
    pub fn close_path(&mut self)
        requires
            old(self).wf(),
            old(self).in_path_view(),
            old(self).verbs_view().len() + 2 <= usize::MAX,
            old(self).points_view().len() + 1 <= usize::MAX,
        ensures
            final(self).wf(),
            !final(self).in_path_view(),
            ({
                let added = final(self).points_view().len() == old(self).points_view().len() + 1;
                let v0 = if added {
                    old(self).verbs_view().push(Verb::Line)
                } else {
                    old(self).verbs_view()
                };
                &&& final(self).points_view() == (if added {
                    old(self).points_view().push(old(self).begin_point_view())
                } else {
                    old(self).points_view()
                })
                &&& final(self).verbs_view() == v0.update(
                    old(self).begin_verb_view(),
                    Verb::BeginClosed,
                ).push(Verb::EndClosed)
                &&& P::obeys_eq_spec() ==> (added <==> !old(self).points_view().last().eq_spec(
                    &old(self).begin_point_view(),
                ))
            }),
            P::obeys_eq_spec() ==> {
                let last = final(self).points_view().last();
                last == old(self).begin_point_view() || last.eq_spec(&old(self).begin_point_view())
            },
            final(self).begin_point_view() == old(self).begin_point_view(),
            final(self).begin_verb_view() == usize::MAX,
            P::obeys_eq_spec() ==> final(self).model() == model_close(old(self).model()),
    {
        let bp = self.begin_point.unwrap();
        let last = self.points[self.points.len() - 1];
        if last != bp {
            self.line_to(bp);
        }
        let ghost v0 = self.verbs@;
        let b = self.begin_verb;
        proof {
            let u = v0.update(b as int, Verb::BeginClosed);
            assert(u.take(b as int) =~= v0.take(b as int));
            lemma_inside_run(u, b as int, u.len() as int);
            assert(u.take(u.len() as int) =~= u);
            lemma_point_total_update(v0, b as int, Verb::BeginClosed);
            lemma_push(u, Verb::EndClosed);
            if P::obeys_eq_spec() {
                lemma_closed_ends_close(v0, self.points@, b as int);
            }
        }
        self.verbs.set(b, Verb::BeginClosed);
        self.verbs.push(Verb::EndClosed);
        self.in_path = false;
        self.begin_verb = usize::MAX;
    }
}

/// Unchecked verb and point lists, used to collect the sides of a stroke.
pub struct RawPathBuilder<P> {
    pub verbs: Vec<Verb>,
    pub points: Vec<P>,
}

impl<P> RawPathBuilder<P> {
    /// Empty lists.
    pub fn new() -> (r: RawPathBuilder<P>)
        ensures
            r.verbs@ == Seq::<Verb>::empty(),
            r.points@ == Seq::<P>::empty(),
    {
        RawPathBuilder { verbs: Vec::new(), points: Vec::new() }
    }

    /// Empties both lists.
    pub fn clear(&mut self)
        ensures
            final(self).verbs@ == Seq::<Verb>::empty(),
            final(self).points@ == Seq::<P>::empty(),
    {
        self.verbs.clear();
        self.points.clear();
    }
}

} // verus!
