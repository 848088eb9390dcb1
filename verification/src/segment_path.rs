//! Paths with a single end verb per sub-path, walked forwards.
//!
//! Path syntax:
//!
//! ```text
//! Path    ::= SubPath*
//! SubPath ::= (BeginOpen | BeginClosed) Curve* End
//! Curve   ::= Segment | Quadratic | Cubic
//! ```
//!
//! A begin verb and a segment store one point, a quadratic curve two, a
//! cubic curve three, the end verb none. The first point of any curve is the
//! last point of the verb before it.
use vstd::prelude::*;
use vstd::std_specs::cmp::PartialEqSpec;

verus! {

/// A straight segment from `p0` to `p1`.
#[derive(Debug, Clone, Copy, PartialEq)]
pub struct Segment<P> {
    pub p0: P,
    pub p1: P,
}

/// Builds a segment from its end points.
pub fn segment<P>(p0: P, p1: P) -> (s: Segment<P>)
    ensures
        s == (Segment { p0, p1 }),
{
    Segment { p0, p1 }
}

/// A quadratic Bézier curve.
#[derive(Debug, Clone, Copy, PartialEq)]
pub struct Quadratic<P> {
    pub p0: P,
    pub p1: P,
    pub p2: P,
}

/// Builds a quadratic curve from its control points.
pub fn quadratic<P>(p0: P, p1: P, p2: P) -> (q: Quadratic<P>)
    ensures
        q == (Quadratic { p0, p1, p2 }),
{
    Quadratic { p0, p1, p2 }
}

/// A cubic Bézier curve.
#[derive(Debug, Clone, Copy, PartialEq)]
pub struct Cubic<P> {
    pub p0: P,
    pub p1: P,
    pub p2: P,
    pub p3: P,
}

/// Builds a cubic curve from its control points.
pub fn cubic<P>(p0: P, p1: P, p2: P, p3: P) -> (c: Cubic<P>)
    ensures
        c == (Cubic { p0, p1, p2, p3 }),
{
    Cubic { p0, p1, p2, p3 }
}

/// One step of a path.
#[derive(Debug, Clone, Copy, PartialEq, Eq, Structural)]
pub enum Verb {
    BeginOpen,
    BeginClosed,
    Segment,
    Quadratic,
    Cubic,
    End,
}

/// Whether the verb is a curve.
pub open spec fn is_curve(v: Verb) -> bool {
    v == Verb::Segment || v == Verb::Quadratic || v == Verb::Cubic
}

/// The number of points stored for a verb.
pub open spec fn stored_points(v: Verb) -> nat {
    match v {
        Verb::BeginOpen | Verb::BeginClosed => 1,
        Verb::Segment => 1,
        Verb::Quadratic => 2,
        Verb::Cubic => 3,
        Verb::End => 0,
    }
}

/// Whether a scan is inside a sub-path after one more verb, or `None`
/// where the syntax is broken.
pub open spec fn step(inside: bool, v: Verb) -> Option<bool> {
    if !inside {
        if v == Verb::BeginOpen || v == Verb::BeginClosed {
            Some(true)
        } else {
            None
        }
    } else if is_curve(v) {
        Some(true)
    } else if v == Verb::End {
        Some(false)
    } else {
        None
    }
}

/// Whether a scan of `verbs` ends inside a sub-path, or `None` where they
/// break the syntax.
pub open spec fn nesting(verbs: Seq<Verb>) -> Option<bool>
    decreases verbs.len(),
{
    if verbs.len() == 0 {
        Some(false)
    } else {
        match nesting(verbs.drop_last()) {
            Some(s) => step(s, verbs.last()),
            None => None,
        }
    }
}

/// The number of points stored for `verbs`.
pub open spec fn point_total(verbs: Seq<Verb>) -> nat
    decreases verbs.len(),
{
    if verbs.len() == 0 {
        0
    } else {
        point_total(verbs.drop_last()) + stored_points(verbs.last())
    }
}

/// A well-formed path.
pub open spec fn path_wf(verbs: Seq<Verb>, n_points: nat) -> bool {
    &&& nesting(verbs) == Some(false)
    &&& n_points == point_total(verbs)
}

proof fn lemma_nesting_prefix(verbs: Seq<Verb>, i: int)
    requires
        nesting(verbs) is Some,
        0 <= i <= verbs.len(),
    ensures
        nesting(verbs.take(i)) is Some,
        point_total(verbs.take(i)) <= point_total(verbs),
    decreases verbs.len(),
{
    if i == verbs.len() {
        assert(verbs.take(i) =~= verbs);
    } else {
        let d = verbs.drop_last();
        assert(d.take(i) =~= verbs.take(i));
        lemma_nesting_prefix(d, i);
    }
}

proof fn lemma_inside_has_point(verbs: Seq<Verb>)
    requires
        nesting(verbs) == Some(true),
    ensures
        point_total(verbs) >= 1,
    decreases verbs.len(),
{
    let d = verbs.drop_last();
    if nesting(d) == Some(true) {
        lemma_inside_has_point(d);
    }
}

/// What holds at verb `i` of a well-formed path.
pub proof fn lemma_position(verbs: Seq<Verb>, n_points: nat, i: int)
    requires
        path_wf(verbs, n_points),
        0 <= i < verbs.len(),
    ensures
        nesting(verbs.take(i)) is Some,
        nesting(verbs.take(i + 1)) is Some,
        nesting(verbs.take(i + 1)) == step(nesting(verbs.take(i))->0, verbs[i]),
        point_total(verbs.take(i + 1)) == point_total(verbs.take(i)) + stored_points(verbs[i]),
        point_total(verbs.take(i + 1)) <= n_points,
        nesting(verbs.take(i)) == Some(true) ==> point_total(verbs.take(i)) >= 1,
{
    lemma_nesting_prefix(verbs, i);
    lemma_nesting_prefix(verbs, i + 1);
    let t = verbs.take(i + 1);
    assert(t.drop_last() =~= verbs.take(i));
    if nesting(verbs.take(i)) == Some(true) {
        lemma_inside_has_point(verbs.take(i));
    }
}

/// One event of a walk over a path.
#[derive(Debug, Clone, Copy, PartialEq)]
pub enum IterEvent<P> {
    /// First point, closed.
    Begin(P, bool),
    Segment(Segment<P>),
    Quadratic(Quadratic<P>),
    Cubic(Cubic<P>),
    /// Last point.
    End(P),
}

/// The event produced by verb `i`, read from point index `p` onwards, where
/// the previous point is `points[p - 1]`.
pub open spec fn event_at<P>(verbs: Seq<Verb>, points: Seq<P>, i: int, p: int) -> IterEvent<P> {
    match verbs[i] {
        Verb::BeginOpen => IterEvent::Begin(points[p], false),
        Verb::BeginClosed => IterEvent::Begin(points[p], true),
        Verb::Segment => IterEvent::Segment(Segment { p0: points[p - 1], p1: points[p] }),
        Verb::Quadratic => IterEvent::Quadratic(
            Quadratic { p0: points[p - 1], p1: points[p], p2: points[p + 1] },
        ),
        Verb::Cubic => IterEvent::Cubic(
            Cubic { p0: points[p - 1], p1: points[p], p2: points[p + 1], p3: points[p + 2] },
        ),
        Verb::End => IterEvent::End(points[p - 1]),
    }
}

/// A well-formed path that owns its verbs and points.
#[derive(Clone)]
pub struct Path<P> {
    verbs: Vec<Verb>,
    points: Vec<P>,
}

impl<P: Copy> Path<P> {
    /// The verbs of the path.
    pub closed spec fn verbs_view(&self) -> Seq<Verb> {
        self.verbs@
    }

    /// The points of the path.
    pub closed spec fn points_view(&self) -> Seq<P> {
        self.points@
    }

    /// The path is well-formed.
    pub open spec fn wf(&self) -> bool {
        path_wf(self.verbs_view(), self.points_view().len())
    }

    /// A path holding copies of `verbs` and `points`, which must have the
    /// path syntax.
    pub fn new(verbs: &[Verb], points: &[P]) -> (r: Path<P>)
        requires
            path_wf(verbs@, points@.len()),
        ensures
            r.wf(),
            r.verbs_view() == verbs@,
            r.points_view() == points@,
    {
        let mut vs: Vec<Verb> = Vec::new();
        let mut i: usize = 0;
        while i < verbs.len()
            invariant
                i <= verbs.len(),
                vs@ == verbs@.take(i as int),
            decreases verbs.len() - i,
        {
            vs.push(verbs[i]);
            i = i + 1;
            assert(vs@ =~= verbs@.take(i as int));
        }
        let mut ps: Vec<P> = Vec::new();
        let mut j: usize = 0;
        while j < points.len()
            invariant
                j <= points.len(),
                ps@ == points@.take(j as int),
            decreases points.len() - j,
        {
            ps.push(points[j]);
            j = j + 1;
            assert(ps@ =~= points@.take(j as int));
        }
        assert(vs@ =~= verbs@);
        assert(ps@ =~= points@);
        Path { verbs: vs, points: ps }
    }

    /// The verbs of the path.
    pub fn verbs(&self) -> (r: &[Verb])
        ensures
            r@ == self.verbs_view(),
    {
        self.verbs.as_slice()
    }

    /// The points of the path.
    pub fn points(&self) -> (r: &[P])
        ensures
            r@ == self.points_view(),
    {
        self.points.as_slice()
    }

    /// A cursor at the start of the path.
    pub fn iter(&self) -> (it: Iter<'_, P>)
        requires
            self.wf(),
        ensures
            it.wf(),
            it.verbs_view() == self.verbs_view(),
            it.points_view() == self.points_view(),
            it.verb_index() == 0,
    {
        Iter::new(self)
    }
}

/// A forward cursor over a path.
pub struct Iter<'p, P> {
    verbs: &'p [Verb],
    points: &'p [P],
    verb: usize,
    point: usize,
    p0: Option<P>,
}

impl<'p, P: Copy> Iter<'p, P> {
    /// The verbs of the path walked.
    pub closed spec fn verbs_view(&self) -> Seq<Verb> {
        self.verbs@
    }

    /// The points of the path walked.
    pub closed spec fn points_view(&self) -> Seq<P> {
        self.points@
    }

    /// How many verbs lie before the cursor.
    pub closed spec fn verb_index(&self) -> int {
        self.verb as int
    }

    /// How many points lie before the cursor.
    pub closed spec fn point_index(&self) -> int {
        self.point as int
    }

    /// The last point passed, where one was.
    pub closed spec fn last_point(&self) -> Option<P> {
        self.p0
    }

    /// The cursor stands on a well-formed path, at the point index that
    /// belongs to its verb index, and remembers the last point it passed
    /// inside a sub-path.
    pub open spec fn wf(&self) -> bool {
        let v = self.verbs_view();
        let i = self.verb_index();
        &&& path_wf(v, self.points_view().len())
        &&& 0 <= i <= v.len()
        &&& self.point_index() == point_total(v.take(i))
        &&& nesting(v.take(i)) == Some(true) ==> self.point_index() >= 1 && self.last_point()
            == Some(self.points_view()[self.point_index() - 1])
    }

    /// A cursor at the start of `path`.
    pub fn new(path: &'p Path<P>) -> (it: Iter<'p, P>)
        requires
            path.wf(),
        ensures
            it.wf(),
            it.verbs_view() == path.verbs_view(),
            it.points_view() == path.points_view(),
            it.verb_index() == 0,
    {
        let it = Iter { verbs: path.verbs(), points: path.points(), verb: 0, point: 0, p0: None };
        assert(it.verbs@.take(0) =~= Seq::<Verb>::empty());
        it
    }

    /// Whether a verb lies after the cursor.
    pub fn has_next(&self) -> (r: bool)
        ensures
            r == (self.verb_index() < self.verbs_view().len()),
    {
        self.verb < self.verbs.len()
    }

    /// Moves over the next verb and returns its event; `None` at the end.
    pub fn next(&mut self) -> (r: Option<IterEvent<P>>)
        requires
            old(self).wf(),
        ensures
            final(self).wf(),
            final(self).verbs_view() == old(self).verbs_view(),
            final(self).points_view() == old(self).points_view(),
            old(self).verb_index() < old(self).verbs_view().len() ==> {
                &&& r == Some(
                    event_at(
                        old(self).verbs_view(),
                        old(self).points_view(),
                        old(self).verb_index(),
                        old(self).point_index(),
                    ),
                )
                &&& final(self).verb_index() == old(self).verb_index() + 1
                &&& final(self).point_index() == old(self).point_index() + stored_points(
                    old(self).verbs_view()[old(self).verb_index()],
                )
            },
            old(self).verb_index() >= old(self).verbs_view().len() ==> r is None
                && final(self).verb_index() == old(self).verb_index(),
    {
        if !self.has_next() {
            return None;
        }
        let ghost v = self.verbs@;
        let ghost i = self.verb as int;
        proof {
            lemma_position(self.verbs@, self.points@.len(), self.verb as int);
            let t = v.take(i + 1);
            assert(t.drop_last() =~= v.take(i));
        }
        let verb = self.verbs[self.verb];
        let p = self.point;
        let points = self.points;
        let result = match verb {
            Verb::BeginOpen | Verb::BeginClosed => {
                let p0 = points[p];
                self.point = p + 1;
                self.p0 = Some(p0);
                IterEvent::Begin(p0, verb == Verb::BeginClosed)
            },
            Verb::Segment => {
                let p0 = self.p0.unwrap();
                let p1 = points[p];
                self.point = p + 1;
                self.p0 = Some(p1);
                IterEvent::Segment(segment(p0, p1))
            },
            Verb::Quadratic => {
                let p0 = self.p0.unwrap();
                let p1 = points[p];
                let p2 = points[p + 1];
                self.point = p + 2;
                self.p0 = Some(p2);
                IterEvent::Quadratic(quadratic(p0, p1, p2))
            },
            Verb::Cubic => {
                let p0 = self.p0.unwrap();
                let p1 = points[p];
                let p2 = points[p + 1];
                let p3 = points[p + 2];
                self.point = p + 3;
                self.p0 = Some(p3);
                IterEvent::Cubic(cubic(p0, p1, p2, p3))
            },
            Verb::End => IterEvent::End(self.p0.unwrap()),
        };
        self.verb = self.verb + 1;
        Some(result)
    }
}

/// Builds a path sub-path by sub-path.
pub struct PathBuilder<P> {
    verbs: Vec<Verb>,
    points: Vec<P>,
    in_path: bool,
    begin_point: Option<P>,
    begin_verb: usize,
}

impl<P: Copy> PathBuilder<P> {
    /// The verbs pushed so far.
    pub closed spec fn verbs_view(&self) -> Seq<Verb> {
        self.verbs@
    }

    /// The points pushed so far.
    pub closed spec fn points_view(&self) -> Seq<P> {
        self.points@
    }

    /// Whether a sub-path is open for more curves.
    pub closed spec fn in_path_view(&self) -> bool {
        self.in_path
    }

    /// The index of the begin verb of the current sub-path.
    pub closed spec fn begin_verb_view(&self) -> int {
        self.begin_verb as int
    }

    /// The first point of the current sub-path.
    pub closed spec fn begin_point_view(&self) -> P {
        self.begin_point->0
    }

    /// Whether a begin point is recorded.
    pub closed spec fn begin_point_known(&self) -> bool {
        self.begin_point is Some
    }

    /// The builder's state is consistent: complete sub-paths, then, while a
    /// sub-path is open, an open begin verb and curves, with the points the
    /// verbs call for; the begin point is the point of the current begin verb.
    pub open spec fn wf(&self) -> bool {
        let v = self.verbs_view();
        &&& nesting(v) == Some(self.in_path_view())
        &&& self.points_view().len() == point_total(v)
        &&& self.in_path_view() ==> {
            &&& self.begin_point_known()
            &&& 0 <= self.begin_verb_view() < v.len()
            &&& v[self.begin_verb_view()] == Verb::BeginOpen
            &&& nesting(v.take(self.begin_verb_view())) == Some(false)
            &&& forall|j: int| self.begin_verb_view() < j < v.len() ==> is_curve(#[trigger] v[j])
            &&& point_total(v.take(self.begin_verb_view())) < self.points_view().len()
            &&& self.begin_point_view() == self.points_view()[point_total(
                v.take(self.begin_verb_view()),
            ) as int]
        }
    }

    /// An empty builder.
    pub fn new() -> (b: PathBuilder<P>)
        ensures
            b.wf(),
            b.verbs_view() == Seq::<Verb>::empty(),
            b.points_view() == Seq::<P>::empty(),
            !b.in_path_view(),
    {
        PathBuilder {
            verbs: Vec::new(),
            points: Vec::new(),
            in_path: false,
            begin_point: None,
            begin_verb: usize::MAX,
        }
    }

    /// Whether a sub-path is open.
    pub fn in_path(&self) -> (r: bool)
        ensures
            r == self.in_path_view(),
    {
        self.in_path
    }

    /// The last point of the open sub-path.
    pub fn last_point(&self) -> (r: P)
        requires
            self.wf(),
            self.in_path_view(),
        ensures
            r == self.points_view().last(),
    {
        self.points[self.points.len() - 1]
    }

    /// Removes everything built so far.
    pub fn clear(&mut self)
        ensures
            final(self).wf(),
            final(self).verbs_view() == Seq::<Verb>::empty(),
            final(self).points_view() == Seq::<P>::empty(),
            !final(self).in_path_view(),
    {
        self.verbs.clear();
        self.points.clear();
        self.in_path = false;
        self.begin_point = None;
        self.begin_verb = usize::MAX;
    }

    fn end_path(&mut self)
        requires
            old(self).wf(),
            old(self).in_path_view(),
            old(self).verbs_view().len() < usize::MAX,
        ensures
            final(self).wf(),
            !final(self).in_path_view(),
            final(self).verbs_view() == old(self).verbs_view().push(Verb::End),
            final(self).points_view() == old(self).points_view(),
    {
        proof {
            assert(self.verbs@.push(Verb::End).drop_last() =~= self.verbs@);
        }
        self.verbs.push(Verb::End);
        self.in_path = false;
        self.begin_verb = usize::MAX;
    }

    /// Ends any open sub-path and returns a copy of the path built so far;
    /// the builder keeps its contents.
    pub fn build(&mut self) -> (r: Path<P>)
        requires
            old(self).wf(),
            old(self).verbs_view().len() + 1 <= usize::MAX,
        ensures
            r.wf(),
            r.verbs_view() == if old(self).in_path_view() {
                old(self).verbs_view().push(Verb::End)
            } else {
                old(self).verbs_view()
            },
            r.points_view() == old(self).points_view(),
            final(self).wf(),
            !final(self).in_path_view(),
            final(self).verbs_view() == r.verbs_view(),
            final(self).points_view() == r.points_view(),
    {
        if self.in_path {
            self.end_path();
        }
        Path::new(self.verbs.as_slice(), self.points.as_slice())
    }

    /// Starts a new sub-path at `p0`, ending an open one first.
    pub fn move_to(&mut self, p0: P)
        requires
            old(self).wf(),
            old(self).verbs_view().len() + 2 <= usize::MAX,
            old(self).points_view().len() + 1 <= usize::MAX,
        ensures
            final(self).wf(),
            final(self).in_path_view(),
            final(self).verbs_view() == (if old(self).in_path_view() {
                old(self).verbs_view().push(Verb::End)
            } else {
                old(self).verbs_view()
            }).push(Verb::BeginOpen),
            final(self).points_view() == old(self).points_view().push(p0),
            final(self).begin_point_view() == p0,
    {
        if self.in_path {
            self.end_path();
        }
        let ghost v0 = self.verbs@;
        proof {
            assert(v0.push(Verb::BeginOpen).drop_last() =~= v0);
            assert(v0.push(Verb::BeginOpen).take(v0.len() as int) =~= v0);
        }
        self.verbs.push(Verb::BeginOpen);
        self.points.push(p0);
        self.in_path = true;
        self.begin_point = Some(p0);
        self.begin_verb = self.verbs.len() - 1;
    }

    fn push_curve(&mut self, verb: Verb)
        requires
            old(self).wf(),
            old(self).in_path_view(),
            is_curve(verb),
            old(self).verbs_view().len() + 1 <= usize::MAX,
        ensures
            final(self).verbs_view() == old(self).verbs_view().push(verb),
            final(self).points_view() == old(self).points_view(),
            final(self).in_path_view(),
            final(self).begin_verb_view() == old(self).begin_verb_view(),
            final(self).begin_point_view() == old(self).begin_point_view(),
            final(self).begin_point_known() == old(self).begin_point_known(),
            nesting(final(self).verbs_view()) == Some(true),
            point_total(final(self).verbs_view()) == point_total(old(self).verbs_view())
                + stored_points(verb),
            forall|j: int|
                final(self).begin_verb_view() < j < final(self).verbs_view().len() ==> is_curve(
                    #[trigger] final(self).verbs_view()[j],
                ),
            final(self).verbs_view().take(final(self).begin_verb_view()) == old(
                self,
            ).verbs_view().take(old(self).begin_verb_view()),
    {
        let ghost v0 = self.verbs@;
        proof {
            assert(v0.push(verb).drop_last() =~= v0);
            assert(v0.push(verb).take(self.begin_verb as int) =~= v0.take(self.begin_verb as int));
        }
        self.verbs.push(verb);
    }

    /// Adds a segment from the last point to `p1`.
    pub fn segment_to(&mut self, p1: P)
        requires
            old(self).wf(),
            old(self).in_path_view(),
            old(self).verbs_view().len() + 1 <= usize::MAX,
            old(self).points_view().len() + 1 <= usize::MAX,
        ensures
            final(self).wf(),
            final(self).in_path_view(),
            final(self).verbs_view() == old(self).verbs_view().push(Verb::Segment),
            final(self).points_view() == old(self).points_view().push(p1),
            final(self).begin_point_view() == old(self).begin_point_view(),
            final(self).begin_verb_view() == old(self).begin_verb_view(),
    {
        self.push_curve(Verb::Segment);
        self.points.push(p1);
    }

    /// Adds a quadratic curve from the last point over `p1` to `p2`.
    pub fn quadratic_to(&mut self, p1: P, p2: P)
        requires
            old(self).wf(),
            old(self).in_path_view(),
            old(self).verbs_view().len() + 1 <= usize::MAX,
            old(self).points_view().len() + 2 <= usize::MAX,
        ensures
            final(self).wf(),
            final(self).in_path_view(),
            final(self).verbs_view() == old(self).verbs_view().push(Verb::Quadratic),
            final(self).points_view() == old(self).points_view().push(p1).push(p2),
            final(self).begin_point_view() == old(self).begin_point_view(),
            final(self).begin_verb_view() == old(self).begin_verb_view(),
    {
        self.push_curve(Verb::Quadratic);
        self.points.push(p1);
        self.points.push(p2);
    }

    /// Adds a cubic curve from the last point over `p1` and `p2` to `p3`.
    pub fn cubic_to(&mut self, p1: P, p2: P, p3: P)
        requires
            old(self).wf(),
            old(self).in_path_view(),
            old(self).verbs_view().len() + 1 <= usize::MAX,
            old(self).points_view().len() + 3 <= usize::MAX,
        ensures
            final(self).wf(),
            final(self).in_path_view(),
            final(self).verbs_view() == old(self).verbs_view().push(Verb::Cubic),
            final(self).points_view() == old(self).points_view().push(p1).push(p2).push(p3),
            final(self).begin_point_view() == old(self).begin_point_view(),
            final(self).begin_verb_view() == old(self).begin_verb_view(),
    {
        self.push_curve(Verb::Cubic);
        self.points.push(p1);
        self.points.push(p2);
        self.points.push(p3);
    }
}

proof fn lemma_inside_run(v: Seq<Verb>, b: int, n: int)
    requires
        0 <= b < n <= v.len(),
        nesting(v.take(b)) == Some(false),
        v[b] == Verb::BeginOpen || v[b] == Verb::BeginClosed,
        forall|j: int| b < j < n ==> is_curve(#[trigger] v[j]),
    ensures
        nesting(v.take(n)) == Some(true),
    decreases n - b,
{
    assert(v.take(n).drop_last() =~= v.take(n - 1));
    if n > b + 1 {
        lemma_inside_run(v, b, n - 1);
    }
}

proof fn lemma_point_total_update(v: Seq<Verb>, b: int, x: Verb)
    requires
        0 <= b < v.len(),
    ensures
        point_total(v.update(b, x)) + stored_points(v[b]) == point_total(v) + stored_points(x),
    decreases v.len(),
{
    let u = v.update(b, x);
    if b == v.len() - 1 {
        assert(u.drop_last() =~= v.drop_last());
    } else {
        assert(u.drop_last() =~= v.drop_last().update(b, x));
        lemma_point_total_update(v.drop_last(), b, x);
    }
}

impl<P: Copy + PartialEq> PathBuilder<P> {
    /// Closes the open sub-path: adds a segment back to its first point
    /// unless the last point equals it, marks the sub-path closed and ends it.
    pub fn close(&mut self)
        requires
            old(self).wf(),
            old(self).in_path_view(),
            old(self).verbs_view().len() + 2 <= usize::MAX,
            old(self).points_view().len() + 1 <= usize::MAX,
        ensures
            final(self).wf(),
            !final(self).in_path_view(),
            ({
                let added = final(self).points_view().len() == old(self).points_view().len() + 1;
                let v0 = if added {
                    old(self).verbs_view().push(Verb::Segment)
                } else {
                    old(self).verbs_view()
                };
                &&& final(self).points_view() == (if added {
                    old(self).points_view().push(old(self).begin_point_view())
                } else {
                    old(self).points_view()
                })
                &&& final(self).verbs_view() == v0.update(
                    old(self).begin_verb_view(),
                    Verb::BeginClosed,
                ).push(Verb::End)
                &&& P::obeys_eq_spec() ==> (added <==> !old(self).points_view().last().eq_spec(
                    &old(self).begin_point_view(),
                ))
            }),
            P::obeys_eq_spec() ==> {
                let last = final(self).points_view().last();
                last == old(self).begin_point_view() || last.eq_spec(&old(self).begin_point_view())
            },
    {
        let bp = self.begin_point.unwrap();
        let last = self.points[self.points.len() - 1];
        if last != bp {
            self.segment_to(bp);
        }
        let ghost v0 = self.verbs@;
        let b = self.begin_verb;
        proof {
            let u = v0.update(b as int, Verb::BeginClosed);
            assert(u.take(b as int) =~= v0.take(b as int));
            lemma_inside_run(u, b as int, u.len() as int);
            assert(u.take(u.len() as int) =~= u);
            lemma_point_total_update(v0, b as int, Verb::BeginClosed);
            assert(u.push(Verb::End).drop_last() =~= u);
        }
        self.verbs.set(b, Verb::BeginClosed);
        self.verbs.push(Verb::End);
        self.in_path = false;
        self.begin_verb = usize::MAX;
    }
}

} // verus!
