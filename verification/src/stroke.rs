//! Assembling a stroke outline from the curves offset to either side of a
//! path.
//!
//! The offset curves themselves are computed on floating-point coordinates
//! outside this crate; they arrive here as two lists of lines and quadratic
//! curves, the left side in path order and the right side in path order too.
//! The outline walks the left side forwards and the right side backwards,
//! joining pieces that do not meet with a straight (bevel) line.
use vstd::prelude::*;
use vstd::std_specs::cmp::PartialEqSpec;
use crate::geometry::{Line, Quad};
use crate::path::{Verb, BuilderModel, PathBuilder, RawPathBuilder, PathBuf, model_line_to, model_quad_to, model_move_to, model_close, ended};

verus! {

/// The number of points a side list stores for a verb: both end points of a
/// line, all three points of a quadratic curve.
pub open spec fn side_points(v: Verb) -> nat {
    match v {
        Verb::Line => 2,
        Verb::Quad => 3,
        _ => 0,
    }
}

/// The number of points stored for `verbs` in a side list.
pub open spec fn side_total(verbs: Seq<Verb>) -> nat
    decreases verbs.len(),
{
    if verbs.len() == 0 {
        0
    } else {
        side_total(verbs.drop_last()) + side_points(verbs.last())
    }
}

/// A side list holds lines and quadratic curves only, with their points.
pub open spec fn side_wf(verbs: Seq<Verb>, n_points: nat) -> bool {
    &&& forall|i: int| 0 <= i < verbs.len() ==> (#[trigger] verbs[i] == Verb::Line || verbs[i] == Verb::Quad)
    &&& n_points == side_total(verbs)
}

proof fn lemma_side_prefix(verbs: Seq<Verb>, i: int)
    requires
        0 <= i < verbs.len(),
    ensures
        side_total(verbs.take(i + 1)) == side_total(verbs.take(i)) + side_points(verbs[i]),
        side_total(verbs.take(i + 1)) <= side_total(verbs),
    decreases verbs.len(),
{
    let t = verbs.take(i + 1);
    assert(t.drop_last() =~= verbs.take(i));
    if i + 1 == verbs.len() {
        assert(t =~= verbs);
    } else {
        let d = verbs.drop_last();
        assert(d.take(i + 1) =~= t);
        assert(d.take(i) =~= verbs.take(i));
        lemma_side_prefix(d, i);
    }
}

/// Continues the outline at `p0`: the first piece starts a sub-path, a later
/// piece that does not start where the previous one ended gets a joining line.
pub open spec fn join<P: PartialEq>(m: BuilderModel<P>, prev: Option<P>, p0: P) -> BuilderModel<P> {
    match prev {
        Some(q) => if !p0.eq_spec(&q) {
            model_line_to(m, p0)
        } else {
            m
        },
        None => model_move_to(m, p0),
    }
}

/// Adds one piece running `p0`, `p1`(, `p2`) to the outline; returns the new
/// state and the piece's end point.
pub open spec fn add_piece<P: PartialEq>(
    m: BuilderModel<P>,
    prev: Option<P>,
    v: Verb,
    p0: P,
    p1: P,
    p2: P,
) -> (BuilderModel<P>, Option<P>) {
    let j = join(m, prev, p0);
    if v == Verb::Line {
        (model_line_to(j, p1), Some(p1))
    } else {
        (model_quad_to(j, p1, p2), Some(p2))
    }
}

/// The outline after the first `k` pieces of the left side, walked forwards.
pub open spec fn left_walk<P: PartialEq>(
    m: BuilderModel<P>,
    prev: Option<P>,
    verbs: Seq<Verb>,
    points: Seq<P>,
    k: nat,
) -> (BuilderModel<P>, Option<P>)
    decreases k,
{
    if k == 0 {
        (m, prev)
    } else {
        let (m1, pr1) = left_walk(m, prev, verbs, points, (k - 1) as nat);
        let o = side_total(verbs.take(k - 1)) as int;
        add_piece(m1, pr1, verbs[k - 1], points[o], points[o + 1], points[o + 2])
    }
}

/// The outline after the last `j` pieces of the right side, walked backwards.
pub open spec fn right_walk<P: PartialEq>(
    m: BuilderModel<P>,
    prev: Option<P>,
    verbs: Seq<Verb>,
    points: Seq<P>,
    j: nat,
) -> (BuilderModel<P>, Option<P>)
    decreases j,
{
    if j == 0 {
        (m, prev)
    } else {
        let (m1, pr1) = right_walk(m, prev, verbs, points, (j - 1) as nat);
        let k = verbs.len() - j;
        let o = side_total(verbs.take(k)) as int;
        if verbs[k] == Verb::Line {
            add_piece(m1, pr1, verbs[k], points[o + 1], points[o], points[o])
        } else {
            add_piece(m1, pr1, verbs[k], points[o + 2], points[o + 1], points[o])
        }
    }
}

/// The first point of piece `k` of a side list.
pub open spec fn piece_start<P>(verbs: Seq<Verb>, points: Seq<P>, k: int) -> P {
    points[side_total(verbs.take(k)) as int]
}

/// The last point of piece `k` of a side list.
pub open spec fn piece_end<P>(verbs: Seq<Verb>, points: Seq<P>, k: int) -> P {
    points[side_total(verbs.take(k + 1)) - 1]
}

/// Consecutive pieces of a side meet: each piece starts where the one
/// before it ends, by the point type's equality read either way.
pub open spec fn side_connected<P: PartialEq>(verbs: Seq<Verb>, points: Seq<P>) -> bool {
    forall|k: int|
        0 <= k < verbs.len() - 1 ==> (#[trigger] piece_end(verbs, points, k)).eq_spec(
            &piece_start(verbs, points, k + 1),
        ) && piece_start(verbs, points, k + 1).eq_spec(&piece_end(verbs, points, k))
}

proof fn lemma_left_walk_prefix<P: PartialEq>(
    m: BuilderModel<P>,
    verbs: Seq<Verb>,
    points: Seq<P>,
    k: nat,
)
    requires
        side_wf(verbs, points.len()),
        side_connected(verbs, points),
        1 <= k <= verbs.len(),
    ensures
        ({
            let (m1, prev) = left_walk(m, None, verbs, points, k);
            &&& m1.verbs == ended(m.verbs, m.in_path).push(Verb::BeginOpen) + verbs.take(k as int)
            &&& m1.points.len() == m.points.len() + 1 + side_total(verbs.take(k as int)) - k
            &&& prev == Some(piece_end(verbs, points, k - 1))
            &&& m1.in_path
        }),
    decreases k,
{
    let i = k - 1;
    lemma_side_prefix(verbs, i);
    assert(verbs.take(i + 1) =~= verbs.take(i).push(verbs[i]));
    if k == 1 {
        assert(verbs.take(0) =~= Seq::<Verb>::empty());
        assert(ended(m.verbs, m.in_path).push(Verb::BeginOpen) + verbs.take(0) =~= ended(
            m.verbs,
            m.in_path,
        ).push(Verb::BeginOpen));
    } else {
        lemma_left_walk_prefix(m, verbs, points, (k - 1) as nat);
        let (m1, pr1) = left_walk(m, None, verbs, points, (k - 1) as nat);
        assert(piece_start(verbs, points, i).eq_spec(&piece_end(verbs, points, i - 1)));
        assert(m1.verbs.push(verbs[i]) =~= ended(m.verbs, m.in_path).push(Verb::BeginOpen)
            + verbs.take(k as int));
    }
}

proof fn lemma_right_walk_suffix<P: PartialEq>(
    m: BuilderModel<P>,
    verbs: Seq<Verb>,
    points: Seq<P>,
    j: nat,
)
    requires
        side_wf(verbs, points.len()),
        side_connected(verbs, points),
        1 <= j <= verbs.len(),
    ensures
        ({
            let n = verbs.len() as int;
            let (m1, prev) = right_walk(m, None, verbs, points, j);
            &&& m1.verbs == ended(m.verbs, m.in_path).push(Verb::BeginOpen) + verbs.subrange(
                n - j,
                n,
            ).reverse()
            &&& m1.points.len() == m.points.len() + 1 + (side_total(verbs) - side_total(
                verbs.take(n - j),
            )) - j
            &&& prev == Some(piece_start(verbs, points, n - j))
            &&& m1.in_path
        }),
    decreases j,
{
    let n = verbs.len() as int;
    let k = n - j;
    lemma_side_prefix(verbs, k);
    assert(verbs.subrange(k, n).reverse() =~= verbs.subrange(k + 1, n).reverse().push(verbs[k]));
    if j == 1 {
        assert(verbs.subrange(k + 1, n).reverse() =~= Seq::<Verb>::empty());
        assert(verbs.take(k + 1) =~= verbs);
    } else {
        lemma_right_walk_suffix(m, verbs, points, (j - 1) as nat);
        assert(piece_end(verbs, points, k).eq_spec(&piece_start(verbs, points, k + 1)));
    }
}

/// One more piece of the left side: where the piece starts on the end of
/// the previous one, only the piece is added; otherwise a line to its start
/// comes first. The walk then stands at the piece's end.
pub proof fn lemma_left_walk_step<P: PartialEq>(
    m: BuilderModel<P>,
    prev: Option<P>,
    verbs: Seq<Verb>,
    points: Seq<P>,
    k: nat,
)
    requires
        side_wf(verbs, points.len()),
        k < verbs.len(),
        left_walk(m, prev, verbs, points, k).1 is Some,
    ensures
        ({
            let (m1, p1) = left_walk(m, prev, verbs, points, k);
            let (m2, p2) = left_walk(m, prev, verbs, points, k + 1);
            let o = side_total(verbs.take(k as int)) as int;
            let st = piece_start(verbs, points, k as int);
            let meets = st.eq_spec(&p1->0);
            &&& m2.verbs == (if meets {
                m1.verbs
            } else {
                m1.verbs.push(Verb::Line)
            }).push(verbs[k as int])
            &&& m2.points == (if meets {
                m1.points
            } else {
                m1.points.push(st)
            }) + (if verbs[k as int] == Verb::Line {
                seq![points[o + 1]]
            } else {
                seq![points[o + 1], points[o + 2]]
            })
            &&& p2 == Some(piece_end(verbs, points, k as int))
        }),
{
    lemma_side_prefix(verbs, k as int);
    let (m1, p1) = left_walk(m, prev, verbs, points, k);
    let o = side_total(verbs.take(k as int)) as int;
    let st = piece_start(verbs, points, k as int);
    let base = if st.eq_spec(&p1->0) {
        m1.points
    } else {
        m1.points.push(st)
    };
    assert(base.push(points[o + 1]) =~= base + seq![points[o + 1]]);
    assert(base.push(points[o + 1]).push(points[o + 2]) =~= base + seq![points[o + 1], points[o + 2]]);
}

/// One more piece of the right side, walked backwards from its last point:
/// where the piece's last point is the previous piece's first, only the
/// piece is added, reversed; otherwise a line to its last point comes first.
/// The walk then stands at the piece's first point.
pub proof fn lemma_right_walk_step<P: PartialEq>(
    m: BuilderModel<P>,
    prev: Option<P>,
    verbs: Seq<Verb>,
    points: Seq<P>,
    j: nat,
)
    requires
        side_wf(verbs, points.len()),
        j < verbs.len(),
        right_walk(m, prev, verbs, points, j).1 is Some,
    ensures
        ({
            let (m1, p1) = right_walk(m, prev, verbs, points, j);
            let (m2, p2) = right_walk(m, prev, verbs, points, j + 1);
            let k = verbs.len() - j - 1;
            let o = side_total(verbs.take(k)) as int;
            let en = piece_end(verbs, points, k);
            let meets = en.eq_spec(&p1->0);
            &&& m2.verbs == (if meets {
                m1.verbs
            } else {
                m1.verbs.push(Verb::Line)
            }).push(verbs[k])
            &&& m2.points == (if meets {
                m1.points
            } else {
                m1.points.push(en)
            }) + (if verbs[k] == Verb::Line {
                seq![points[o]]
            } else {
                seq![points[o + 1], points[o]]
            })
            &&& p2 == Some(piece_start(verbs, points, k))
        }),
{
    let k = verbs.len() - j - 1;
    lemma_side_prefix(verbs, k);
    let (m1, p1) = right_walk(m, prev, verbs, points, j);
    let o = side_total(verbs.take(k)) as int;
    let en = piece_end(verbs, points, k);
    let base = if en.eq_spec(&p1->0) {
        m1.points
    } else {
        m1.points.push(en)
    };
    assert(base.push(points[o]) =~= base + seq![points[o]]);
    assert(base.push(points[o + 1]).push(points[o]) =~= base + seq![points[o + 1], points[o]]);
}

/// Walking a side whose consecutive pieces meet adds no joining line: the
/// left side walked forwards starts one sub-path and then adds exactly its
/// pieces in order, the right side walked backwards starts one sub-path and
/// adds exactly its pieces in reverse order. One point starts the sub-path
/// and each piece adds its points after its first; the walk stops at the
/// left side's last point, or at the right side's first point.
pub proof fn lemma_connected_sides_walk<P: PartialEq>(
    m: BuilderModel<P>,
    lv: Seq<Verb>,
    lp: Seq<P>,
    rv: Seq<Verb>,
    rp: Seq<P>,
)
    requires
        side_wf(lv, lp.len()),
        side_connected(lv, lp),
        side_wf(rv, rp.len()),
        side_connected(rv, rp),
    ensures
        lv.len() > 0 ==> {
            let (m1, prev) = left_walk(m, None, lv, lp, lv.len());
            &&& m1.verbs == ended(m.verbs, m.in_path).push(Verb::BeginOpen) + lv
            &&& m1.points.len() == m.points.len() + 1 + side_total(lv) - lv.len()
            &&& prev == Some(piece_end(lv, lp, lv.len() - 1))
        },
        rv.len() > 0 ==> {
            let (m1, prev) = right_walk(m, None, rv, rp, rv.len());
            &&& m1.verbs == ended(m.verbs, m.in_path).push(Verb::BeginOpen) + rv.reverse()
            &&& m1.points.len() == m.points.len() + 1 + side_total(rv) - rv.len()
            &&& prev == Some(piece_start(rv, rp, 0))
        },
{
    if lv.len() > 0 {
        lemma_left_walk_prefix(m, lv, lp, lv.len());
        assert(lv.take(lv.len() as int) =~= lv);
    }
    if rv.len() > 0 {
        lemma_right_walk_suffix(m, rv, rp, rv.len());
        assert(rv.subrange(0, rv.len() as int) =~= rv);
        assert(rv.take(0) =~= Seq::<Verb>::empty());
    }
}

/// The outline after one sub-path's sides have been added to `m`.
pub open spec fn outline<P: PartialEq>(
    m: BuilderModel<P>,
    lv: Seq<Verb>,
    lp: Seq<P>,
    rv: Seq<Verb>,
    rp: Seq<P>,
    closed: bool,
) -> BuilderModel<P> {
    let (m1, prev1) = left_walk(m, None, lv, lp, lv.len());
    let m2 = if closed {
        model_close(m1)
    } else {
        m1
    };
    let prev2 = if closed {
        None
    } else {
        prev1
    };
    let (m3, prev3) = right_walk(m2, prev2, rv, rp, rv.len());
    if lv.len() > 0 || rv.len() > 0 {
        model_close(m3)
    } else {
        m3
    }
}

/// Whether every close the outline makes finds an open sub-path: a closed
/// sub-path needs a left side or an open outline, and the final close needs
/// the right side or an outline left open.
pub open spec fn outline_closable(builder_in_path: bool, nl: nat, nr: nat, closed: bool) -> bool {
    let after_left = nl > 0 || builder_in_path;
    let after_close = if closed {
        false
    } else {
        after_left
    };
    let after_right = nr > 0 || after_close;
    &&& closed ==> after_left
    &&& (nl > 0 || nr > 0) ==> after_right
}

/// The builders of a stroke: the outline being built and the two side lists
/// of the current sub-path.
pub struct Stroker<P> {
    pub pb: PathBuilder<P>,
    pub pbl: RawPathBuilder<P>,
    pub pbr: RawPathBuilder<P>,
}

impl<P: Copy + PartialEq> Stroker<P> {
    /// An empty outline and empty sides.
    pub fn new() -> (s: Stroker<P>)
        ensures
            s.pb.wf(),
            s.pb.verbs_view() == Seq::<Verb>::empty(),
            s.pb.points_view() == Seq::<P>::empty(),
            !s.pb.in_path_view(),
            s.pbl.verbs@ == Seq::<Verb>::empty(),
            s.pbl.points@ == Seq::<P>::empty(),
            s.pbr.verbs@ == Seq::<Verb>::empty(),
            s.pbr.points@ == Seq::<P>::empty(),
    {
        Stroker { pb: PathBuilder::new(), pbl: RawPathBuilder::new(), pbr: RawPathBuilder::new() }
    }

    /// Records a line offset to the left and its counterpart offset to the right.
    pub fn push_line_pair(&mut self, left: Line<P>, right: Line<P>)
        ensures
            final(self).pb == old(self).pb,
            final(self).pbl.verbs@ == old(self).pbl.verbs@.push(Verb::Line),
            final(self).pbl.points@ == old(self).pbl.points@.push(left.p0).push(left.p1),
            final(self).pbr.verbs@ == old(self).pbr.verbs@.push(Verb::Line),
            final(self).pbr.points@ == old(self).pbr.points@.push(right.p0).push(right.p1),
    {
        self.pbl.verbs.push(Verb::Line);
        self.pbl.points.push(left.p0);
        self.pbl.points.push(left.p1);
        self.pbr.verbs.push(Verb::Line);
        self.pbr.points.push(right.p0);
        self.pbr.points.push(right.p1);
    }

    /// Records a quadratic curve offset to the left.
    pub fn push_left_quad(&mut self, q: Quad<P>)
        ensures
            final(self).pb == old(self).pb,
            final(self).pbr == old(self).pbr,
            final(self).pbl.verbs@ == old(self).pbl.verbs@.push(Verb::Quad),
            final(self).pbl.points@ == old(self).pbl.points@.push(q.p0).push(q.p1).push(q.p2),
    {
        self.pbl.verbs.push(Verb::Quad);
        self.pbl.points.push(q.p0);
        self.pbl.points.push(q.p1);
        self.pbl.points.push(q.p2);
    }

    /// Records a quadratic curve offset to the right.
    pub fn push_right_quad(&mut self, q: Quad<P>)
        ensures
            final(self).pb == old(self).pb,
            final(self).pbl == old(self).pbl,
            final(self).pbr.verbs@ == old(self).pbr.verbs@.push(Verb::Quad),
            final(self).pbr.points@ == old(self).pbr.points@.push(q.p0).push(q.p1).push(q.p2),
    {
        self.pbr.verbs.push(Verb::Quad);
        self.pbr.points.push(q.p0);
        self.pbr.points.push(q.p1);
        self.pbr.points.push(q.p2);
    }
}


fn add_piece_exec<P: Copy + PartialEq>(
    pb: &mut PathBuilder<P>,
    prev: Option<P>,
    v: Verb,
    p0: P,
    p1: P,
    p2: P,
) -> (r: Option<P>)
    requires
        old(pb).wf(),
        v == Verb::Line || v == Verb::Quad,
        prev is Some ==> old(pb).in_path_view(),
        old(pb).verbs_view().len() + 3 <= usize::MAX,
        old(pb).points_view().len() + 3 <= usize::MAX,
    ensures
        final(pb).wf(),
        final(pb).in_path_view(),
        r is Some,
        final(pb).verbs_view().len() <= old(pb).verbs_view().len() + 3,
        final(pb).points_view().len() <= old(pb).points_view().len() + 3,
        P::obeys_eq_spec() ==> (final(pb).model(), r) == add_piece(
            old(pb).model(),
            prev,
            v,
            p0,
            p1,
            p2,
        ),
{
    match prev {
        Some(q) => {
            if p0 != q {
                // bevel join.
                pb.line_to(p0);
            }
        },
        None => {
            pb.move_to(p0);
        },
    }
    if v == Verb::Line {
        pb.line_to(p1);
        Some(p1)
    } else {
        pb.quad_to(p1, p2);
        Some(p2)
    }
}

impl<P: Copy + PartialEq> Stroker<P> {
    /// Adds the outline of the current sub-path to `pb` and empties the side
    /// lists: the left side forwards, closed off if the sub-path is closed,
    /// then the right side backwards, and a final close when there was any
    /// side at all.
    pub fn build_stroke(&mut self, closed: bool)
        requires
            old(self).pb.wf(),
            side_wf(old(self).pbl.verbs@, old(self).pbl.points@.len()),
            side_wf(old(self).pbr.verbs@, old(self).pbr.points@.len()),
            outline_closable(
                old(self).pb.in_path_view(),
                old(self).pbl.verbs@.len(),
                old(self).pbr.verbs@.len(),
                closed,
            ),
            old(self).pb.verbs_view().len() + 3 * (old(self).pbl.verbs@.len()
                + old(self).pbr.verbs@.len()) + 8 <= usize::MAX,
            old(self).pb.points_view().len() + 3 * (old(self).pbl.verbs@.len()
                + old(self).pbr.verbs@.len()) + 8 <= usize::MAX,
        ensures
            final(self).pb.wf(),
            final(self).pbl.verbs@ == Seq::<Verb>::empty(),
            final(self).pbl.points@ == Seq::<P>::empty(),
            final(self).pbr.verbs@ == Seq::<Verb>::empty(),
            final(self).pbr.points@ == Seq::<P>::empty(),
            (old(self).pbl.verbs@.len() > 0 || old(self).pbr.verbs@.len() > 0) ==> !(final(
                self
            ).pb.in_path_view()),
            P::obeys_eq_spec() ==> final(self).pb.model() == outline(
                old(self).pb.model(),
                old(self).pbl.verbs@,
                old(self).pbl.points@,
                old(self).pbr.verbs@,
                old(self).pbr.points@,
                closed,
            ),
    {
        let ghost m0 = self.pb.model();
        let ghost lv = self.pbl.verbs@;
        let ghost lp = self.pbl.points@;
        let ghost rv = self.pbr.verbs@;
        let ghost rp = self.pbr.points@;
        let nl = self.pbl.verbs.len();
        let nr = self.pbr.verbs.len();
        let npl = self.pbl.points.len();
        let npr = self.pbr.points.len();

        let mut prev: Option<P> = None;
        let mut p: usize = 0;
        let mut i: usize = 0;
        while i < nl
            invariant
                self.pbl.verbs@ == lv,
                self.pbl.points@ == lp,
                self.pbr.verbs@ == rv,
                self.pbr.points@ == rp,
                nl == lv.len(),
                nr == rv.len(),
                npl == lp.len(),
                side_wf(lv, lp.len()),
                0 <= i <= nl,
                p == side_total(lv.take(i as int)),
                self.pb.wf(),
                self.pb.in_path_view() == (i > 0 || m0.in_path),
                prev is Some ==> self.pb.in_path_view(),
                self.pb.verbs_view().len() <= m0.verbs.len() + 3 * i,
                self.pb.points_view().len() <= m0.points.len() + 3 * i,
                m0.verbs.len() + 3 * (nl + nr) + 8 <= usize::MAX,
                m0.points.len() + 3 * (nl + nr) + 8 <= usize::MAX,
                P::obeys_eq_spec() ==> (self.pb.model(), prev) == left_walk(
                    m0,
                    None,
                    lv,
                    lp,
                    i as nat,
                ),
            decreases nl - i,
        {
            proof {
                lemma_side_prefix(lv, i as int);
            }
            let verb = self.pbl.verbs[i];
            if verb == Verb::Line {
                let q0 = self.pbl.points[p];
                let q1 = self.pbl.points[p + 1];
                prev = add_piece_exec(&mut self.pb, prev, verb, q0, q1, q1);
                p = p + 2;
            } else {
                let q0 = self.pbl.points[p];
                let q1 = self.pbl.points[p + 1];
                let q2 = self.pbl.points[p + 2];
                prev = add_piece_exec(&mut self.pb, prev, verb, q0, q1, q2);
                p = p + 3;
            }
            i = i + 1;
        }

        let ghost m1 = self.pb.model();
        if closed {
            self.pb.close_path();
            prev = None;
        }
        let ghost m2 = self.pb.model();
        let ghost prev2 = prev;
        let ghost ip2 = self.pb.in_path_view();

        let mut p: usize = self.pbr.points.len();
        let mut j: usize = 0;
        proof {
            assert(rv.take(rv.len() as int) =~= rv);
        }
        while j < nr
            invariant
                self.pbl.verbs@ == lv,
                self.pbl.points@ == lp,
                self.pbr.verbs@ == rv,
                self.pbr.points@ == rp,
                nl == lv.len(),
                nr == rv.len(),
                npr == rp.len(),
                side_wf(rv, rp.len()),
                0 <= j <= nr,
                p == side_total(rv.take(nr - j)),
                self.pb.wf(),
                self.pb.in_path_view() == (j > 0 || ip2),
                prev is Some ==> self.pb.in_path_view(),
                self.pb.verbs_view().len() <= m0.verbs.len() + 3 * nl + 2 + 3 * j,
                self.pb.points_view().len() <= m0.points.len() + 3 * nl + 1 + 3 * j,
                m0.verbs.len() + 3 * (nl + nr) + 8 <= usize::MAX,
                m0.points.len() + 3 * (nl + nr) + 8 <= usize::MAX,
                P::obeys_eq_spec() ==> (self.pb.model(), prev) == right_walk(
                    m2,
                    prev2,
                    rv,
                    rp,
                    j as nat,
                ),
            decreases nr - j,
        {
            let k = nr - 1 - j;
            proof {
                lemma_side_prefix(rv, k as int);
            }
            let verb = self.pbr.verbs[k];
            if verb == Verb::Line {
                p = p - 2;
                let q0 = self.pbr.points[p + 1];
                let q1 = self.pbr.points[p];
                prev = add_piece_exec(&mut self.pb, prev, verb, q0, q1, q1);
            } else {
                p = p - 3;
                let q0 = self.pbr.points[p + 2];
                let q1 = self.pbr.points[p + 1];
                let q2 = self.pbr.points[p];
                prev = add_piece_exec(&mut self.pb, prev, verb, q0, q1, q2);
            }
            j = j + 1;
        }

        if nl > 0 || nr > 0 {
            self.pb.close_path();
        }

        self.pbl.clear();
        self.pbr.clear();
    }
}

} // verus!
