use rug::geometry;
use rug::geometry::{cubic, quad};
use rug::path::{IterEvent, PathBuilder, Verb};

type F32x2 = [f32; 2];

#[test]
fn path_iterator() {
    let path = {
        let mut pb: PathBuilder<F32x2> = PathBuilder::new();
        pb.move_to([1.0, 1.0].into());
        pb.line_to([2.0, 2.0].into());
        pb.quad_to([3.0, 3.0].into(), [4.0, 4.0].into());
        pb.cubic_to([5.0, 5.0].into(), [6.0, 6.0].into(), [7.0, 7.0].into());
        pb.close_path();

        pb.move_to([8.0, 8.0].into());
        pb.line_to([9.0, 9.0].into());

        pb.build()
    };

    let path = path.path();

    let mut iter = path.iter();

    assert_eq!(iter.clone().prev_rev(), None);

    {
        let i0 = iter.clone();
        assert_eq!(iter.next(), Some(IterEvent::Begin([1.0, 1.0].into(), true)));

        let mut i2 = iter.clone();
        assert_eq!(i2.prev_rev(), Some(IterEvent::End([1.0, 1.0].into(), true)));

        assert!(i0.test_equal(&i2));
    }

    {
        let i0 = iter.clone();
        assert_eq!(iter.next(), Some(IterEvent::Line(geometry::line([1.0, 1.0].into(), [2.0, 2.0].into()))));

        let mut i2 = iter.clone();
        assert_eq!(i2.prev_rev(), Some(IterEvent::Line(geometry::line([2.0, 2.0].into(), [1.0, 1.0].into()))));

        assert!(i0.test_equal(&i2));
    }

    {
        let i0 = iter.clone();
        assert_eq!(iter.next(), Some(IterEvent::Quad(quad([2.0, 2.0].into(), [3.0, 3.0].into(), [4.0, 4.0].into()))));

        let mut i2 = iter.clone();
        assert_eq!(i2.prev_rev(), Some(IterEvent::Quad(quad([4.0, 4.0].into(), [3.0, 3.0].into(), [2.0, 2.0].into()))));

        assert!(i0.test_equal(&i2));
    }

    {
        let i0 = iter.clone();
        assert_eq!(iter.next(), Some(IterEvent::Cubic(cubic([4.0, 4.0].into(), [5.0, 5.0].into(), [6.0, 6.0].into(), [7.0, 7.0].into()))));

        let mut i2 = iter.clone();
        assert_eq!(i2.prev_rev(), Some(IterEvent::Cubic(cubic([7.0, 7.0].into(), [6.0, 6.0].into(), [5.0, 5.0].into(), [4.0, 4.0].into()))));

        assert!(i0.test_equal(&i2));
    }

    {
        let i0 = iter.clone();
        assert_eq!(iter.next(), Some(IterEvent::Line(geometry::line([7.0, 7.0].into(), [1.0, 1.0].into()))));

        let mut i2 = iter.clone();
        assert_eq!(i2.prev_rev(), Some(IterEvent::Line(geometry::line([1.0, 1.0].into(), [7.0, 7.0].into()))));

        assert!(i0.test_equal(&i2));
    }

    {
        let i0 = iter.clone();
        assert_eq!(iter.next(), Some(IterEvent::End([1.0, 1.0].into(), true)));

        let mut i2 = iter.clone();
        assert_eq!(i2.prev_rev(), Some(IterEvent::Begin([1.0, 1.0].into(), true)));

        assert!(i0.test_equal(&i2));
    }

    {
        let i0 = iter.clone();
        assert_eq!(iter.next(), Some(IterEvent::Begin([8.0, 8.0].into(), false)));

        let mut i2 = iter.clone();
        assert_eq!(i2.prev_rev(), Some(IterEvent::End([8.0, 8.0].into(), false)));

        assert!(i0.test_equal(&i2));
    }

    {
        let i0 = iter.clone();
        assert_eq!(iter.next(), Some(IterEvent::Line(geometry::line([8.0, 8.0].into(), [9.0, 9.0].into()))));

        let mut i2 = iter.clone();
        assert_eq!(i2.prev_rev(), Some(IterEvent::Line(geometry::line([9.0, 9.0].into(), [8.0, 8.0].into()))));

        assert!(i0.test_equal(&i2));
    }

    {
        let i0 = iter.clone();
        assert_eq!(iter.next(), Some(IterEvent::End([9.0, 9.0].into(), false)));

        let mut i2 = iter.clone();
        assert_eq!(i2.prev_rev(), Some(IterEvent::Begin([9.0, 9.0].into(), false)));

        assert!(i0.test_equal(&i2));
    }

    assert_eq!(iter.next(), None);
}

#[test]
fn builder_records_verbs_and_points() {
    let mut pb: PathBuilder<[i32; 2]> = PathBuilder::new();
    assert!(!pb.in_path());
    pb.move_to([0, 0]);
    assert!(pb.in_path());
    pb.line_to([1, 0]);
    assert_eq!(pb.last_point(), [1, 0]);
    pb.move_to([5, 5]);
    let path = pb.build();
    let p = path.path();
    assert_eq!(
        p.verbs(),
        &[Verb::BeginOpen, Verb::Line, Verb::EndOpen, Verb::BeginOpen, Verb::EndOpen][..]
    );
    assert_eq!(p.points(), &[[0, 0], [1, 0], [5, 5]][..]);
    assert!(!pb.in_path());
}

#[test]
fn close_path_skips_line_when_already_at_start() {
    let mut pb: PathBuilder<[i32; 2]> = PathBuilder::new();
    pb.move_to([0, 0]);
    pb.line_to([4, 0]);
    pb.line_to([0, 0]);
    pb.close_path();
    let path = pb.build();
    let p = path.path();
    assert_eq!(
        p.verbs(),
        &[Verb::BeginClosed, Verb::Line, Verb::Line, Verb::EndClosed][..]
    );
    assert_eq!(p.points(), &[[0, 0], [4, 0], [0, 0]][..]);
}

#[test]
fn close_path_adds_line_back_to_start() {
    let mut pb: PathBuilder<[i32; 2]> = PathBuilder::new();
    pb.move_to([0, 0]);
    pb.quad_to([2, 2], [4, 0]);
    pb.close_path();
    let path = pb.build();
    let p = path.path();
    assert_eq!(
        p.verbs(),
        &[Verb::BeginClosed, Verb::Quad, Verb::Line, Verb::EndClosed][..]
    );
    assert_eq!(p.points(), &[[0, 0], [2, 2], [4, 0], [0, 0]][..]);
}

#[test]
fn clear_empties_builder() {
    let mut pb: PathBuilder<[i32; 2]> = PathBuilder::new();
    pb.move_to([0, 0]);
    pb.clear();
    assert!(!pb.in_path());
    let path = pb.build();
    assert!(path.path().verbs().is_empty());
    assert!(path.path().points().is_empty());
}

#[test]
fn next_then_prev_returns_reversed_event_everywhere() {
    let mut pb: PathBuilder<[i32; 2]> = PathBuilder::new();
    pb.move_to([0, 0]);
    pb.cubic_to([1, 1], [2, 1], [3, 0]);
    pb.line_to([3, 3]);
    pb.close_path();
    let path = pb.build();
    let p = path.path();
    let mut it = p.iter();
    let mut count = 0;
    while it.has_next() {
        let before = it.clone();
        let e = it.next().unwrap();
        let mut back = it.clone();
        let r = back.prev_rev().unwrap();
        let expected = match e {
            IterEvent::Begin(q, c) => IterEvent::End(q, c),
            IterEvent::End(q, c) => IterEvent::Begin(q, c),
            IterEvent::Line(l) => IterEvent::Line(l.rev()),
            IterEvent::Quad(q) => IterEvent::Quad(q.rev()),
            IterEvent::Cubic(c) => IterEvent::Cubic(c.rev()),
        };
        assert_eq!(r, expected);
        assert!(back.test_equal(&before));
        count += 1;
    }
    assert_eq!(count, 5);
    assert!(it.has_prev());
    assert_eq!(it.next(), None);
}

#[test]
fn path_buf_from_slices() {
    let verbs = [Verb::BeginOpen, Verb::Line, Verb::EndOpen];
    let points = [[0u8, 0u8], [1, 1], [2, 2]];
    let buf = rug::path::PathBuf::new_in(&verbs, &points[..2]);
    assert_eq!(buf.path().verbs(), &verbs[..]);
    assert_eq!(buf.path().points(), &points[..2]);
    let mut it = buf.path().iter();
    assert_eq!(it.next(), Some(IterEvent::Begin([0, 0], false)));
    assert_eq!(it.next(), Some(IterEvent::Line(geometry::line([0, 0], [1, 1]))));
    assert_eq!(it.next(), Some(IterEvent::End([1, 1], false)));
    assert_eq!(it.next(), None);
}

#[test]
fn closed_sub_path_walk_ends_on_its_start() {
    let mut pb: PathBuilder<F32x2> = PathBuilder::new();
    pb.move_to([0.0, 0.0]);
    pb.line_to([1.0, 0.0]);
    pb.quad_to([2.0, 1.0], [1.0, 1.0]);
    pb.close_path();
    pb.move_to([5.0, 5.0]);
    pb.line_to([6.0, 5.0]);
    let buf = pb.build();
    let path = buf.path();
    let mut iter = path.iter();
    let mut events = Vec::new();
    while let Some(e) = iter.next() {
        events.push(e);
    }
    assert_eq!(events.len(), 8);
    // First sub-path: begins and ends closed at the same point.
    assert_eq!(events[0], IterEvent::Begin([0.0, 0.0], true));
    assert_eq!(events[3], IterEvent::Line(geometry::line([1.0, 1.0], [0.0, 0.0])));
    assert_eq!(events[4], IterEvent::End([0.0, 0.0], true));
    // Second sub-path: open, ends on its last point.
    assert_eq!(events[5], IterEvent::Begin([5.0, 5.0], false));
    assert_eq!(events[7], IterEvent::End([6.0, 5.0], false));
    // Each curve starts where the event before it stopped.
    assert_eq!(events[1], IterEvent::Line(geometry::line([0.0, 0.0], [1.0, 0.0])));
    assert_eq!(events[2], IterEvent::Quad(quad([1.0, 0.0], [2.0, 1.0], [1.0, 1.0])));
    assert_eq!(iter.next(), None);
}
