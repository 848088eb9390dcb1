use rug::segment_path::{cubic, quadratic, segment, IterEvent, Path, PathBuilder, Verb};

#[test]
fn builder_and_forward_walk() {
    let mut pb: PathBuilder<[i32; 2]> = PathBuilder::new();
    pb.move_to([0, 0]);
    pb.segment_to([1, 0]);
    pb.quadratic_to([2, 1], [3, 0]);
    pb.cubic_to([4, 1], [5, 1], [6, 0]);
    pb.close();
    pb.move_to([9, 9]);
    pb.segment_to([9, 8]);
    assert_eq!(pb.last_point(), [9, 8]);
    let path = pb.build();
    assert!(!pb.in_path());
    assert_eq!(
        path.verbs(),
        &[
            Verb::BeginClosed, Verb::Segment, Verb::Quadratic, Verb::Cubic, Verb::Segment,
            Verb::End, Verb::BeginOpen, Verb::Segment, Verb::End,
        ][..]
    );
    let mut it = path.iter();
    assert_eq!(it.next(), Some(IterEvent::Begin([0, 0], true)));
    assert_eq!(it.next(), Some(IterEvent::Segment(segment([0, 0], [1, 0]))));
    assert_eq!(it.next(), Some(IterEvent::Quadratic(quadratic([1, 0], [2, 1], [3, 0]))));
    assert_eq!(it.next(), Some(IterEvent::Cubic(cubic([3, 0], [4, 1], [5, 1], [6, 0]))));
    assert_eq!(it.next(), Some(IterEvent::Segment(segment([6, 0], [0, 0]))));
    assert_eq!(it.next(), Some(IterEvent::End([0, 0])));
    assert_eq!(it.next(), Some(IterEvent::Begin([9, 9], false)));
    assert_eq!(it.next(), Some(IterEvent::Segment(segment([9, 9], [9, 8]))));
    assert_eq!(it.next(), Some(IterEvent::End([9, 8])));
    assert!(!it.has_next());
    assert_eq!(it.next(), None);
}

#[test]
fn close_at_start_adds_no_segment() {
    let mut pb: PathBuilder<[i32; 2]> = PathBuilder::new();
    pb.move_to([0, 0]);
    pb.segment_to([1, 0]);
    pb.segment_to([0, 0]);
    pb.close();
    let path = pb.build();
    assert_eq!(path.points(), &[[0, 0], [1, 0], [0, 0]][..]);
    assert_eq!(
        path.verbs(),
        &[Verb::BeginClosed, Verb::Segment, Verb::Segment, Verb::End][..]
    );
    pb.clear();
    assert!(pb.build().verbs().is_empty());
}

#[test]
fn path_from_slices() {
    let verbs = [Verb::BeginOpen, Verb::Quadratic, Verb::End];
    let points = [[0u8, 0], [1, 1], [2, 0]];
    let path = Path::new(&verbs, &points);
    let mut it = path.iter();
    assert_eq!(it.next(), Some(IterEvent::Begin([0, 0], false)));
    assert_eq!(it.next(), Some(IterEvent::Quadratic(quadratic([0, 0], [1, 1], [2, 0]))));
    assert_eq!(it.next(), Some(IterEvent::End([2, 0])));
    assert_eq!(it.next(), None);
}

#[test]
fn builder_continues_after_build() {
    let mut pb: PathBuilder<[f32; 2]> = PathBuilder::new();
    pb.move_to([0.0, 0.0]);
    pb.segment_to([1.0, 0.0]);
    let first = pb.build();
    assert_eq!(first.verbs(), &[Verb::BeginOpen, Verb::Segment, Verb::End][..]);
    assert!(!pb.in_path());
    pb.move_to([5.0, 5.0]);
    pb.segment_to([6.0, 5.0]);
    let second = pb.build();
    assert_eq!(second.verbs().len(), 6);
    assert_eq!(second.points(), &[[0.0, 0.0], [1.0, 0.0], [5.0, 5.0], [6.0, 5.0]][..]);
}
