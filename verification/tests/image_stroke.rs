use rug::geometry;
use rug::geometry::quad;
use rug::image::Image;
use rug::path::Verb;
use rug::stroke::Stroker;

#[test]
fn image_with_clear_and_pixels() {
    let mut img = Image::with_clear([3, 2], 7u8);
    assert_eq!(img.size(), [3, 2]);
    assert_eq!(img.width(), 3);
    assert_eq!(img.height(), 2);
    assert_eq!(img.stride(), 3);
    assert_eq!(img.data(), &[7u8; 6][..]);
    img.set_pixel(2, 1, 9);
    assert_eq!(img.pixel(2, 1), 9);
    assert_eq!(img.data()[5], 9);
    img.write_n(0, 0, [1u8, 2]);
    assert_eq!(img.read_n::<3>(0, 0), [1, 2, 7]);
    assert_eq!(img.read_n::<2>(1, 1), [7, 9]);
    img.clear(0);
    assert_eq!(img.data(), &[0u8; 6][..]);
    img.resize_and_clear([2, 2], 4);
    assert_eq!(img.size(), [2, 2]);
    assert_eq!(img.stride(), 2);
    assert_eq!(img.data(), &[4u8; 4][..]);
}

#[test]
fn image_new_uses_default() {
    let img: Image<u32> = Image::new([4, 1]);
    assert_eq!(img.data(), &[0u32; 4][..]);
    let empty: Image<u32> = Image::new([0, 3]);
    assert!(empty.data().is_empty());
}

#[test]
fn copy_expand_widens_and_clips() {
    let mut src = Image::with_clear([2, 2], 0u8);
    src.set_pixel(0, 0, 1);
    src.set_pixel(1, 0, 2);
    src.set_pixel(0, 1, 3);
    src.set_pixel(1, 1, 4);
    let mut dst = Image::with_clear([5, 3], 0u8);
    dst.copy_expand(&src, [1, 1], |v: u8| [v, v + 10]);
    assert_eq!(
        dst.data(),
        &[0, 0, 0, 0, 0, 0, 1, 11, 2, 12, 0, 3, 13, 4, 14][..]
    );
    let mut dst = Image::with_clear([3, 1], 0u8);
    dst.copy_expand(&src, [-1, 0], |v: u8| [v, v + 10]);
    assert_eq!(dst.data(), &[1, 11, 2][..]);
}

#[test]
fn stroke_outline_of_open_segment() {
    let mut s: Stroker<[i32; 2]> = Stroker::new();
    s.push_line_pair(geometry::line([0, 1], [4, 1]), geometry::line([0, -1], [4, -1]));
    s.build_stroke(false);
    assert!(s.pbl.verbs.is_empty() && s.pbl.points.is_empty());
    assert!(s.pbr.verbs.is_empty() && s.pbr.points.is_empty());
    let path = s.pb.build();
    let p = path.path();
    assert_eq!(
        p.verbs(),
        &[Verb::BeginClosed, Verb::Line, Verb::Line, Verb::Line, Verb::Line, Verb::EndClosed][..]
    );
    assert_eq!(p.points(), &[[0, 1], [4, 1], [4, -1], [0, -1], [0, 1]][..]);
}

#[test]
fn stroke_outline_of_closed_sub_path() {
    let mut s: Stroker<[i32; 2]> = Stroker::new();
    s.push_line_pair(geometry::line([0, 1], [4, 1]), geometry::line([0, -1], [4, -1]));
    s.build_stroke(true);
    let path = s.pb.build();
    let p = path.path();
    assert_eq!(
        p.verbs(),
        &[
            Verb::BeginClosed, Verb::Line, Verb::Line, Verb::EndClosed,
            Verb::BeginClosed, Verb::Line, Verb::Line, Verb::EndClosed,
        ][..]
    );
    assert_eq!(p.points(), &[[0, 1], [4, 1], [0, 1], [4, -1], [0, -1], [4, -1]][..]);
}

#[test]
fn stroke_joins_only_where_pieces_do_not_meet() {
    let mut s: Stroker<[i32; 2]> = Stroker::new();
    s.push_left_quad(quad([0, 0], [1, 1], [2, 0]));
    s.push_left_quad(quad([2, 0], [3, 1], [4, 0]));
    s.push_line_pair(geometry::line([5, 0], [6, 0]), geometry::line([9, 9], [9, 9]));
    s.push_right_quad(quad([0, 5], [1, 6], [2, 5]));
    s.build_stroke(false);
    let path = s.pb.build();
    let p = path.path();
    assert_eq!(
        p.verbs(),
        &[
            Verb::BeginClosed, Verb::Quad, Verb::Quad, Verb::Line, Verb::Line,
            Verb::Line, Verb::Quad, Verb::Line, Verb::Line, Verb::Line, Verb::EndClosed,
        ][..]
    );
    assert_eq!(
        p.points(),
        &[
            [0, 0], [1, 1], [2, 0], [3, 1], [4, 0], [5, 0], [6, 0],
            [2, 5], [1, 6], [0, 5], [9, 9], [9, 9], [0, 0],
        ][..]
    );
}

#[test]
fn stroke_with_no_sides_adds_nothing() {
    let mut s: Stroker<[i32; 2]> = Stroker::new();
    s.build_stroke(false);
    let path = s.pb.build();
    assert!(path.path().verbs().is_empty());
}

#[test]
fn truncate_keeps_pixels_and_stride() {
    let mut img: Image<u32> = Image::with_clear([4, 3], 0);
    img.set_pixel(1, 1, 7);
    img.set_pixel(3, 2, 9);
    img.truncate([2, 2]);
    assert_eq!(img.size(), [2, 2]);
    assert_eq!(img.stride(), 4);
    assert_eq!(img.data().len(), 12);
    assert_eq!(img.pixel(1, 1), 7);
    assert_eq!(img.read_n::<2>(0, 1), [0, 7]);
}
