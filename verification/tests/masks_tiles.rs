use rug::renderer::{fill_visible, lane_window, mask_blit_groups, mask_blit_range, CommandMask};
use rug::tiling::ImgMut;

#[test]
fn command_mask_starts_empty() {
    let m = CommandMask::new(100);
    assert!(m.iter().is_empty());
}

#[test]
fn command_mask_lists_added_indices_in_order() {
    let mut m = CommandMask::new(200);
    for &i in &[130usize, 3, 64, 63, 0, 199, 3] {
        m.add(i);
    }
    m.add_mut(128);
    assert_eq!(m.iter(), vec![0, 3, 63, 64, 128, 130, 199]);
}

#[test]
fn command_mask_rounds_up_to_words() {
    let mut m = CommandMask::new(1);
    m.add_mut(63);
    assert_eq!(m.iter(), vec![63]);
}

#[test]
fn sub_view_offsets() {
    let img = ImgMut::new([10, 8]);
    assert_eq!(img.len, 80);
    assert_eq!(img.stride(), 10);
    let v = img.sub_view([2, 3], [7, 5]);
    assert_eq!(v.offset, 3 * 10 + 2);
    assert_eq!(v.size(), [5, 2]);
    assert_eq!(v.len, 5 + 10);
    let w = v.sub_view([1, 1], [3, 2]);
    assert_eq!(w.offset, v.offset + 10 + 1);
    assert_eq!(w.size(), [2, 1]);
    assert_eq!(w.len, 2);
    let e = img.sub_view([4, 4], [4, 4]);
    assert_eq!(e.len, 0);
    assert_eq!(e.width(), 0);
    assert_eq!(e.height(), 0);
}

#[test]
fn tiles_cover_image_once() {
    let img = ImgMut::new([10, 7]);
    let (tiles, counts) = img.tiles(4);
    assert_eq!(counts, [3, 2]);
    assert_eq!(tiles.len(), 6);
    assert_eq!(tiles[0].begin, [0, 0]);
    assert_eq!(tiles[0].end, [4, 4]);
    assert_eq!(tiles[2].begin, [8, 0]);
    assert_eq!(tiles[2].end, [10, 4]);
    assert_eq!(tiles[5].begin, [8, 4]);
    assert_eq!(tiles[5].end, [10, 7]);
    assert_eq!(tiles[4].img.offset, 4 * 10 + 4);
    for y in 0..7u32 {
        for x in 0..10u32 {
            let holders = tiles
                .iter()
                .filter(|t| t.begin[0] <= x && x < t.end[0] && t.begin[1] <= y && y < t.end[1])
                .count();
            assert_eq!(holders, 1);
        }
    }
}

#[test]
fn tiles_of_exact_multiple() {
    let img = ImgMut::new([8, 8]);
    let (tiles, counts) = img.tiles(8);
    assert_eq!(counts, [1, 1]);
    assert_eq!(tiles.len(), 1);
    assert_eq!(tiles[0].img.size(), [8, 8]);
    let (tiles, counts) = ImgMut::new([0, 5]).tiles(4);
    assert_eq!(counts, [0, 2]);
    assert!(tiles.is_empty());
}

#[test]
fn fill_visible_marks_only_the_covered_tiles() {
    // A grid of 4 x 3 tiles; the command covers columns 1..3 of rows 1..3.
    let mut masks: Vec<CommandMask> = (0..12).map(|_| CommandMask::new(70)).collect();
    masks[0].add(5);
    fill_visible(&mut masks, 66, [1, 1], [3, 3], 4);
    for t in 0..12usize {
        let (x, y) = (t % 4, t / 4);
        let covered = (1..3).contains(&x) && (1..3).contains(&y);
        let mut expected: Vec<usize> = Vec::new();
        if t == 0 {
            expected.push(5);
        }
        if covered {
            expected.push(66);
        }
        assert_eq!(masks[t].iter(), expected, "tile {}", t);
    }
}

#[test]
fn fill_visible_with_empty_range_changes_nothing() {
    let mut masks: Vec<CommandMask> = (0..6).map(|_| CommandMask::new(64)).collect();
    fill_visible(&mut masks, 1, [2, 1], [1, 2], 3);
    fill_visible(&mut masks, 1, [0, 2], [3, 2], 3);
    for m in &masks {
        assert!(m.iter().is_empty());
    }
}

#[test]
fn mask_blit_range_clips_to_the_target() {
    // Target of 5 groups of 4 lanes (20 pixels) by 10 rows; a 12 x 8 mask at (8, 6).
    let r = mask_blit_range([8, 6], [12, 8], [5, 10], 4).unwrap();
    assert_eq!(r.begin, [8, 6]);
    assert_eq!(r.end, [20, 10]);
    assert_eq!((r.u0, r.u1), (2, 5));

    // Inside the target, the end is offset + size.
    let r = mask_blit_range([4, 1], [8, 2], [5, 10], 4).unwrap();
    assert_eq!(r.end, [12, 3]);
    assert_eq!((r.u0, r.u1), (1, 3));
}

#[test]
fn mask_blit_range_empty_cases() {
    // Mask with no width, mask starting at the right edge, mask with no height.
    assert!(mask_blit_range([4, 0], [0, 4], [5, 10], 4).is_none());
    assert!(mask_blit_range([20, 0], [8, 4], [5, 10], 4).is_none());
    assert!(mask_blit_range([0, 10], [8, 4], [5, 10], 4).is_none());
    assert!(mask_blit_range([0, 3], [8, 0], [5, 10], 4).is_none());
}

#[test]
fn mask_blit_groups_cover_unaligned_ranges() {
    // Target of 5 groups of 4 lanes by 10 rows; a 7 x 3 mask at (5, 8).
    let r = mask_blit_groups([5, 8], [7, 3], [5, 10], 4).unwrap();
    assert_eq!(r.begin, [5, 8]);
    assert_eq!(r.end, [12, 10]);
    assert_eq!((r.u0, r.u1), (1, 3));
    // Clipped at the right edge: end 20, groups 4..5.
    let r = mask_blit_groups([17, 0], [9, 1], [5, 10], 4).unwrap();
    assert_eq!(r.end, [20, 1]);
    assert_eq!((r.u0, r.u1), (4, 5));
    // Offsets outside the target.
    assert!(mask_blit_groups([20, 0], [1, 1], [5, 10], 4).is_none());
    assert!(mask_blit_groups([0, 10], [1, 1], [5, 10], 4).is_none());
}

#[test]
fn lane_window_reads_the_overlapping_columns() {
    // Group at column 4 of a mask 7 wide placed at column 5: lane 1.. reads columns 0..3.
    let w = lane_window(4, 5, 4, 7);
    assert_eq!(w.mask_x0, -1);
    assert!(w.partial);
    assert_eq!((w.dx, w.x0, w.x1), (1, 0, 3));
    // Group at column 8: fully inside, columns 3..7.
    let w = lane_window(8, 5, 4, 7);
    assert!(!w.partial);
    assert_eq!((w.dx, w.x0, w.x1), (0, 3, 7));
    // Group at column 12 past the right edge: column 7 is the end, nothing read.
    let w = lane_window(12, 5, 4, 7);
    assert!(w.partial);
    assert_eq!((w.dx, w.x0, w.x1), (0, 7, 7));
}

#[test]
fn sub_view_of_a_truncated_window() {
    let mut img = ImgMut::new([10, 4]);
    img.truncate([8, 3]);
    assert_eq!(img.len, 24);
    assert_eq!(img.stride(), 10);
    // Rows 0..2, columns 0..4 span 4 + 10 elements, within the 24 kept.
    let v = img.sub_view([0, 0], [4, 2]);
    assert_eq!(v.offset, 0);
    assert_eq!(v.len, 14);
    assert_eq!(v.stride(), 10);
}

#[test]
fn fill_visible_rows_wider_than_the_grid() {
    // Columns past the grid width run on into the next row of masks.
    let mut masks: Vec<CommandMask> = (0..6).map(|_| CommandMask::new(8)).collect();
    fill_visible(&mut masks, 2, [1, 0], [4, 1], 3);
    let marked: Vec<usize> = (0..6).filter(|&t| masks[t].iter() == vec![2]).collect();
    assert_eq!(marked, vec![1, 2, 3]);
    assert!(masks[0].has_room(7) && !masks[0].has_room(64));
}
