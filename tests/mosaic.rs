use image_mosaic::grid::{create_image_grid, column_width_for, scaled_image_height, ImageGrid, OrgImageInfo};
use image_mosaic::order::{order_images, sort_by_aspect_ratio, ratio_at_most};
use image_mosaic::plan::{padding_order, plan_column, FinalImageInfo};
use image_mosaic::search::{find_best_grid, MosaicError, NoLayoutReason};
use image_mosaic::source::is_image_extension;

fn img(width: u32, height: u32, id: usize) -> OrgImageInfo {
    OrgImageInfo { width, height, id }
}

fn squares(n: usize) -> Vec<OrgImageInfo> {
    (0..n).map(|i| img(10, 10, i)).collect()
}

fn column_ids(grid: &ImageGrid, c: usize) -> Vec<usize> {
    grid.columns[c].image_paths.iter().map(|e| e.1).collect()
}

fn place(x: u64, offset: u64, image_height: u32, id: usize) -> FinalImageInfo {
    FinalImageInfo { x, offset, image_height, id }
}

#[test]
fn two_square_images_leave_no_candidate() {
    let images = vec![img(50, 50, 0), img(50, 50, 1)];
    let r = find_best_grid(&images, 100, 100, true);
    assert_eq!(r.unwrap_err(), MosaicError::NoViableLayout(NoLayoutReason::RangeTooSmall));
}

#[test]
fn five_images_leave_no_candidate() {
    let r = find_best_grid(&squares(5), 300, 300, true);
    assert_eq!(r.unwrap_err(), MosaicError::NoViableLayout(NoLayoutReason::RangeTooSmall));
}

#[test]
fn six_squares_fill_three_columns_exactly() {
    let images = squares(6);
    let grid = create_image_grid(3, 300, &images);
    assert_eq!(grid.column_width, 100);
    assert_eq!(grid.number_of_columns, 3);
    assert_eq!(grid.columns.len(), 3);
    for c in 0..3 {
        assert_eq!(grid.columns[c].image_paths, vec![(100, c), (100, c + 3)]);
        assert_eq!(grid.columns[c].column_height, 200);
    }
    assert_eq!(grid.get_wasted_pixels(200), 0);
    assert!(!grid.has_empty_space(200));
    assert!(!grid.has_overfull_columns(200));
}

#[test]
fn six_squares_at_target_height_100() {
    let grid = create_image_grid(3, 300, &squares(6));
    assert_eq!(grid.get_wasted_pixels(100), 3 * 100 * 100);
    assert!(grid.has_overfull_columns(100));
    assert!(!grid.has_empty_space(100));
}

#[test]
fn one_image_is_not_enough() {
    let r = find_best_grid(&[img(40, 30, 7)], 1920, 1080, true);
    assert_eq!(r.unwrap_err(), MosaicError::InsufficientImages);
    let r = find_best_grid(&[], 1920, 1080, false);
    assert_eq!(r.unwrap_err(), MosaicError::InsufficientImages);
}

#[test]
fn every_layout_short_is_too_strict() {
    let r = find_best_grid(&squares(6), 100, 1000, false);
    assert_eq!(r.unwrap_err(), MosaicError::NoViableLayout(NoLayoutReason::ConstraintTooStrict));
    let g = find_best_grid(&squares(6), 100, 1000, true).unwrap();
    assert_eq!(g.number_of_columns, 2);
}

#[test]
fn best_grid_has_fewest_wasted_pixels() {
    // k = 2: columns 600 tall, 2 * 300 * 150 wasted; k = 3: 300, 300, 200, 100 * 100 wasted.
    let images = squares(8);
    let g = find_best_grid(&images, 300, 300, true).unwrap();
    assert_eq!(g.number_of_columns, 3);
    assert_eq!(g.get_wasted_pixels(300), 10000);
    assert_eq!(create_image_grid(2, 300, &images).get_wasted_pixels(300), 90000);
}

#[test]
fn whitespace_constraint_skips_short_layouts() {
    let g = find_best_grid(&squares(8), 300, 300, false).unwrap();
    assert_eq!(g.number_of_columns, 2);
    assert!(!g.has_empty_space(300));
}

#[test]
fn equal_scores_keep_the_smaller_column_count() {
    // 10 squares, width 120, height 60: k = 2 gives columns 5 * 60 = 300 tall,
    // k = 3 gives 4, 3, 3 images of 40: 160, 120, 120; k = 4 gives 3, 3, 2, 2 of 30.
    let images = squares(10);
    let scores: Vec<u128> = (2..5u32)
        .map(|k| create_image_grid(k, 120, &images).get_wasted_pixels(60))
        .collect();
    let best = find_best_grid(&images, 120, 60, true).unwrap();
    let min = *scores.iter().min().unwrap();
    let first = scores.iter().position(|s| *s == min).unwrap() as u32 + 2;
    assert_eq!(best.number_of_columns, first);
    assert_eq!(best.get_wasted_pixels(60), min);
}

#[test]
fn every_image_in_exactly_one_column() {
    let images: Vec<OrgImageInfo> = (0..17).map(|i| img(10 + i as u32, 7 + 3 * i as u32, i)).collect();
    let grid = create_image_grid(4, 400, &images);
    let mut ids: Vec<usize> = (0..4).flat_map(|c| column_ids(&grid, c)).collect();
    ids.sort();
    assert_eq!(ids, (0..17).collect::<Vec<usize>>());
    for c in 0..4 {
        let sum: u64 = grid.columns[c].image_paths.iter().map(|e| e.0 as u64).sum();
        assert_eq!(grid.columns[c].column_height, sum);
    }
}

#[test]
fn packing_is_deterministic() {
    let images: Vec<OrgImageInfo> = (0..12).map(|i| img(3 + i as u32, 5 + (i * 7 % 11) as u32, i)).collect();
    let a = create_image_grid(3, 500, &images);
    let b = create_image_grid(3, 500, &images);
    assert_eq!(a.column_width, b.column_width);
    for c in 0..3 {
        assert_eq!(a.columns[c].image_paths, b.columns[c].image_paths);
        assert_eq!(a.columns[c].column_height, b.columns[c].column_height);
    }
}

#[test]
fn each_image_goes_to_the_shortest_column() {
    // heights at column width 100: 100, 50, 100, 30
    let images = vec![img(100, 100, 0), img(100, 50, 1), img(100, 100, 2), img(100, 30, 3)];
    let grid = create_image_grid(2, 200, &images);
    assert_eq!(column_ids(&grid, 0), vec![0, 3]);
    assert_eq!(column_ids(&grid, 1), vec![1, 2]);
    assert_eq!(grid.columns[0].column_height, 130);
    assert_eq!(grid.columns[1].column_height, 150);
}

#[test]
fn greedy_choice_holds_at_every_step() {
    let images: Vec<OrgImageInfo> = (0..20).map(|i| img(10, 1 + (i * 13 % 17) as u32, i)).collect();
    let mut grid = create_image_grid(4, 40, &images[..0]);
    for im in &images {
        let h = scaled_image_height(grid.column_width, im.width, im.height);
        let before: Vec<u64> = grid.columns.iter().map(|c| c.column_height).collect();
        grid.add_to_lowest_column(h, im.id);
        let chosen = (0..4).find(|&c| grid.columns[c].column_height != before[c] || grid.columns[c].image_paths.last() == Some(&(h, im.id))).unwrap();
        assert!(before.iter().all(|&t| t >= before[chosen]));
        assert!(before[..chosen].iter().all(|&t| t > before[chosen]));
    }
    let direct = create_image_grid(4, 40, &images);
    for c in 0..4 {
        assert_eq!(direct.columns[c].image_paths, grid.columns[c].image_paths);
    }
}

#[test]
fn column_width_rounds_up() {
    assert_eq!(column_width_for(100, 3), 34);
    assert_eq!(column_width_for(300, 3), 100);
    assert_eq!(column_width_for(1920, 7), 275);
    assert_eq!(create_image_grid(3, 100, &squares(3)).column_width, 34);
}

#[test]
fn scaled_height_rounds_down() {
    assert_eq!(scaled_image_height(100, 3, 2), 66);
    assert_eq!(scaled_image_height(100, 100, 100), 100);
    assert_eq!(scaled_image_height(10, 1000, 1), 0);
    assert_eq!(scaled_image_height(u32::MAX, 1, u32::MAX), u32::MAX);
}

#[test]
fn plan_stacks_and_pads_columns() {
    let images = vec![img(100, 100, 0), img(100, 50, 1), img(100, 100, 2)];
    let grid = create_image_grid(2, 200, &images);
    let plan = grid.get_image_info(300);
    assert_eq!(
        plan,
        vec![
            place(0, 0, 100, 0),
            place(0, 100, 100, 0),
            place(0, 200, 100, 0),
            place(100, 0, 50, 1),
            place(100, 50, 100, 2),
            place(100, 150, 100, 2),
            place(100, 250, 50, 1),
        ]
    );
}

#[test]
fn plan_offsets_do_not_overlap() {
    let images: Vec<OrgImageInfo> = (0..11).map(|i| img(20, 5 + 4 * i as u32, i)).collect();
    let grid = create_image_grid(3, 90, &images);
    let plan = grid.get_image_info(400);
    for c in 0..3u64 {
        let col: Vec<&FinalImageInfo> = plan.iter().filter(|p| p.x == c * 30).collect();
        assert_eq!(col[0].offset, 0);
        for w in col.windows(2) {
            assert_eq!(w[1].offset, w[0].offset + w[0].image_height as u64);
        }
        let last = col[col.len() - 1];
        assert!(last.offset + last.image_height as u64 >= 400);
        assert!(last.offset < 400);
    }
}

#[test]
fn full_column_is_not_padded() {
    let grid = create_image_grid(3, 300, &squares(6));
    let plan = grid.get_image_info(150);
    assert_eq!(plan.len(), 6);
    assert_eq!(plan[1], place(0, 100, 100, 3));
    assert_eq!(plan[5], place(200, 100, 100, 5));
}

#[test]
fn padding_takes_later_of_equal_heights_first() {
    let grid = create_image_grid(1, 100, &[img(100, 50, 5), img(100, 50, 6)]);
    let plan = plan_column(&grid.columns[0], 0, 200);
    assert_eq!(
        plan,
        vec![place(0, 0, 50, 5), place(0, 50, 50, 6), place(0, 100, 50, 6), place(0, 150, 50, 5)]
    );
}

#[test]
fn padding_order_is_tallest_first() {
    let order = padding_order(&vec![(10, 0), (30, 1), (20, 2), (30, 3), (10, 4)]);
    assert_eq!(order, vec![3, 1, 2, 4, 0]);
}

#[test]
fn padding_ends_with_bounded_copies() {
    let grid = create_image_grid(1, 10, &[img(10, 1, 0), img(10, 2, 1)]);
    let plan = plan_column(&grid.columns[0], 0, 10);
    // 1 + 2 = 3, then copies 2, 1, 2, 1, 2 reach 11
    assert_eq!(plan.len(), 7);
    assert!(plan.len() - 2 <= 10);
    let heights: Vec<u32> = plan.iter().map(|p| p.image_height).collect();
    assert_eq!(heights, vec![1, 2, 2, 1, 2, 1, 2]);
}

#[test]
fn zero_height_column_is_not_padded() {
    let grid = create_image_grid(1, 10, &[img(1000, 1, 0)]);
    assert_eq!(grid.columns[0].column_height, 0);
    let plan = plan_column(&grid.columns[0], 0, 10);
    assert_eq!(plan, vec![place(0, 0, 0, 0)]);
    let empty = create_image_grid(2, 10, &[]);
    assert!(empty.get_image_info(10).is_empty());
}

#[test]
fn sort_orders_by_aspect_ratio() {
    let images = vec![img(10, 30, 0), img(10, 10, 1), img(20, 10, 2), img(5, 5, 3), img(3, 4, 4)];
    let sorted = sort_by_aspect_ratio(&images);
    let ids: Vec<usize> = sorted.iter().map(|i| i.id).collect();
    assert_eq!(ids, vec![2, 1, 3, 4, 0]);
    assert!(ratio_at_most(&images[2], &images[1]));
    assert!(!ratio_at_most(&images[0], &images[4]));
    let kept = order_images(&images, false);
    assert_eq!(kept, sorted);
}

#[test]
fn shuffle_keeps_every_image() {
    let images: Vec<OrgImageInfo> = (0..50).map(|i| img(1 + i as u32, 50, i)).collect();
    let mut shuffled: Vec<usize> = order_images(&images, true).iter().map(|i| i.id).collect();
    shuffled.sort();
    assert_eq!(shuffled, (0..50).collect::<Vec<usize>>());
}

#[test]
fn only_png_and_jpeg_files_are_read() {
    assert!(is_image_extension(b"png"));
    assert!(is_image_extension(b"jpg"));
    assert!(is_image_extension(b"jpeg"));
    assert!(!is_image_extension(b"PNG"));
    assert!(!is_image_extension(b"gif"));
    assert!(!is_image_extension(b"jpe"));
    assert!(!is_image_extension(b""));
}
