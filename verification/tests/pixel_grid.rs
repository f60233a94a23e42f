use unicorn::pixel::Fraction;
use unicorn::pixel::GridError;
use unicorn::pixel::PixelGrid;

fn lit(status: &[bool]) -> usize {
    status.iter().filter(|on| **on).count()
}

fn share(numerator: u64, denominator: u64) -> Fraction {
    Fraction::new(numerator, denominator).unwrap()
}

#[test]
fn new_grid_is_dark() {
    let grid = PixelGrid::new(256);
    let status = grid.get_status();
    assert_eq!(status.len(), 256);
    assert_eq!(lit(&status), 0);
}

#[test]
fn empty_grid_has_empty_status() {
    let mut grid = PixelGrid::new(0);
    assert_eq!(grid.get_status(), Vec::<bool>::new());
    assert_eq!(grid.update_percentage(share(1, 2)), Ok(()));
    assert_eq!(grid.get_status(), Vec::<bool>::new());
}

#[test]
fn half_of_256_is_128() {
    let mut grid = PixelGrid::new(256);
    assert_eq!(grid.update_percentage(share(1, 2)), Ok(()));
    let status = grid.get_status();
    assert_eq!(status.len(), 256);
    assert_eq!(lit(&status), 128);
}

#[test]
fn quarter_of_119_rounds_down_to_29() {
    let mut grid = PixelGrid::new(119);
    assert_eq!(grid.update_percentage(share(1, 4)), Ok(()));
    let status = grid.get_status();
    assert_eq!(status.len(), 119);
    assert_eq!(lit(&status), 29);
}

#[test]
fn nothing_lights_nothing_and_all_lights_all() {
    let mut grid = PixelGrid::new(119);
    assert_eq!(grid.update_percentage(share(1, 1)), Ok(()));
    assert_eq!(grid.get_status(), vec![true; 119]);
    assert_eq!(grid.update_percentage(share(0, 1)), Ok(()));
    assert_eq!(grid.get_status(), vec![false; 119]);
    assert_eq!(grid.update_percentage(share(7, 7)), Ok(()));
    assert_eq!(lit(&grid.get_status()), 119);
}

#[test]
fn repeated_update_keeps_the_count() {
    let mut grid = PixelGrid::new(256);
    for _ in 0..200 {
        assert_eq!(grid.update_percentage(share(3, 10)), Ok(()));
        let status = grid.get_status();
        assert_eq!(status.len(), 256);
        assert_eq!(lit(&status), 76);
    }
}

#[test]
fn count_follows_the_share_up_and_down() {
    let mut grid = PixelGrid::new(100);
    for percent in [10u64, 90, 50, 50, 0, 100, 33, 34] {
        assert_eq!(grid.update_percentage(share(percent, 100)), Ok(()));
        assert_eq!(lit(&grid.get_status()), percent as usize);
    }
}

#[test]
fn decay_changes_which_pixels_are_lit() {
    let mut grid = PixelGrid::new(256);
    grid.update_percentage(share(1, 2)).unwrap();
    let first = grid.get_status();
    let mut changed = false;
    for _ in 0..2000 {
        grid.refresh().unwrap();
        let status = grid.get_status();
        assert_eq!(lit(&status), 128);
        changed = changed || status != first;
    }
    assert!(changed);
}

#[test]
fn activation_picks_among_all_unlit_pixels() {
    let mut grid = PixelGrid::new(256);
    grid.activate(128).unwrap();
    let status = grid.get_status();
    assert_eq!(lit(&status), 128);
    let first_half: Vec<bool> = (0..256).map(|px| px < 128).collect();
    assert_ne!(status, first_half);
}

#[test]
fn deactivating_too_many_is_an_error_and_changes_nothing() {
    let mut grid = PixelGrid::new(20);
    grid.activate(5).unwrap();
    let before = grid.get_status();
    assert_eq!(
        grid.deactivate(6),
        Err(GridError::Deactivate { requested: 6, active: 5 })
    );
    assert_eq!(grid.get_status(), before);
    assert_eq!(grid.deactivate(5), Ok(()));
    assert_eq!(lit(&grid.get_status()), 0);
}

#[test]
fn activating_too_many_is_an_error_and_changes_nothing() {
    let mut grid = PixelGrid::new(20);
    grid.activate(5).unwrap();
    let before = grid.get_status();
    assert_eq!(
        grid.activate(16),
        Err(GridError::Activate { requested: 16, inactive: 15 })
    );
    assert_eq!(grid.get_status(), before);
    assert_eq!(grid.activate(15), Ok(()));
    assert_eq!(grid.get_status(), vec![true; 20]);
}

#[test]
fn share_above_the_whole_is_an_error_that_keeps_the_count() {
    let mut grid = PixelGrid::new(10);
    grid.update_percentage(share(4, 10)).unwrap();
    assert_eq!(
        grid.update_percentage(share(3, 2)),
        Err(GridError::Activate { requested: 11, inactive: 6 })
    );
    assert_eq!(lit(&grid.get_status()), 4);
}

#[test]
fn single_steps_move_the_pixel_at_the_position() {
    let mut grid = PixelGrid::new(4);
    // Unlit: 0 1 2 3. Position 2 is pixel 2.
    grid.activate_at(2);
    assert_eq!(grid.get_status(), vec![false, false, true, false]);
    // Unlit: 0 1 3. Position 2 is pixel 3.
    grid.activate_at(2);
    assert_eq!(grid.get_status(), vec![false, false, true, true]);
    // Lit: 2 3. Position 0 is pixel 2.
    grid.deactivate_at(0);
    assert_eq!(grid.get_status(), vec![false, false, false, true]);
    // Unlit: 0 1 2. Position 2 is pixel 2 again.
    grid.activate_at(2);
    assert_eq!(grid.get_status(), vec![false, false, true, true]);
}

#[test]
fn retire_turns_off_the_flagged_pixels() {
    let mut grid = PixelGrid::new(5);
    for _ in 0..5 {
        grid.activate_at(0);
    }
    // Lit: 0 1 2 3 4.
    let count = grid.retire(&vec![false, true, false, true, true]);
    assert_eq!(count, 3);
    assert_eq!(grid.get_status(), vec![true, false, true, false, false]);
    // Unlit: 1 3 4, in the order in which they went out.
    grid.activate_at(1);
    assert_eq!(grid.get_status(), vec![true, false, true, true, false]);
    assert_eq!(grid.retire(&vec![false, false, false]), 0);
    assert_eq!(grid.get_status(), vec![true, false, true, true, false]);
}

#[test]
fn status_and_its_complement_split_the_display() {
    let mut grid = PixelGrid::new(64);
    for step in 0..50u64 {
        grid.update_percentage(share(step % 11, 10)).ok();
        let status = grid.get_status();
        assert_eq!(status.len(), 64);
        let on = lit(&status);
        let off = status.iter().filter(|on| !**on).count();
        assert_eq!(on + off, 64);
    }
}

#[test]
fn fraction_needs_a_denominator() {
    assert!(Fraction::new(1, 0).is_none());
    assert!(Fraction::new(0, 0).is_none());
    assert!(Fraction::new(0, 1).is_some());
    assert!(Fraction::new(5, 2).is_some());
}

#[test]
fn scale_rounds_down() {
    assert_eq!(share(1, 4).scale(119), 29);
    assert_eq!(share(1, 2).scale(256), 128);
    assert_eq!(share(3, 4).scale(119), 89);
    assert_eq!(share(0, 9).scale(256), 0);
    assert_eq!(share(9, 9).scale(256), 256);
    assert_eq!(share(1, 3).scale(2), 0);
    assert_eq!(share(2, 3).scale(2), 1);
    assert_eq!(share(3, 2).scale(10), 15);
}

#[test]
fn scale_stops_at_the_largest_count() {
    assert_eq!(share(u64::MAX, 1).scale(usize::MAX), usize::MAX);
    assert_eq!(share(u64::MAX, u64::MAX).scale(usize::MAX), usize::MAX);
    assert_eq!(share(1, u64::MAX).scale(7), 0);
}

/// The lit pixels in their order, read by putting them out one by one.
fn lit_in_order(mut grid: PixelGrid) -> Vec<usize> {
    let mut order = Vec::new();
    let mut status = grid.get_status();
    while lit(&status) > 0 {
        grid.deactivate_at(0);
        let next = grid.get_status();
        let px = (0..status.len()).find(|px| status[*px] && !next[*px]).unwrap();
        order.push(px);
        status = next;
    }
    order
}

#[test]
fn activation_appends_to_the_lit_pixels() {
    for _ in 0..50 {
        let mut grid = PixelGrid::new(64);
        for _ in 0..5 {
            grid.activate_at(0);
        }
        grid.activate(3).unwrap();
        let order = lit_in_order(grid);
        assert_eq!(order.len(), 8);
        assert_eq!(&order[..5], &[0, 1, 2, 3, 4]);
        assert!(order[5..].iter().all(|px| *px >= 5));
    }
}

#[test]
fn deactivation_keeps_the_order_of_the_lit_pixels() {
    for _ in 0..50 {
        let mut grid = PixelGrid::new(64);
        for _ in 0..32 {
            grid.activate_at(0);
        }
        grid.deactivate(10).unwrap();
        let order = lit_in_order(grid);
        assert_eq!(order.len(), 22);
        assert!(order.windows(2).all(|pair| pair[0] < pair[1]));
        assert!(order.iter().all(|px| *px < 32));
    }
}
