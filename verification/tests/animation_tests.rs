use game_motor::animation::Animation;
use game_motor::animation::AnimationType;
use game_motor::animation::PixelRect;
use game_motor::animation::flip_rect;

#[test]
fn loop_sub_range_cycles_within_bounds() {
    // a Loop over cells [2, 5]: the mapped index is 2 + frame mod 4 and
    // never leaves [2, 5], repeating after every full cycle
    let a = Animation::new_loop("sheet", 100, (16, 16), Some((2, 5)));
    assert_eq!(a.frame_index_mod(0), Some(2));
    assert_eq!(a.frame_index_mod(1), Some(3));
    assert_eq!(a.frame_index_mod(2), Some(4));
    assert_eq!(a.frame_index_mod(3), Some(5));
    assert_eq!(a.frame_index_mod(4), Some(2));
    for f in 0..32u32 {
        let idx = a.frame_index_mod(f).unwrap();
        assert!(2 <= idx && idx <= 5);
        assert_eq!(a.frame_index_mod(f + 4), Some(idx));
        assert_eq!(a.frame_index_mod(f + 3 * 4), Some(idx));
    }
}

#[test]
fn reversed_sub_range_is_stored_ascending() {
    // setting (10, 4) stores (4, 10): the mapped index starts at 4 and
    // cycles over 7 cells
    let mut a = Animation::new_loop("sheet", 100, (16, 16), None);
    a.set_rect_index_range((10, 4));
    assert_eq!(a.frame_index_mod(0), Some(4));
    assert_eq!(a.frame_index_mod(6), Some(10));
    assert_eq!(a.frame_index_mod(7), Some(4));
}

#[test]
fn equal_sub_range_is_kept() {
    let mut a = Animation::new_loop("sheet", 100, (16, 16), None);
    a.set_rect_index_range((5, 5));
    assert_eq!(a.frame_index_mod(0), Some(5));
    assert_eq!(a.frame_index_mod(9), Some(5));
}

#[test]
fn static_animation_ignores_sub_range() {
    let mut a = Animation::new_static("sheet");
    a.set_rect_index_range((1, 3));
    assert_eq!(a.frame_index_mod(0), None);
}

#[test]
fn frame_wraps_past_sub_range_span() {
    // span [0, 2]: the counter runs 0,1,2,3 and the advance out of 3 wraps
    let mut a = Animation::new_loop("sheet", 100, (16, 16), Some((0, 2)));
    assert!(!a.safe_increment_frame((64, 16)));
    assert_eq!(a.current_frame, 1);
    assert!(!a.safe_increment_frame((64, 16)));
    assert_eq!(a.current_frame, 2);
    assert!(!a.safe_increment_frame((64, 16)));
    assert_eq!(a.current_frame, 3);
    assert!(a.safe_increment_frame((64, 16)));
    assert_eq!(a.current_frame, 0);
}

#[test]
fn frame_wraps_at_sheet_capacity() {
    // a 64x16 sheet of 16x16 cells holds 4 cells; the counter resets at
    // the last index
    let mut a = Animation::new_loop("sheet", 100, (16, 16), None);
    assert!(!a.safe_increment_frame((64, 16)));
    assert!(!a.safe_increment_frame((64, 16)));
    assert!(!a.safe_increment_frame((64, 16)));
    assert_eq!(a.current_frame, 3);
    assert!(a.safe_increment_frame((64, 16)));
    assert_eq!(a.current_frame, 0);
}

#[test]
fn rect_follows_raster_order() {
    let mut a = Animation::new_loop("sheet", 100, (16, 16), None);
    let r0 = a.get_current_rect((64, 32)).unwrap();
    assert_eq!((r0.left, r0.top, r0.width, r0.height), (0, 0, 16, 16));
    a.increment_frame();
    let r1 = a.get_current_rect((64, 32)).unwrap();
    assert_eq!((r1.left, r1.top), (16, 0));
    a.current_frame = 5;
    let r5 = a.get_current_rect((64, 32)).unwrap();
    assert_eq!((r5.left, r5.top), (16, 16));
}

#[test]
fn sub_range_rect_maps_through_range() {
    // range [1, 2] on a 4-cell row: frame 0 shows cell 1, frame 2 cycles
    // back to cell 1
    let a = Animation {
        current_frame: 2,
        ..Animation::new_loop("sheet", 100, (16, 16), Some((1, 2)))
    };
    let r = a.get_current_rect((64, 16)).unwrap();
    assert_eq!((r.left, r.top), (16, 0));
}

#[test]
fn degenerate_sub_range_yields_no_rect() {
    // an equal-range or beyond-capacity range suppresses the rectangle
    let a = Animation::new_loop("sheet", 100, (16, 16), Some((2, 2)));
    assert_eq!(a.get_current_rect((64, 16)), None);
    let b = Animation::new_loop("sheet", 100, (16, 16), Some((1, 9)));
    assert_eq!(b.get_current_rect((64, 16)), None);
}

#[test]
fn flip_mirrors_rect() {
    let r = PixelRect { left: 16, top: 0, width: 16, height: 16 };
    let fx = flip_rect(r, true, false);
    assert_eq!((fx.left, fx.width), (32, -16));
    let fy = flip_rect(r, false, true);
    assert_eq!((fy.top, fy.height), (16, -16));
    let none = flip_rect(r, false, false);
    assert_eq!(none, r);
}

#[test]
fn duration_clock_accumulates_and_resets() {
    let mut a = Animation::new_loop("sheet", 100, (16, 16), None);
    assert!(!a.time_to_next_frame());
    a.increment_duration(60);
    assert!(!a.time_to_next_frame());
    a.increment_duration(40);
    assert!(a.time_to_next_frame());
    a.reset_duration();
    assert_eq!(a.current_total_duration, 0);
    assert!(!a.time_to_next_frame());
}

#[test]
fn finite_loop_counts_wraps() {
    let mut a = Animation::new_finite_loop("idle", "sheet", 100, 3, (16, 16), Some((0, 0)));
    a.increment_loop();
    a.increment_loop();
    match &a.type_ {
        AnimationType::FiniteLoop { current_loop, loops, .. } => {
            assert_eq!(*current_loop, 2);
            assert_eq!(*loops, 3);
        },
        _ => panic!("expected a finite loop"),
    }
}
