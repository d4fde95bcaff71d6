use kaesar_view::startup::{library_to_open, must_rotate_at_startup, StartupError};
use kaesar_view::canvas::{rgb24_colour, rotated_dims};
use kaesar_view::colour::Colour;
use kaesar_view::geom::{Point, Rectangle};
use kaesar_view::view::merge::{merge_rect, merge_rects};

fn rect(x0: i32, y0: i32, x1: i32, y1: i32) -> Rectangle {
    Rectangle::new(Point::new(x0, y0), Point::new(x1, y1))
}

#[test]
fn intersection_of_overlapping_rectangles() {
    let a = rect(0, 0, 10, 10);
    let b = rect(5, 5, 15, 15);
    assert_eq!(a.intersection(&b), Some(rect(5, 5, 10, 10)));
    assert_eq!(b.intersection(&a), Some(rect(5, 5, 10, 10)));
}

#[test]
fn rectangles_that_only_touch_do_not_meet() {
    let a = rect(0, 0, 10, 10);
    let b = rect(10, 0, 20, 10);
    assert!(!a.overlaps(&b));
    assert_eq!(a.intersection(&b), None);
}

#[test]
fn includes_is_half_open() {
    let a = rect(0, 0, 10, 10);
    assert!(a.includes(Point::new(0, 0)));
    assert!(a.includes(Point::new(9, 9)));
    assert!(!a.includes(Point::new(10, 5)));
    assert!(!a.includes(Point::new(5, 10)));
}

#[test]
fn contains_and_absorb() {
    let mut a = rect(0, 0, 10, 10);
    let b = rect(20, -5, 30, 5);
    assert!(a.contains(&rect(2, 2, 8, 8)));
    assert!(!a.contains(&b));
    a.absorb(&b);
    assert_eq!(a, rect(0, -5, 30, 10));
    assert!(a.contains(&b));
    assert!(a.contains(&rect(0, 0, 10, 10)));
}

#[test]
fn width_and_height() {
    let a = rect(-5, 3, 15, 10);
    assert_eq!(a.width(), 20);
    assert_eq!(a.height(), 7);
    let inverted = rect(10, 0, 5, 0);
    assert_eq!(inverted.width(), 4_294_967_291);
}

#[test]
fn extends_stacked_rectangles() {
    let top = rect(0, 0, 100, 50);
    let below = rect(0, 50, 100, 100);
    assert!(below.extends(&top));
    assert!(top.extends(&below));
    let beside = rect(100, 0, 200, 50);
    assert!(beside.extends(&top));
    let far = rect(0, 200, 100, 250);
    assert!(!far.extends(&top));
    let narrow = rect(0, 50, 40, 100);
    assert!(!narrow.extends(&top));
}

#[test]
fn merging_absorbs_extending_rectangles() {
    let mut rects = Vec::new();
    merge_rect(&mut rects, rect(0, 0, 100, 50));
    merge_rect(&mut rects, rect(0, 50, 100, 100));
    assert_eq!(rects, vec![rect(0, 0, 100, 100)]);
}

#[test]
fn merging_drops_held_rectangles_and_keeps_others() {
    let mut rects = vec![rect(0, 0, 100, 100)];
    merge_rects(&mut rects, &vec![rect(10, 10, 20, 20), rect(300, 300, 310, 310)]);
    assert_eq!(rects, vec![rect(0, 0, 100, 100), rect(300, 300, 310, 310)]);
}

#[test]
fn merging_collapses_the_tail() {
    let mut rects = vec![rect(0, 0, 100, 30), rect(0, 200, 100, 230)];
    merge_rect(&mut rects, rect(0, 230, 100, 260));
    assert_eq!(rects, vec![rect(0, 0, 100, 30), rect(0, 200, 100, 260)]);
}

#[test]
fn merging_covers_every_drawn_rectangle() {
    let drawn = vec![
        rect(0, 0, 50, 50),
        rect(0, 50, 50, 100),
        rect(60, 0, 70, 10),
        rect(61, 1, 69, 9),
        rect(500, 500, 600, 520),
    ];
    let mut rects = vec![rect(-10, -10, 0, 0)];
    let before = rects.clone();
    merge_rects(&mut rects, &drawn);
    for r in drawn.iter().chain(before.iter()) {
        assert!(rects.iter().any(|m| m.contains(r)));
    }
    assert!(rects.len() <= drawn.len() + before.len());
}

#[test]
fn rotation_swaps_sides() {
    assert_eq!(rotated_dims(800, 600, 0), (600, 800));
    assert_eq!(rotated_dims(600, 800, 0), (600, 800));
    assert_eq!(rotated_dims(600, 800, 1), (800, 600));
    assert_eq!(rotated_dims(800, 600, 3), (800, 600));
    assert_eq!(rotated_dims(800, 600, 2), (600, 800));
    assert_eq!(rotated_dims(800, 600, -1), (600, 800));
    assert_eq!(rotated_dims(600, 800, -1), (800, 600));
    assert_eq!(rotated_dims(500, 500, 1), (500, 500));
}

#[test]
fn rgb24_pixels_are_read_row_after_row() {
    let data: Vec<u8> = vec![1, 2, 3, 4, 5, 6, 7, 8, 9, 10, 11, 12];
    assert_eq!(rgb24_colour(&data, 2, 2, 0, 0), Colour::Rgb(1, 2, 3));
    assert_eq!(rgb24_colour(&data, 2, 2, 1, 0), Colour::Rgb(4, 5, 6));
    assert_eq!(rgb24_colour(&data, 2, 2, 0, 1), Colour::Rgb(7, 8, 9));
}

#[test]
fn inverting_twice_gives_the_colour_back() {
    let mut c = Colour::Rgb(10, 200, 0);
    c.invert();
    assert_eq!(c, Colour::Rgb(245, 55, 255));
    c.invert();
    assert_eq!(c, Colour::Rgb(10, 200, 0));
    let mut g = Colour::Gray(0x88);
    g.invert();
    assert_eq!(g, Colour::Gray(0x77));
    assert_eq!(g.rgb(), [0x77, 0x77, 0x77]);
}

#[test]
fn shifting_a_colour_saturates_at_zero() {
    let mut c = Colour::Rgb(10, 200, 3);
    c.shift(5);
    assert_eq!(c, Colour::Rgb(5, 195, 0));
    let mut g = Colour::Gray(4);
    g.shift(9);
    assert_eq!(g, Colour::Gray(0));
}

#[test]
fn startup_opens_a_library_in_range() {
    assert_eq!(library_to_open(0, 0), Err(StartupError::NoLibraries));
    assert_eq!(library_to_open(3, 2), Ok(2));
    assert_eq!(library_to_open(3, 3), Ok(0));
    assert!(must_rotate_at_startup(false, 1, 0));
    assert!(!must_rotate_at_startup(true, 1, 0));
    assert!(!must_rotate_at_startup(false, 2, 2));
}
