use drawing::brush::Radius;
use drawing::canvas::Canvas;
use drawing::color::{Color, Ink};
use drawing::geometry::{Bounds, Point, Shape};

fn at_pixels(x: i32, y: i32) -> Point {
    Point::new(x * 256, y * 256).unwrap()
}

fn pixels(n: i32) -> Radius {
    Radius::new(n * 256).unwrap()
}

fn count_of(canvas: &Canvas, color: Color) -> usize {
    let mut count = 0;
    for row in 0..canvas.height() {
        for col in 0..canvas.width() {
            if canvas.pixel(col, row) == Some(color) {
                count += 1;
            }
        }
    }
    count
}

#[test]
fn fresh_canvas_is_solid_background() {
    let canvas = Canvas::create(809, 500, Color::background()).unwrap();
    assert_eq!(canvas.width(), 809);
    assert_eq!(canvas.height(), 500);
    let expected = Color { red: 4, green: 101, blue: 130, alpha: 255 };
    assert_eq!(count_of(&canvas, expected), 809 * 500);
    assert_eq!(canvas.pixel(808, 499), Some(expected));
    assert_eq!(canvas.pixel(809, 0), None);
    assert_eq!(canvas.pixel(0, 500), None);
}

#[test]
fn canvas_may_be_empty_but_not_too_wide() {
    let empty = Canvas::create(0, 7, Color::background()).unwrap();
    assert_eq!(empty.width(), 0);
    assert_eq!(empty.height(), 7);
    assert_eq!(empty.pixel(0, 0), None);
    assert!(Canvas::create(4_194_305, 1, Color::background()).is_none());
    assert!(Canvas::create(1, 4_194_305, Color::background()).is_none());
    assert!(Canvas::create(4_194_304, 1, Color::background()).is_some());
}

#[test]
fn dot_fills_exactly_the_pixels_whose_centre_is_in_reach() {
    let background = Color::background();
    let paint = Ink::Paint.color();
    let mut canvas = Canvas::create(64, 48, background).unwrap();
    canvas.dot(at_pixels(30, 20), pixels(7), paint);
    let mut painted = 0;
    for row in 0..48i64 {
        for col in 0..64i64 {
            let dx = col * 256 + 128 - 30 * 256;
            let dy = row * 256 + 128 - 20 * 256;
            let inside = dx * dx + dy * dy <= (7 * 256) * (7 * 256);
            let expected = if inside { paint } else { background };
            assert_eq!(canvas.pixel(col as usize, row as usize), Some(expected));
            if inside {
                painted += 1;
            }
        }
    }
    // a disc of radius 7 around a pixel corner covers 156 pixel centres
    assert_eq!(painted, 156);
    assert_eq!(canvas.width(), 64);
    assert_eq!(canvas.height(), 48);
}

#[test]
fn dot_of_the_smallest_radius_covers_the_four_pixels_around_a_corner() {
    let background = Color::background();
    let paint = Ink::Paint.color();
    let mut canvas = Canvas::create(8, 8, background).unwrap();
    canvas.dot(at_pixels(4, 4), pixels(1), paint);
    assert_eq!(count_of(&canvas, paint), 4);
    for (col, row) in [(3, 3), (4, 3), (3, 4), (4, 4)] {
        assert_eq!(canvas.pixel(col, row), Some(paint));
    }
}

#[test]
fn dot_partly_or_wholly_off_the_canvas_paints_what_is_on_it() {
    let background = Color::background();
    let paint = Ink::Paint.color();
    let mut canvas = Canvas::create(10, 10, background).unwrap();
    canvas.dot(at_pixels(0, 0), pixels(2), paint);
    assert_eq!(canvas.pixel(0, 0), Some(paint));
    assert_eq!(canvas.pixel(1, 0), Some(paint));
    assert_eq!(canvas.pixel(0, 1), Some(paint));
    assert_eq!(canvas.pixel(1, 1), Some(background));
    assert_eq!(canvas.pixel(2, 0), Some(background));
    assert_eq!(count_of(&canvas, paint), 3);
    let before = canvas.to_words();
    canvas.dot(at_pixels(-500, 4000), pixels(3), paint);
    assert_eq!(canvas.to_words(), before);
    canvas.dot(Point::new(1_073_741_824, -1_073_741_824).unwrap(), pixels(3), paint);
    assert_eq!(canvas.to_words(), before);
}

#[test]
fn segment_fills_the_band_between_its_ends() {
    let background = Color::background();
    let paint = Ink::Paint.color();
    let mut canvas = Canvas::create(200, 200, background).unwrap();
    canvas.segment(at_pixels(50, 100), at_pixels(150, 100), pixels(10), paint);
    for row in 0..200usize {
        for col in 0..200usize {
            let inside = (50..150).contains(&col) && (90..110).contains(&row);
            let expected = if inside { paint } else { background };
            assert_eq!(canvas.pixel(col, row), Some(expected), "column {} row {}", col, row);
        }
    }
}

#[test]
fn slanted_segment_keeps_its_width_across_the_line() {
    let background = Color::background();
    let paint = Ink::Paint.color();
    let mut canvas = Canvas::create(200, 200, background).unwrap();
    // from (40, 40) to (100, 120): direction (3, 4), of length 100
    canvas.segment(at_pixels(40, 40), at_pixels(100, 120), pixels(10), paint);
    for row in 0..200i64 {
        for col in 0..200i64 {
            let ax = 2 * (col - 40) + 1;
            let ay = 2 * (row - 40) + 1;
            // twice the distance along the line, times five; and across it
            let along = 3 * ax + 4 * ay;
            let across = 4 * ax - 3 * ay;
            let inside = 0 <= along && along <= 1000 && across.abs() <= 100;
            let expected = if inside { paint } else { background };
            assert_eq!(
                canvas.pixel(col as usize, row as usize),
                Some(expected),
                "column {} row {}",
                col,
                row
            );
        }
    }
    assert_eq!(canvas.pixel(70, 80), Some(paint));
    assert_eq!(canvas.pixel(77, 74), Some(paint));
    assert_eq!(canvas.pixel(78, 74), Some(background));
    assert_eq!(canvas.pixel(79, 73), Some(background));
}

#[test]
fn segment_between_equal_points_changes_nothing() {
    let background = Color::background();
    let paint = Ink::Paint.color();
    let mut canvas = Canvas::create(120, 90, background).unwrap();
    canvas.dot(at_pixels(20, 20), pixels(5), paint);
    let before = canvas.to_words();
    canvas.segment(at_pixels(60, 45), at_pixels(60, 45), pixels(30), Color::cursor());
    assert_eq!(canvas.to_words(), before);
    assert_eq!(canvas.width(), 120);
    assert_eq!(canvas.height(), 90);
}

#[test]
fn stroke_to_the_same_point_paints_only_the_circle() {
    let background = Color::background();
    let paint = Ink::Paint.color();
    let mut stroked = Canvas::create(120, 90, background).unwrap();
    let mut dotted = Canvas::create(120, 90, background).unwrap();
    stroked.stroke_to(at_pixels(60, 45), at_pixels(60, 45), pixels(12), paint);
    dotted.dot(at_pixels(60, 45), pixels(12), paint);
    assert_eq!(stroked.to_words(), dotted.to_words());
    assert_eq!(stroked.pixel(60, 45), Some(paint));
}

#[test]
fn press_and_drag_paints_two_circles_and_the_band_between() {
    let background = Color::background();
    let paint = Ink::Paint.color();
    let mut canvas = Canvas::create(809, 500, background).unwrap();
    canvas.dot(at_pixels(100, 100), pixels(20), paint);
    canvas.stroke_to(at_pixels(100, 100), at_pixels(150, 100), pixels(20), paint);
    assert_eq!(canvas.pixel(100, 100), Some(paint));
    assert_eq!(canvas.pixel(150, 100), Some(paint));
    assert_eq!(canvas.pixel(125, 100), Some(paint));
    // left edge of the first circle, right edge of the second
    assert_eq!(canvas.pixel(80, 100), Some(paint));
    assert_eq!(canvas.pixel(79, 100), Some(background));
    assert_eq!(canvas.pixel(169, 100), Some(paint));
    assert_eq!(canvas.pixel(170, 100), Some(background));
    // the band reaches twenty pixels above and below the line
    assert_eq!(canvas.pixel(125, 80), Some(paint));
    assert_eq!(canvas.pixel(125, 79), Some(background));
    assert_eq!(canvas.pixel(125, 119), Some(paint));
    assert_eq!(canvas.pixel(125, 120), Some(background));
    // far from the stroke
    assert_eq!(canvas.pixel(100, 300), Some(background));
}

#[test]
fn stroke_leaves_no_gap_between_circle_and_band() {
    let background = Color::background();
    let paint = Ink::Paint.color();
    let mut canvas = Canvas::create(300, 300, background).unwrap();
    let (x0, y0, x1, y1, r) = (60i64, 70i64, 230i64, 190i64, 15i64);
    canvas.dot(at_pixels(x0 as i32, y0 as i32), pixels(r as i32), paint);
    canvas.stroke_to(
        at_pixels(x0 as i32, y0 as i32),
        at_pixels(x1 as i32, y1 as i32),
        pixels(r as i32),
        paint,
    );
    // every pixel centre within the radius of a point of the segment is painted
    for step in 0..=1000i64 {
        let sx = 2 * x0 * 1000 + 2 * (x1 - x0) * step;
        let sy = 2 * y0 * 1000 + 2 * (y1 - y0) * step;
        for row in (sy / 2000 - r - 1).max(0)..(sy / 2000 + r + 2).min(300) {
            for col in (sx / 2000 - r - 1).max(0)..(sx / 2000 + r + 2).min(300) {
                let dx = (2 * col + 1) * 1000 - sx;
                let dy = (2 * row + 1) * 1000 - sy;
                if dx * dx + dy * dy <= (2000 * r) * (2000 * r) {
                    assert_eq!(canvas.pixel(col as usize, row as usize), Some(paint));
                }
            }
        }
    }
}

#[test]
fn erasing_over_paint_restores_the_background() {
    let background = Color::background();
    let mut canvas = Canvas::create(200, 200, background).unwrap();
    let fresh = canvas.to_words();
    canvas.dot(at_pixels(100, 100), pixels(20), Ink::Paint.color());
    assert_eq!(canvas.pixel(100, 100), Some(Ink::Paint.color()));
    assert_ne!(canvas.to_words(), fresh);
    canvas.dot(at_pixels(100, 100), pixels(20), Ink::Erase.color());
    assert_eq!(canvas.pixel(100, 100), Some(background));
    assert_eq!(canvas.to_words(), fresh);
}

#[test]
fn erasing_a_smaller_circle_leaves_a_ring_of_paint() {
    let background = Color::background();
    let paint = Ink::Paint.color();
    let mut canvas = Canvas::create(200, 200, background).unwrap();
    canvas.dot(at_pixels(100, 100), pixels(20), paint);
    canvas.dot(at_pixels(100, 100), pixels(10), Ink::Erase.color());
    assert_eq!(canvas.pixel(100, 100), Some(background));
    assert_eq!(canvas.pixel(109, 100), Some(background));
    assert_eq!(canvas.pixel(110, 100), Some(paint));
    assert_eq!(canvas.pixel(119, 100), Some(paint));
    assert_eq!(canvas.pixel(120, 100), Some(background));
}

#[test]
fn composite_fills_the_shape_it_is_given() {
    let background = Color::background();
    let paint = Ink::Paint.color();
    let mut by_shape = Canvas::create(100, 100, background).unwrap();
    let mut by_name = Canvas::create(100, 100, background).unwrap();
    by_shape.composite(Shape::Disc { center: at_pixels(30, 30), radius: pixels(9) }, paint);
    by_name.dot(at_pixels(30, 30), pixels(9), paint);
    assert_eq!(by_shape.to_words(), by_name.to_words());
    by_shape.composite(
        Shape::Band { from: at_pixels(30, 30), to: at_pixels(70, 60), radius: pixels(9) },
        paint,
    );
    by_name.segment(at_pixels(30, 30), at_pixels(70, 60), pixels(9), paint);
    assert_eq!(by_shape.to_words(), by_name.to_words());
    assert_eq!(by_shape.pixel(50, 45), Some(paint));
}

#[test]
fn shape_covers_what_lies_within_it() {
    let disc = Shape::Disc { center: at_pixels(10, 10), radius: pixels(5) };
    assert!(disc.covers(at_pixels(10, 15)));
    assert!(disc.covers(at_pixels(13, 14)));
    assert!(!disc.covers(at_pixels(14, 14)));
    assert!(!disc.covers(Point::new(10 * 256, 15 * 256 + 1).unwrap()));
    let band = Shape::Band { from: at_pixels(0, 0), to: at_pixels(30, 40), radius: pixels(5) };
    assert!(band.covers(at_pixels(15, 20)));
    assert!(band.covers(at_pixels(4, -3)));
    assert!(!band.covers(Point::new(4 * 256 + 1, -3 * 256).unwrap()));
    assert!(band.covers(at_pixels(0, 0)));
    assert!(band.covers(at_pixels(30, 40)));
    assert!(!band.covers(at_pixels(31, 41)));
    assert!(!band.covers(at_pixels(-1, -1)));
    let none = Shape::Band { from: at_pixels(7, 7), to: at_pixels(7, 7), radius: pixels(5) };
    assert!(!none.covers(at_pixels(7, 7)));
}

#[test]
fn shape_covers_at_the_limits_of_the_plane() {
    let limit = 1_073_741_824;
    let far = Point::new(limit, limit).unwrap();
    let near = Point::new(-limit, -limit).unwrap();
    let widest = Radius::new(limit).unwrap();
    let disc = Shape::Disc { center: near, radius: widest };
    assert!(!disc.covers(far));
    assert!(disc.covers(Point::new(0, -limit).unwrap()));
    let band = Shape::Band { from: near, to: far, radius: widest };
    assert!(band.covers(Point::new(0, 0).unwrap()));
    assert!(band.covers(far));
    assert!(band.covers(Point::new(limit, 0).unwrap()));
    assert!(!band.covers(Point::new(limit, -limit).unwrap()));
}

#[test]
fn points_and_radii_outside_their_range_are_refused() {
    assert!(Point::new(1_073_741_824, -1_073_741_824).is_some());
    assert!(Point::new(1_073_741_825, 0).is_none());
    assert!(Point::new(0, -1_073_741_825).is_none());
    assert!(Point::new(i32::MIN, i32::MAX).is_none());
    let p = Point::new(-3, 77).unwrap();
    assert_eq!(p.x(), -3);
    assert_eq!(p.y(), 77);
    assert!(p.coincides(Point::new(-3, 77).unwrap()));
    assert!(!p.coincides(Point::new(-3, 78).unwrap()));
    assert!(Radius::new(255).is_none());
    assert!(Radius::new(0).is_none());
    assert!(Radius::new(-256).is_none());
    assert!(Radius::new(1_073_741_825).is_none());
    assert_eq!(Radius::new(256).unwrap().units(), 256);
    assert_eq!(Radius::new(1_073_741_824).unwrap().units(), 1_073_741_824);
}

#[test]
fn bounding_box_reaches_the_radius_beyond_the_end_points() {
    let disc = Shape::Disc { center: at_pixels(10, -4), radius: pixels(3) };
    assert_eq!(
        disc.bounding_box(),
        Bounds { left: 7 * 256, right: 13 * 256, top: -7 * 256, bottom: -256 }
    );
    let band = Shape::Band { from: at_pixels(30, 5), to: at_pixels(-2, 9), radius: pixels(2) };
    assert_eq!(
        band.bounding_box(),
        Bounds { left: -4 * 256, right: 32 * 256, top: 3 * 256, bottom: 11 * 256 }
    );
    let limit = 1_073_741_824;
    let widest = Shape::Band {
        from: Point::new(-limit, limit).unwrap(),
        to: Point::new(limit, -limit).unwrap(),
        radius: Radius::new(limit).unwrap(),
    };
    assert_eq!(
        widest.bounding_box(),
        Bounds { left: -2_147_483_648, right: 2_147_483_648, top: -2_147_483_648, bottom: 2_147_483_648 }
    );
}

#[test]
fn painting_on_a_canvas_without_pixels_does_nothing() {
    let paint = Ink::Paint.color();
    let mut no_columns = Canvas::create(0, 7, Color::background()).unwrap();
    no_columns.dot(at_pixels(0, 3), pixels(10), paint);
    no_columns.stroke_to(at_pixels(0, 3), at_pixels(5, 5), pixels(10), paint);
    assert_eq!(no_columns.to_words(), Vec::<u32>::new());
    assert_eq!(no_columns.width(), 0);
    assert_eq!(no_columns.height(), 7);
    let mut no_rows = Canvas::create(7, 0, Color::background()).unwrap();
    no_rows.segment(at_pixels(0, 0), at_pixels(7, 0), pixels(1), paint);
    assert_eq!(no_rows.to_words(), Vec::<u32>::new());
}

#[test]
fn brush_wider_than_the_canvas_fills_it() {
    let paint = Ink::Paint.color();
    let mut canvas = Canvas::create(30, 20, Color::background()).unwrap();
    canvas.dot(at_pixels(15, 10), Radius::new(1_073_741_824).unwrap(), paint);
    assert_eq!(count_of(&canvas, paint), 600);
    let mut canvas = Canvas::create(30, 20, Color::background()).unwrap();
    canvas.segment(at_pixels(-100, 10), at_pixels(100, 10), pixels(1000), paint);
    assert_eq!(count_of(&canvas, paint), 600);
}

#[test]
fn stroke_along_the_edge_paints_the_half_that_is_on_the_canvas() {
    let background = Color::background();
    let paint = Ink::Paint.color();
    let mut canvas = Canvas::create(40, 40, background).unwrap();
    canvas.segment(at_pixels(0, 0), at_pixels(0, 40), pixels(5), paint);
    for row in 0..40 {
        for col in 0..40 {
            let expected = if col < 5 { paint } else { background };
            assert_eq!(canvas.pixel(col, row), Some(expected));
        }
    }
    canvas.segment(at_pixels(40, 40), at_pixels(0, 40), pixels(5), paint);
    assert_eq!(canvas.pixel(20, 35), Some(paint));
    assert_eq!(canvas.pixel(20, 34), Some(background));
    assert_eq!(canvas.pixel(39, 39), Some(paint));
}

#[test]
fn composite_paints_what_the_shape_covers_and_nothing_else() {
    let background = Color::background();
    let paint = Ink::Paint.color();
    let mut seed: u64 = 0x2545_f491_4f6c_dd1d;
    let mut next = move |span: i32| -> i32 {
        seed = seed.wrapping_mul(6364136223846793005).wrapping_add(1442695040888963407);
        ((seed >> 33) % (span as u64)) as i32
    };
    for round in 0..60 {
        let from = Point::new(next(30_000) - 7_000, next(30_000) - 7_000).unwrap();
        let to = Point::new(next(30_000) - 7_000, next(30_000) - 7_000).unwrap();
        let radius = Radius::new(256 + next(4_000)).unwrap();
        let shape = if round % 3 == 0 {
            Shape::Disc { center: from, radius }
        } else {
            Shape::Band { from, to, radius }
        };
        let mut canvas = Canvas::create(64, 48, background).unwrap();
        canvas.composite(shape, paint);
        for row in 0..48usize {
            for col in 0..64usize {
                let centre = Point::new(col as i32 * 256 + 128, row as i32 * 256 + 128).unwrap();
                let expected = if shape.covers(centre) { paint } else { background };
                assert_eq!(canvas.pixel(col, row), Some(expected), "round {}", round);
            }
        }
    }
}
