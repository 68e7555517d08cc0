use text_svg::{Builder, Glyph, OutOfRange, Point, Rect, ScaledGlyph, Segment};

fn boxed(min_x: i64, min_y: i64, max_x: i64, max_y: i64) -> Rect {
    Rect { min: Point { x: min_x, y: min_y }, max: Point { x: max_x, y: max_y } }
}

fn square(min_x: i64, min_y: i64, side: i64) -> ScaledGlyph {
    ScaledGlyph {
        outline: vec![
            Segment::MoveTo { x: min_x, y: min_y },
            Segment::LineTo { x: min_x + side, y: min_y },
            Segment::LineTo { x: min_x + side, y: min_y + side },
            Segment::LineTo { x: min_x, y: min_y + side },
            Segment::Close,
        ],
        bounding_box: Some(boxed(min_x, min_y, min_x + side, min_y + side)),
    }
}

fn ring() -> ScaledGlyph {
    ScaledGlyph {
        outline: vec![
            Segment::MoveTo { x: 0, y: 5 },
            Segment::QuadTo { x1: 0, y1: 0, x: 5, y: 0 },
            Segment::CurveTo { x1: 8, y1: 0, x2: 10, y2: 2, x: 10, y: 5 },
            Segment::LineTo { x: 0, y: 5 },
            Segment::Close,
            Segment::MoveTo { x: 3, y: 3 },
            Segment::LineTo { x: 6, y: 3 },
            Segment::LineTo { x: 6, y: 4 },
            Segment::Close,
        ],
        bounding_box: Some(boxed(0, 0, 10, 5)),
    }
}

fn numbers_in(d: &str) -> Vec<i64> {
    let mut numbers = Vec::new();
    let mut current = String::new();
    for c in d.chars() {
        if c == '-' || c.is_ascii_digit() {
            current.push(c);
        } else if !current.is_empty() {
            numbers.push(current.parse().unwrap());
            current.clear();
        }
    }
    if !current.is_empty() {
        numbers.push(current.parse().unwrap());
    }
    numbers
}

#[test]
fn build_outline_feeds_every_event_in_order() {
    let glyph = square(2, -3, 4);
    let mut d = String::new();
    let mut builder = Builder::new(10, 100, &mut d);
    glyph.build_outline(&mut builder);
    assert_eq!(d, "M12 97L16 97L16 101L12 101Z");
}

#[test]
fn build_outline_of_an_empty_outline_writes_nothing() {
    let glyph = ScaledGlyph { outline: vec![], bounding_box: None };
    let mut d = String::from("M0 0");
    let mut builder = Builder::new(1, 1, &mut d);
    glyph.build_outline(&mut builder);
    assert_eq!(d, "M0 0");
}

#[test]
fn a_glyph_needs_a_bounding_box() {
    let blank = ScaledGlyph { outline: vec![], bounding_box: None };
    assert!(Glyph::new(blank).is_none());
}

#[test]
fn a_glyph_keeps_the_backend_data_and_its_box() {
    let glyph = Glyph::new(square(2, -3, 4)).unwrap();
    assert_eq!(glyph.bounding_box, boxed(2, -3, 6, 1));
    assert_eq!(glyph.scaled.bounding_box, Some(boxed(2, -3, 6, 1)));
    assert_eq!(glyph.scaled.outline.len(), 5);
    assert_eq!(glyph.scaled.outline[0], Segment::MoveTo { x: 2, y: -3 });
}

#[test]
fn write_path_puts_the_least_corner_at_the_given_point() {
    let glyph = Glyph::new(square(2, -3, 4)).unwrap();
    let mut d = String::new();
    assert_eq!(glyph.write_path(10, 20, &mut d), Ok(()));
    assert_eq!(d, "M10 20L14 20L14 24L10 24Z");
}

#[test]
fn write_path_at_the_origin_has_least_coordinates_zero() {
    let glyph = Glyph::new(square(-7, 9, 5)).unwrap();
    let mut d = String::new();
    assert_eq!(glyph.write_path(0, 0, &mut d), Ok(()));
    assert_eq!(d, "M0 0L5 0L5 5L0 5Z");
    let numbers = numbers_in(&d);
    let xs: Vec<i64> = numbers.iter().copied().step_by(2).collect();
    let ys: Vec<i64> = numbers.iter().copied().skip(1).step_by(2).collect();
    assert_eq!(xs.iter().min(), Some(&0));
    assert_eq!(ys.iter().min(), Some(&0));
}

#[test]
fn write_path_appends_to_a_shared_buffer() {
    let first = Glyph::new(square(0, 0, 1)).unwrap();
    let second = Glyph::new(square(5, 5, 2)).unwrap();
    let mut d = String::new();
    assert_eq!(first.write_path(0, 0, &mut d), Ok(()));
    assert_eq!(second.write_path(10, 0, &mut d), Ok(()));
    assert_eq!(d, "M0 0L1 0L1 1L0 1ZM10 0L12 0L12 2L10 2Z");
}

#[test]
fn write_path_fails_where_the_shift_is_out_of_range() {
    let glyph = Glyph::new(square(-1, 0, 1)).unwrap();
    let mut d = String::from("kept");
    assert_eq!(glyph.write_path(i64::MAX, 0, &mut d), Err(OutOfRange));
    assert_eq!(d, "kept");
    let low = Glyph::new(square(0, 1, 1)).unwrap();
    assert_eq!(low.write_path(0, i64::MIN, &mut d), Err(OutOfRange));
    assert_eq!(d, "kept");
}

#[test]
fn write_path_reaches_the_ends_of_the_range() {
    let glyph = Glyph::new(square(0, 0, 0)).unwrap();
    let mut d = String::new();
    assert_eq!(glyph.write_path(i64::MAX, i64::MIN, &mut d), Ok(()));
    assert_eq!(
        d,
        "M9223372036854775807 -9223372036854775808L9223372036854775807 -9223372036854775808\
         L9223372036854775807 -9223372036854775808L9223372036854775807 -9223372036854775808Z"
    );
}

#[test]
fn path_data_begins_with_m_and_closes_each_contour() {
    let glyph = Glyph::new(ring()).unwrap();
    let mut d = String::new();
    assert_eq!(glyph.write_path(0, 0, &mut d), Ok(()));
    assert_eq!(d, "M0 5Q0 0,5 0C8 0,10 2,10 5L0 5ZM3 3L6 3L6 4Z");
    assert!(d.starts_with('M'));
    assert_eq!(d.matches('Z').count(), 2);
    assert_eq!(d.matches('M').count(), 2);
}

#[test]
fn path_is_a_filled_path_element() {
    let glyph = Glyph::new(square(2, -3, 4)).unwrap();
    let path = glyph.path(10, 20).unwrap();
    let attributes = path.get_attributes();
    assert_eq!(attributes.len(), 2);
    assert_eq!(attributes.get("d").map(|v| v.to_string()), Some("M10 20L14 20L14 24L10 24Z".to_string()));
    assert_eq!(attributes.get("fill").map(|v| v.to_string()), Some("#000".to_string()));
    assert_eq!(path.get_name(), "path");
}

#[test]
fn path_fails_where_the_shift_is_out_of_range() {
    let glyph = Glyph::new(square(1, 1, 1)).unwrap();
    assert!(matches!(glyph.path(i64::MIN, 0), Err(OutOfRange)));
}
