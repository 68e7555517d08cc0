use text_svg::{Builder, Segment};

#[test]
fn move_to_writes_m_and_the_shifted_point() {
    let mut d = String::new();
    let mut builder = Builder::new(10, 20, &mut d);
    builder.move_to(1, 2);
    assert_eq!(d, "M11 22");
}

#[test]
fn line_to_writes_l_and_the_shifted_point() {
    let mut d = String::new();
    let mut builder = Builder::new(-5, 7, &mut d);
    builder.line_to(3, -9);
    assert_eq!(d, "L-2 -2");
}

#[test]
fn quad_to_writes_control_point_then_end_point() {
    let mut d = String::new();
    let mut builder = Builder::new(100, 200, &mut d);
    builder.quad_to(1, 2, 3, 4);
    assert_eq!(d, "Q101 202,103 204");
}

#[test]
fn curve_to_writes_two_control_points_then_end_point() {
    let mut d = String::new();
    let mut builder = Builder::new(100, 200, &mut d);
    builder.curve_to(1, 2, 3, 4, 5, 6);
    assert_eq!(d, "C101 202,103 204,105 206");
}

#[test]
fn close_writes_z() {
    let mut d = String::new();
    let mut builder = Builder::new(100, 200, &mut d);
    builder.close();
    assert_eq!(d, "Z");
}

#[test]
fn commands_follow_each_other_without_separator() {
    let mut d = String::new();
    let mut builder = Builder::new(1, 1, &mut d);
    builder.move_to(0, 0);
    builder.line_to(4, 0);
    builder.quad_to(4, 4, 0, 4);
    builder.close();
    assert_eq!(d, "M1 1L5 1Q5 5,1 5Z");
}

#[test]
fn builder_appends_to_a_buffer_that_holds_data() {
    let mut d = String::from("M0 0Z");
    let mut builder = Builder::new(0, 0, &mut d);
    builder.move_to(8, 9);
    assert_eq!(d, "M0 0ZM8 9");
}

#[test]
fn new_keeps_the_offsets_and_the_buffer() {
    let mut d = String::from("abc");
    let builder = Builder::new(-3, 4, &mut d);
    assert_eq!(builder.x, -3);
    assert_eq!(builder.y, 4);
    assert_eq!(builder.d.as_str(), "abc");
}

#[test]
fn shifted_coordinates_may_leave_the_range_of_the_inputs() {
    let mut d = String::new();
    let mut builder = Builder::new(i64::MAX, i64::MIN, &mut d);
    builder.move_to(i64::MAX, i64::MIN);
    assert_eq!(d, "M18446744073709551614 -18446744073709551616");
}

#[test]
fn record_writes_the_command_of_each_event() {
    let mut d = String::new();
    let mut builder = Builder::new(2, 3, &mut d);
    builder.record(Segment::MoveTo { x: 0, y: 0 });
    builder.record(Segment::LineTo { x: 1, y: 0 });
    builder.record(Segment::QuadTo { x1: 1, y1: 1, x: 0, y: 1 });
    builder.record(Segment::CurveTo { x1: 0, y1: 2, x2: 1, y2: 2, x: 1, y: 3 });
    builder.record(Segment::Close);
    assert_eq!(d, "M2 3L3 3Q3 4,2 4C2 5,3 5,3 6Z");
}
