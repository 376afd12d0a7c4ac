use keyhint::geometry::{in_bounds, midpoint, read_pair};

#[test]
fn reads_a_printed_position() {
    let text = "<AXValue 0x600003c6c1e0 [0x7ff85b8d2b20]>{value = x:120.000000 y:48.000000 type = kAXValueCGPointType}";
    assert_eq!(read_pair(text, 'x', 'y'), (120, 48));
}

#[test]
fn reads_a_printed_size() {
    let text = "<AXValue 0x1> {value = w:800.000000 h:600.500000 type = kAXValueCGSizeType}";
    assert_eq!(read_pair(text, 'w', 'h'), (800, 600));
    assert_eq!(read_pair(text, 'x', 'y'), (0, 0));
}

#[test]
fn reads_signs() {
    assert_eq!(read_pair("x:-12.5 y:+7.0", 'x', 'y'), (-12, 7));
    assert_eq!(read_pair("x:-0.0 y:007.0", 'x', 'y'), (0, 7));
}

#[test]
fn reads_the_limits_of_32_bits() {
    assert_eq!(read_pair("x:2147483647.0 y:-2147483648.0", 'x', 'y'), (2147483647, -2147483648));
    assert_eq!(read_pair("x:2147483648.0 y:1.0", 'x', 'y'), (0, 0));
    assert_eq!(read_pair("x:1.0 y:-2147483649.0", 'x', 'y'), (0, 0));
    assert_eq!(read_pair("x:99999999999999999999999999.0 y:1.0", 'x', 'y'), (0, 0));
    assert_eq!(read_pair("x:00000000000000000000000042.0 y:1.0", 'x', 'y'), (42, 1));
}

#[test]
fn malformed_text_reads_as_the_origin() {
    for text in [
        "",
        "x:",
        "x:12 y:5",
        "x:12.0",
        "x:12.0 y:5",
        "x:.0 y:1.0",
        "x:-.0 y:1.0",
        "x:+.0 y:1.0",
        "x:abc.0 y:1.0",
        "x:1 2.0 y:1.0",
        "x:1.0 y:1e3.0",
        "x: 1.0 y:1.0",
        "y:5.0 x:1.0",
        "x:1y:2.0 z",
        "x 1.0 y 2.0",
        "x:\u{661}\u{662}.0 y:1.0",
    ] {
        assert_eq!(read_pair(text, 'x', 'y'), (0, 0), "{text:?}");
    }
}

#[test]
fn the_second_number_is_looked_for_behind_the_first_key() {
    assert_eq!(read_pair("y:9.0 x:1.0 y:2.0", 'x', 'y'), (1, 2));
    assert_eq!(read_pair("x:1.0 x:5.0 y:2.0 y:3.0", 'x', 'y'), (1, 2));
    assert_eq!(read_pair("xx:7.5y:8.5", 'x', 'y'), (7, 8));
    assert_eq!(read_pair("a:1.0 a:2.0", 'a', 'a'), (1, 2));
}

#[test]
fn a_point_in_the_window() {
    assert!(in_bounds(5, 5, 0, 0, 10, 10));
    assert!(in_bounds(0, 0, 0, 0, 10, 10));
    assert!(in_bounds(10, 10, 0, 0, 10, 10));
    assert!(!in_bounds(11, 10, 0, 0, 10, 10));
    assert!(!in_bounds(10, 11, 0, 0, 10, 10));
    assert!(!in_bounds(-1, 5, 0, 0, 10, 10));
    assert!(!in_bounds(5, -1, 0, 0, 10, 10));
    assert!(in_bounds(-5, -5, -10, -10, 5, 5));
    assert!(!in_bounds(5, 5, 0, 0, -1, -1));
}

#[test]
fn a_window_at_the_edge_of_the_numbers() {
    assert!(in_bounds(i32::MAX, i32::MAX, i32::MAX, i32::MAX, i32::MAX, i32::MAX));
    assert!(in_bounds(i32::MAX, 0, 1, 0, i32::MAX, 0));
    assert!(!in_bounds(i32::MIN, 0, i32::MIN + 1, 0, i32::MAX, 0));
}

#[test]
fn the_middle_of_a_stretch() {
    assert_eq!(midpoint(10, 30), 25);
    assert_eq!(midpoint(0, 5), 2);
    assert_eq!(midpoint(0, -5), -2);
    assert_eq!(midpoint(-7, 1), -7);
    assert_eq!(midpoint(-7, 0), -7);
    assert_eq!(midpoint(i32::MAX, i32::MAX), 2147483647 + 1073741823);
    assert_eq!(midpoint(i32::MIN, i32::MIN), -2147483648 - 1073741824);
}
