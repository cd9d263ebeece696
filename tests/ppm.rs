use ray_cast::ppm::{decimal_string, header_string, image_string, pixel_string, append_decimal, Rgb};

fn rgb(r: i32, g: i32, b: i32) -> Rgb {
    Rgb { r, g, b }
}

#[test]
fn decimal_of_small_values() {
    assert_eq!(decimal_string(0), "0");
    assert_eq!(decimal_string(7), "7");
    assert_eq!(decimal_string(10), "10");
    assert_eq!(decimal_string(255), "255");
}

#[test]
fn decimal_of_negative_values() {
    assert_eq!(decimal_string(-1), "-1");
    assert_eq!(decimal_string(-42), "-42");
}

#[test]
fn decimal_of_extremes() {
    assert_eq!(decimal_string(i32::MAX), "2147483647");
    assert_eq!(decimal_string(i32::MIN), "-2147483648");
}

#[test]
fn decimal_matches_std_formatting() {
    for n in [-1000, -99, -10, -9, 0, 1, 9, 99, 100, 101, 65535, 1_000_000] {
        assert_eq!(decimal_string(n), format!("{}", n));
    }
}

#[test]
fn append_decimal_keeps_prefix() {
    let mut s = String::from("x=");
    append_decimal(&mut s, 305);
    assert_eq!(s, "x=305");
}

#[test]
fn header_of_wide_image() {
    assert_eq!(header_string(600, 337), "P3\n600 337\n255\n");
}

#[test]
fn header_of_small_image() {
    assert_eq!(header_string(2, 1), "P3\n2 1\n255\n");
}

#[test]
fn pixel_line() {
    assert_eq!(pixel_string(rgb(255, 0, 128)), "255 0 128\n");
    assert_eq!(pixel_string(rgb(0, 0, 0)), "0 0 0\n");
}

#[test]
fn image_of_two_pixels() {
    let pixels = vec![rgb(255, 255, 255), rgb(127, 178, 255)];
    assert_eq!(image_string(2, 1, &pixels), "P3\n2 1\n255\n255 255 255\n127 178 255\n");
}

#[test]
fn image_without_pixels() {
    assert_eq!(image_string(0, 0, &Vec::new()), "P3\n0 0\n255\n");
    assert_eq!(image_string(4, 0, &Vec::new()), "P3\n4 0\n255\n");
}

#[test]
fn image_text_is_reproducible() {
    let pixels = vec![rgb(1, 2, 3), rgb(4, 5, 6), rgb(7, 8, 9), rgb(10, 11, 12)];
    let first = image_string(2, 2, &pixels);
    let second = image_string(2, 2, &pixels);
    assert_eq!(first, second);
    assert_eq!(first, "P3\n2 2\n255\n1 2 3\n4 5 6\n7 8 9\n10 11 12\n");
}
