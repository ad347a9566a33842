use raytracing::decimal::push_decimal;
use raytracing::raster::{
    encode_ppm, output_name, ppm_header_bytes, render_picture, visit_order,
};

fn decimal_of(n: u32) -> Vec<u8> {
    let mut out = Vec::new();
    push_decimal(&mut out, n);
    out
}

#[test]
fn decimal_digits() {
    assert_eq!(decimal_of(0), b"0".to_vec());
    assert_eq!(decimal_of(7), b"7".to_vec());
    assert_eq!(decimal_of(10), b"10".to_vec());
    assert_eq!(decimal_of(600), b"600".to_vec());
    assert_eq!(decimal_of(u32::MAX), b"4294967295".to_vec());
}

#[test]
fn decimal_appends_after_existing_bytes() {
    let mut out = b"x=".to_vec();
    push_decimal(&mut out, 337);
    assert_eq!(out, b"x=337".to_vec());
}

#[test]
fn header_of_default_image() {
    assert_eq!(ppm_header_bytes(600, 337), b"P6 600 337 255\n".to_vec());
}

#[test]
fn header_of_empty_image() {
    assert_eq!(ppm_header_bytes(0, 0), b"P6 0 0 255\n".to_vec());
}

#[test]
fn ppm_holds_every_channel_in_order() {
    let colors = vec![[1u8, 2, 3], [4, 5, 6], [7, 8, 9], [250, 251, 255]];
    let mut expected = b"P6 2 2 255\n".to_vec();
    expected.extend_from_slice(&[1, 2, 3, 4, 5, 6, 7, 8, 9, 250, 251, 255]);
    assert_eq!(encode_ppm(2, 2, &colors), expected);
}

#[test]
fn ppm_of_empty_image_is_its_header() {
    assert_eq!(encode_ppm(0, 5, &Vec::new()), b"P6 0 5 255\n".to_vec());
}

#[test]
fn picture_places_colors_row_after_row() {
    let colors = vec![
        [10u8, 11, 12],
        [20, 21, 22],
        [30, 31, 32],
        [40, 41, 42],
        [50, 51, 52],
        [60, 61, 62],
    ];
    let bytes = render_picture(3, 2, &colors).into_bytes();
    assert_eq!(
        bytes,
        vec![10, 11, 12, 20, 21, 22, 30, 31, 32, 40, 41, 42, 50, 51, 52, 60, 61, 62]
    );
}

#[test]
fn picture_of_one_column() {
    let colors = vec![[255u8, 0, 0], [0, 255, 0], [0, 0, 255]];
    let bytes = render_picture(1, 3, &colors).into_bytes();
    assert_eq!(bytes, vec![255, 0, 0, 0, 255, 0, 0, 0, 255]);
}

#[test]
fn empty_picture_has_no_bytes() {
    let bytes = render_picture(0, 0, &Vec::new()).into_bytes();
    assert!(bytes.is_empty());
}

#[test]
fn picture_bytes_match_ppm_body() {
    let colors = vec![[9u8, 8, 7], [6, 5, 4]];
    let header = ppm_header_bytes(2, 1);
    let ppm = encode_ppm(2, 1, &colors);
    let bytes = render_picture(2, 1, &colors).into_bytes();
    assert_eq!(&ppm[header.len()..], &bytes[..]);
}

#[test]
fn visit_order_starts_at_top_row() {
    assert_eq!(
        visit_order(3, 2),
        vec![(0, 1), (1, 1), (2, 1), (0, 0), (1, 0), (2, 0)]
    );
}

#[test]
fn visit_order_of_one_column() {
    assert_eq!(visit_order(1, 3), vec![(0, 2), (0, 1), (0, 0)]);
}

#[test]
fn visit_order_of_empty_image() {
    assert!(visit_order(0, 4).is_empty());
    assert!(visit_order(4, 0).is_empty());
}

#[test]
fn last_traced_row_is_bottom_of_picture() {
    // The color traced for row index 0 (the last row visited) ends up in the
    // bottom row of the image.
    let order = visit_order(2, 2);
    let colors: Vec<[u8; 3]> = order
        .iter()
        .map(|&(j, i)| [j as u8, i as u8, 100])
        .collect();
    let bytes = render_picture(2, 2, &colors).into_bytes();
    assert_eq!(bytes, vec![0, 1, 100, 1, 1, 100, 0, 0, 100, 1, 0, 100]);
}

#[test]
fn output_name_for_png() {
    assert_eq!(output_name("output", true), "output.png".to_string());
}

#[test]
fn output_name_for_ppm() {
    assert_eq!(output_name("out/render", false), "out/render.ppm".to_string());
}

#[test]
fn output_name_of_empty_name() {
    assert_eq!(output_name("", true), ".png".to_string());
}
