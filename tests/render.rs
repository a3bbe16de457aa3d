use raycast::color::Color;
use raycast::image::encode_image;
use raycast::scene::{fixed_scene, pixel_direction, primary_directions, Point3, HEIGHT, WIDTH};
use raycast::shading::shade;
use raycast::text::push_decimal;

fn text_of(c: &Color) -> String {
    let mut out = Vec::new();
    c.write_text(&mut out);
    String::from_utf8(out).unwrap()
}

#[test]
fn decimal_notation() {
    for (n, s) in [(0u64, "0"), (7, "7"), (10, "10"), (255, "255"), (1000, "1000")] {
        let mut out = vec![b'x'];
        push_decimal(&mut out, n);
        assert_eq!(String::from_utf8(out).unwrap(), format!("x{}", s));
    }
}

#[test]
fn color_text_is_three_channels() {
    assert_eq!(text_of(&Color(255, 255, 255)), "255 255 255");
    assert_eq!(text_of(&Color(0, 9, 120)), "0 9 120");
}

#[test]
fn gray_white_and_halved() {
    assert_eq!(Color::gray(42), Color(42, 42, 42));
    assert_eq!(Color::white(), Color(255, 255, 255));
    assert_eq!(Color(255, 10, 1).halved(), Color(127, 5, 0));
}

#[test]
fn sphere_hit_is_gray_of_intensity() {
    let c = shade(true, 180, false, 77, true);
    assert_eq!(c, Color(180, 180, 180));
    let c = shade(true, 0, true, 77, false);
    assert_eq!(c, Color(0, 0, 0));
}

#[test]
fn miss_gives_sky() {
    let c = shade(false, 180, true, 77, true);
    assert_eq!(text_of(&c), "255 255 255");
}

#[test]
fn shadow_halves_plane_color() {
    let lit = shade(false, 3, false, 201, false);
    let dark = shade(false, 3, false, 201, true);
    assert_eq!(lit, Color(201, 201, 201));
    assert_eq!(dark, Color(100, 100, 100));
    let lit = shade(false, 3, false, 255, false);
    let dark = shade(false, 3, false, 255, true);
    assert_eq!(dark, Color(lit.0 / 2, lit.1 / 2, lit.2 / 2));
    assert_eq!(dark, Color(127, 127, 127));
}

#[test]
fn image_has_header_and_rows() {
    let pixels = vec![
        Color(1, 2, 3),
        Color(4, 5, 6),
        Color(255, 255, 255),
        Color(0, 0, 0),
        Color(10, 20, 30),
        Color(100, 200, 250),
    ];
    let out = String::from_utf8(encode_image(2, 3, &pixels)).unwrap();
    assert_eq!(
        out,
        "P3\n2 3\n255\n1 2 3 4 5 6 \n255 255 255 0 0 0 \n10 20 30 100 200 250 \n"
    );
    let lines: Vec<&str> = out.lines().collect();
    assert_eq!(lines.len(), 3 + 3);
    for line in &lines[3..] {
        assert_eq!(line.split_whitespace().count(), 3 * 2);
    }
}

#[test]
fn full_size_image_layout() {
    let w = WIDTH as usize;
    let h = HEIGHT as usize;
    let pixels = vec![Color(12, 0, 255); w * h];
    let out = String::from_utf8(encode_image(WIDTH, HEIGHT, &pixels)).unwrap();
    let lines: Vec<&str> = out.lines().collect();
    assert_eq!(&lines[..3], &["P3", "1000 1000", "255"]);
    assert_eq!(lines.len(), 3 + h);
    for line in &lines[3..] {
        assert_eq!(line.split_whitespace().count(), 3 * w);
    }
}

#[test]
fn empty_image_is_header_only() {
    let out = String::from_utf8(encode_image(0, 0, &Vec::new())).unwrap();
    assert_eq!(out, "P3\n0 0\n255\n");
}

#[test]
fn pixel_directions_follow_scan_order() {
    assert_eq!(pixel_direction(1000, 1000, 0, 0), Point3(1000, 499, -500));
    assert_eq!(pixel_direction(1000, 1000, 0, 1), Point3(1000, 498, -500));
    assert_eq!(pixel_direction(1000, 1000, 999, 999), Point3(1000, -500, 499));
    assert_eq!(pixel_direction(3, 3, 2, 2), Point3(1000, -2, 1));
}

#[test]
fn primary_directions_cover_grid() {
    let v = primary_directions(WIDTH, HEIGHT);
    assert_eq!(v.len(), 1_000_000);
    assert_eq!(v[0], Point3(1000, 499, -500));
    assert_eq!(v[1], Point3(1000, 498, -500));
    assert_eq!(v[1000], Point3(1000, 499, -499));
    assert_eq!(v[999_999], Point3(1000, -500, 499));
    let small = primary_directions(2, 3);
    assert_eq!(
        small,
        vec![
            Point3(1000, 0, -1),
            Point3(1000, -1, -1),
            Point3(1000, 0, 0),
            Point3(1000, -1, 0),
            Point3(1000, 0, 1),
            Point3(1000, -1, 1),
        ]
    );
}

#[test]
fn scene_constants() {
    let s = fixed_scene(HEIGHT);
    assert_eq!(s.sphere_center, Point3(1400, 0, 200));
    assert_eq!(s.sphere_radius, 100);
    assert_eq!(s.plane_normal, Point3(0, 0, 1));
    assert_eq!(s.plane_offset, 500);
    assert_eq!(s.light, Point3(1400, 0, -149800));
    assert_eq!(Point3(1, -2, 3).plus(&Point3(10, 20, -30)), Point3(11, 18, -27));
}
