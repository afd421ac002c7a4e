use raytracer_challenge::canvas::Canvas;

const BLACK: (f32, f32, f32) = (0.0, 0.0, 0.0);
const RED: (f32, f32, f32) = (1.0, 0.0, 0.0);

#[test]
fn new_canvas() {
    let canvas = Canvas::new(10, 20, BLACK);
    assert_eq!(canvas.width, 10);
    assert_eq!(canvas.height, 20);
    assert_eq!(canvas.canvas.len(), 200);
    for colour in canvas.canvas {
        assert_eq!(colour, (0.0, 0.0, 0.0));
    }
}

#[test]
fn write_pixel() {
    let mut canvas = Canvas::new(10, 20, BLACK);
    canvas.write_pixel(2, 3, RED);
    assert_eq!(canvas.pixel_at(2, 3), RED);
    assert_eq!(canvas.canvas[3 * 10 + 2], RED);
    assert_eq!(canvas.pixel_at(3, 2), BLACK);
}

#[test]
fn empty_canvas() {
    let canvas = Canvas::new(0, 7, 1u8);
    assert!(canvas.canvas.is_empty());
}

/// Each channel clamped to [0, 1] and scaled to 0..=255.
fn bytes(red: f32, green: f32, blue: f32) -> [u8; 3] {
    let byte = |v: f32| (v.clamp(0.0, 1.0) * 255.0).round() as u8;
    [byte(red), byte(green), byte(blue)]
}

#[test]
fn ppm_header() {
    let canvas = Canvas::new(5, 3, [0u8; 3]);
    let ppm = canvas.to_ppm();
    let result = ppm.lines().take(3).collect::<Vec<_>>();
    let expected = vec!["P3", "5 3", "255"];
    assert_eq!(result, expected);
}

#[test]
fn ppm_pixel_data() {
    let mut canvas = Canvas::new(5, 3, [0u8; 3]);
    canvas.write_pixel(0, 0, bytes(1.5, 0.0, 0.0));
    canvas.write_pixel(2, 1, bytes(0.0, 0.5, 0.0));
    canvas.write_pixel(4, 2, bytes(-0.5, 0.0, 1.0));

    let ppm = canvas.to_ppm();
    let result = ppm.lines().skip(3).take(3).collect::<Vec<_>>();
    let expected = vec![
        "255 0 0 0 0 0 0 0 0 0 0 0 0 0 0",
        "0 0 0 0 0 0 0 128 0 0 0 0 0 0 0",
        "0 0 0 0 0 0 0 0 0 0 0 0 0 0 255",
    ];

    assert_eq!(result, expected);
}

#[test]
fn ppm_split_long_lines() {
    let mut canvas = Canvas::new(10, 2, [0u8; 3]);
    let colour = bytes(1.0, 0.8, 0.6);
    for y in 0..2 {
        for x in 0..10 {
            canvas.write_pixel(x, y, colour);
        }
    }
    let ppm = canvas.to_ppm();
    let result = ppm.lines().skip(3).take(4).collect::<Vec<_>>();
    let expected = vec![
        "255 204 153 255 204 153 255 204 153 255 204 153 255 204 153 255 204",
        "153 255 204 153 255 204 153 255 204 153 255 204 153",
        "255 204 153 255 204 153 255 204 153 255 204 153 255 204 153 255 204",
        "153 255 204 153 255 204 153 255 204 153 255 204 153",
    ];

    assert_eq!(result, expected);
}

#[test]
fn ppm_ends_with_newline() {
    let canvas = Canvas::new(5, 3, [0u8; 3]);
    let ppm = canvas.to_ppm();
    let last = ppm.chars().next_back().unwrap();
    assert_eq!(last, '\n');
}

#[test]
fn ppm_of_empty_rows() {
    let canvas = Canvas::new(0, 2, [0u8; 3]);
    assert_eq!(canvas.to_ppm(), "P3\n0 2\n255\n");
    let tall = Canvas::new(1, 2, [7u8, 80, 200]);
    assert_eq!(tall.to_ppm(), "P3\n1 2\n255\n7 80 200\n7 80 200\n");
}
