use ray_ray::{Canvas, CanvasError};

const BLACK: [f64; 3] = [0.0, 0.0, 0.0];

#[test]
fn test_canvas_new() {
    let canvas = Canvas::new(10, 20, BLACK);
    assert_eq!(canvas.width(), 10);
    assert_eq!(canvas.height(), 20);

    for y in 0..20 {
        for x in 0..10 {
            assert_eq!(canvas.pixel_at((x, y)), Ok(BLACK));
        }
    }
}

#[test]
fn test_canvas_set() {
    let mut canvas = Canvas::new(10, 20, BLACK);
    canvas.write_pixel([1.0, 0.0, 0.0], (2, 3));

    let wrote_pixel = canvas.pixel_at((2, 3));
    assert_eq!(wrote_pixel, Ok([1.0, 0.0, 0.0]));
}

#[test]
fn test_new_canvas() {
    let canvas = Canvas::new(10, 20, BLACK);
    assert_eq!(canvas.width(), 10);
    assert_eq!(canvas.height(), 20);

    for p_i in 0..10 * 20 {
        let pixel = canvas.get_pixel(p_i % 10, p_i / 10);
        assert_eq!(pixel, Ok(BLACK), "Pixel {p_i} is not zero!");
    }
}

#[test]
fn test_set_get_color() {
    let mut canvas = Canvas::new(10, 20, BLACK);
    let red = [1.0, 0.0, 0.0];
    let write_pixel = canvas.set_pixel(2, 3, red);
    assert_eq!(write_pixel.is_ok(), true);

    let read_pixel = canvas.get_pixel_ref(2, 3);
    assert_eq!(read_pixel.is_ok(), true);

    let read_pixel = read_pixel.unwrap();
    assert_eq!(read_pixel[0], 1.0);
}

#[test]
fn write_out_of_range_is_ignored() {
    let mut canvas = Canvas::new(4, 3, 0u32);
    canvas.write_pixel(7, (4, 0));
    canvas.write_pixel(7, (0, 3));
    canvas.write_pixel(7, (100, 100));
    for y in 0..3 {
        for x in 0..4 {
            assert_eq!(canvas.pixel_at((x, y)), Ok(0));
        }
    }
}

#[test]
fn set_pixel_out_of_range_reports_error() {
    let mut canvas = Canvas::new(4, 3, 0u32);
    assert_eq!(canvas.set_pixel(4, 0, 9), Err(CanvasError::OutOfRange));
    assert_eq!(canvas.set_pixel(0, 3, 9), Err(CanvasError::OutOfRange));
    assert_eq!(canvas.get_pixel(3, 2), Ok(0));
}

#[test]
fn read_out_of_range_reports_error() {
    let canvas = Canvas::new(4, 3, 0u32);
    assert_eq!(canvas.pixel_at((4, 0)), Err(CanvasError::OutOfRange));
    assert_eq!(canvas.pixel_at((0, 3)), Err(CanvasError::OutOfRange));
    assert_eq!(canvas.get_pixel(2, 5), Err(CanvasError::OutOfRange));
}

#[test]
fn write_then_read_round_trip_keeps_other_pixels() {
    let mut canvas = Canvas::new(3, 2, 0u32);
    canvas.write_pixel(5, (1, 1));
    assert_eq!(canvas.pixel_at((1, 1)), Ok(5));
    for y in 0..2 {
        for x in 0..3 {
            if (x, y) != (1, 1) {
                assert_eq!(canvas.pixel_at((x, y)), Ok(0));
            }
        }
    }
}

#[test]
fn get_index_is_row_major_and_checks_each_axis() {
    let canvas = Canvas::new(10, 20, 0u8);
    assert_eq!(canvas.get_index(0, 0), Ok(0));
    assert_eq!(canvas.get_index(3, 2), Ok(23));
    assert_eq!(canvas.get_index(9, 19), Ok(199));
    // The product of the coordinates is small, but the column is off the canvas.
    assert_eq!(canvas.get_index(10, 0), Err(CanvasError::OutOfRange));
    assert_eq!(canvas.get_index(0, 20), Err(CanvasError::OutOfRange));
}

#[test]
fn set_all_fills_every_pixel() {
    let mut canvas = Canvas::new(5, 4, [0.0; 3]);
    canvas.set_all([1.0, 0.8, 0.6]);
    for y in 0..4 {
        for x in 0..5 {
            assert_eq!(canvas.pixel_at((x, y)), Ok([1.0, 0.8, 0.6]));
        }
    }
}

#[test]
fn empty_canvas_has_no_pixels() {
    let canvas = Canvas::new(0, 0, 0u8);
    assert_eq!(canvas.width(), 0);
    assert_eq!(canvas.pixel_at((0, 0)), Err(CanvasError::OutOfRange));
}

#[test]
fn get_pixel_ref_out_of_range() {
    let canvas = Canvas::new(2, 2, 1u8);
    assert_eq!(canvas.get_pixel_ref(1, 1), Ok(&1));
    assert_eq!(canvas.get_pixel_ref(2, 1), Err(CanvasError::OutOfRange));
}
