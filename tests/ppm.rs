use ray_ray::{Canvas, PPMFile, Rgb8};

const BLACK: Rgb8 = Rgb8 { r: 0, g: 0, b: 0 };

#[test]
fn test_ppm_default() {
    let ppm = PPMFile::default();
    assert_eq!(ppm.rows.len(), 0);
}

#[test]
fn test_ppm_headers() {
    let canvas = Canvas::new(5, 3, BLACK);
    let ppm = PPMFile::from_canvas(&canvas);
    assert_eq!(ppm.rows[0], "P3");
    assert_eq!(ppm.rows[1], "5 3");
    assert_eq!(ppm.rows[2], "255");
}

#[test]
fn test_ppm_pixel_data() {
    let mut canvas = Canvas::new(5, 3, BLACK);
    canvas.write_pixel(Rgb8 { r: 255, g: 0, b: 0 }, (0, 0));
    canvas.write_pixel(Rgb8 { r: 0, g: 127, b: 0 }, (2, 1));
    canvas.write_pixel(Rgb8 { r: 0, g: 0, b: 255 }, (4, 2));
    let ppm = PPMFile::from_canvas(&canvas);
    assert_eq!(ppm.rows[3], "255 0 0 0 0 0 0 0 0 0 0 0 0 0 0 ");
    assert_eq!(ppm.rows[4], "0 0 0 0 0 0 0 127 0 0 0 0 0 0 0 ");
    assert_eq!(ppm.rows[5], "0 0 0 0 0 0 0 0 0 0 0 0 0 0 255 ");
}

#[test]
fn test_ppm_max_70() {
    let mut canvas = Canvas::new(10, 2, BLACK);
    canvas.set_all(Rgb8 { r: 255, g: 204, b: 153 });

    let ppm = PPMFile::from_canvas(&canvas);
    assert_eq!(
        ppm.rows[3],
        "255 204 153 255 204 153 255 204 153 255 204 153 255 204 153 255 204 "
    );
    assert_eq!(ppm.rows[4], "153 255 204 153 255 204 153 255 204 153 255 204 153 ");
    assert_eq!(
        ppm.rows[5],
        "255 204 153 255 204 153 255 204 153 255 204 153 255 204 153 255 204 "
    );
    assert_eq!(ppm.rows[6], "153 255 204 153 255 204 153 255 204 153 255 204 153 ");
    assert_eq!(ppm.rows.len(), 7);
}

#[test]
fn blank_canvas_document() {
    let canvas = Canvas::new(5, 3, BLACK);
    let ppm = PPMFile::from_canvas(&canvas);
    let zeros = "0 0 0 0 0 0 0 0 0 0 0 0 0 0 0 ";
    assert_eq!(ppm.rows, vec!["P3", "5 3", "255", zeros, zeros, zeros]);
    assert_eq!(
        ppm.to_string(),
        format!("P3\n5 3\n255\n{zeros}\n{zeros}\n{zeros}\n\n")
    );
}

#[test]
fn every_line_is_shorter_than_seventy() {
    let mut canvas = Canvas::new(40, 3, BLACK);
    canvas.set_all(Rgb8 { r: 100, g: 7, b: 255 });
    let ppm = PPMFile::from_canvas(&canvas);
    for row in &ppm.rows {
        assert!(row.len() < 70, "{row:?} is {} long", row.len());
    }
    // The tokens of each canvas row, with the line breaks taken out, are the
    // channel values in order.
    let joined: String = ppm.rows[3..].concat();
    assert_eq!(joined, "100 7 255 ".repeat(120));
}

#[test]
fn line_breaks_before_reaching_seventy() {
    // Seventeen "255 " tokens fill 68 characters; the eighteenth would make 72.
    // Tokens "0 " would reach exactly 70 after 35 of them, so a line holds 34.
    let canvas = Canvas::new(12, 1, BLACK);
    let ppm = PPMFile::from_canvas(&canvas);
    assert_eq!(ppm.rows[3], "0 ".repeat(34));
    assert_eq!(ppm.rows[4], "0 ".repeat(2));
    assert_eq!(ppm.rows.len(), 5);
}

#[test]
fn headers_give_size_in_decimal() {
    let mut ppm = PPMFile::default();
    ppm.add_headers((1024, 7));
    assert_eq!(ppm.rows, vec!["P3", "1024 7", "255"]);
}

#[test]
fn to_string_of_empty_file_is_one_blank_line() {
    let ppm = PPMFile::default();
    assert_eq!(ppm.to_string(), "\n");
}

#[test]
fn single_pixel_document() {
    let canvas = Canvas::new(1, 1, Rgb8 { r: 255, g: 0, b: 9 });
    assert_eq!(
        PPMFile::from_canvas(&canvas).to_string(),
        "P3\n1 1\n255\n255 0 9 \n\n"
    );
}

#[test]
fn zero_width_rows_are_empty_lines() {
    let canvas = Canvas::new(0, 2, BLACK);
    let ppm = PPMFile::from_canvas(&canvas);
    assert_eq!(ppm.rows, vec!["P3", "0 2", "255", "", ""]);
}
