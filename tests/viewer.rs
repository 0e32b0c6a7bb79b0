use ray_ray::{Canvas, RerunViewer, Rgb8};

#[test]
fn viewer_array_has_rows_columns_channels() {
    let mut canvas = Canvas::new(3, 2, Rgb8 { r: 0, g: 0, b: 0 });
    canvas.write_pixel(Rgb8 { r: 10, g: 20, b: 30 }, (2, 1));
    canvas.write_pixel(Rgb8 { r: 255, g: 1, b: 2 }, (0, 0));
    let image = RerunViewer::from_canvas(&canvas).unwrap();
    assert_eq!(image.array.shape(), &[2, 3, 3]);
    assert_eq!(image.array[[1, 2, 0]], 10);
    assert_eq!(image.array[[1, 2, 1]], 20);
    assert_eq!(image.array[[1, 2, 2]], 30);
    assert_eq!(image.array[[0, 0, 0]], 255);
    assert_eq!(image.array[[0, 0, 2]], 2);
    assert_eq!(image.array[[0, 1, 0]], 0);
    let flat: Vec<u8> = image.array.iter().copied().collect();
    assert_eq!(
        flat,
        vec![255, 1, 2, 0, 0, 0, 0, 0, 0, 0, 0, 0, 0, 0, 0, 10, 20, 30]
    );
}

#[test]
fn viewer_array_of_empty_canvas() {
    let canvas = Canvas::new(0, 4, Rgb8 { r: 0, g: 0, b: 0 });
    let image = RerunViewer::from_canvas(&canvas).unwrap();
    assert_eq!(image.array.shape(), &[4, 0, 3]);
    assert_eq!(image.array.len(), 0);
}
