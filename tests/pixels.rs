use pathtracer::pixels::{pixel_coords, pixel_count, pixel_index};

#[test]
fn pixel_count_of_viewport() {
    assert_eq!(pixel_count(1280, 720), 921600);
    assert_eq!(pixel_count(0, 720), 0);
}

#[test]
fn pixel_coords_row_by_row() {
    assert_eq!(pixel_coords(0, 3), (0, 0));
    assert_eq!(pixel_coords(2, 3), (2, 0));
    assert_eq!(pixel_coords(3, 3), (0, 1));
    assert_eq!(pixel_coords(7, 3), (1, 2));
}

#[test]
fn pixel_index_values() {
    assert_eq!(pixel_index(1, 2, 3), 7);
    assert_eq!(pixel_index(0, 0, 1280), 0);
    assert_eq!(pixel_index(1279, 719, 1280), 921599);
}

#[test]
fn pixel_numbering_round_trip() {
    let (w, h) = (5usize, 4usize);
    for i in 0..w * h {
        let (x, y) = pixel_coords(i, w);
        assert!(x < w && y < h);
        assert_eq!(pixel_index(x, y, w), i);
    }
}
