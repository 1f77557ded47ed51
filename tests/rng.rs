use pathtracer::rng::Rng;

#[test]
fn first_draws_from_zero_seed() {
    let mut rng = Rng::new(0);
    assert_eq!(rng.rand(), 1013904223);
    assert_eq!(rng.rand(), 1196435762);
    assert_eq!(rng.rand(), 3519870697);
    assert_eq!(rng.state, 3519870697);
}

#[test]
fn draw_matches_single_draws() {
    let mut a = Rng::new(42);
    let mut b = Rng::new(42);
    let many = a.draw(4);
    let singles: Vec<u32> = (0..4).map(|_| b.rand()).collect();
    assert_eq!(many, singles);
    assert_eq!(a, b);
}

#[test]
fn draws_split_into_passes() {
    let mut whole = Rng::new(7);
    let all = whole.draw(5);
    let mut split = Rng::new(7);
    let mut parts = split.draw(2);
    parts.extend(split.draw(3));
    assert_eq!(all, parts);
    assert_eq!(whole.state, split.state);
}

#[test]
fn same_seed_repeats_exactly() {
    let first = Rng::for_pixel(3, 11, 64).draw(16);
    let second = Rng::for_pixel(3, 11, 64).draw(16);
    assert_eq!(first, second);
}

#[test]
fn pixel_seeds() {
    assert_eq!(Rng::for_pixel(7, 5, 100).state, 3066443385);
    assert_eq!(Rng::for_pixel(0, 1, 100).state, 2654435769);
    assert_eq!(Rng::for_pixel(0, 0, 100).state, 0);
    assert_eq!(Rng::for_pixel(u32::MAX, u32::MAX, u32::MAX).state, 0);
    assert_ne!(Rng::for_pixel(1, 0, 100).state, Rng::for_pixel(0, 1, 100).state);
}

#[test]
fn empty_draw_leaves_state() {
    let mut rng = Rng::new(9);
    assert!(rng.draw(0).is_empty());
    assert_eq!(rng.state, 9);
}
