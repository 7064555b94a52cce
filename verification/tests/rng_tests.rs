use mines::rng::Rng;

#[test]
fn xorshift_known_value() {
    // seed 1: 1 ^ (1 << 13) = 0x2001; 0x2001 ^ (0x2001 >> 7) = 0x2041;
    // 0x2041 ^ (0x2041 << 17) = 0x4082_2041
    let mut r = Rng::new(1);
    let v = r.next();
    assert_eq!(v, 0x4082_2041);
    assert_eq!(r.seed, 0x4082_2041);
}

#[test]
fn xorshift_stream_advances() {
    let mut r = Rng::new(0x0123_4567_89ab_cdef);
    let a = r.next();
    let b = r.next();
    assert_ne!(a, b);
    assert_eq!(r.seed, b);
}

#[test]
fn next_in_range_formula() {
    let mut probe = Rng::new(99);
    let raw = probe.next();
    let mut r = Rng::new(99);
    let v = r.next_in_range(3, 15);
    assert_eq!(v as u64, 3 + raw % 12);
    assert!((3..15).contains(&v));
}

#[test]
fn next_in_range_stays_in_bounds() {
    let mut r = Rng::new(0xfeed_f00d);
    for _ in 0..200 {
        let v = r.next_in_range(0, 12);
        assert!(v < 12);
    }
}
