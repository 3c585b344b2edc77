use shape_anneal::arith::isqrt;

#[test]
fn isqrt_rounds_down() {
    assert_eq!(isqrt(0), 0);
    assert_eq!(isqrt(1), 1);
    assert_eq!(isqrt(2), 1);
    assert_eq!(isqrt(3), 1);
    assert_eq!(isqrt(4), 2);
    assert_eq!(isqrt(99), 9);
    assert_eq!(isqrt(100), 10);
    assert_eq!(isqrt(101), 10);
    assert_eq!(isqrt(195_075_000_000), 441_672);
    assert_eq!(isqrt(u64::MAX), 4_294_967_295);
    assert_eq!(isqrt(4_294_967_295 * 4_294_967_295), 4_294_967_295);
    assert_eq!(isqrt(4_294_967_295 * 4_294_967_295 - 1), 4_294_967_294);
}

#[test]
fn isqrt_encloses_its_argument() {
    let mut n: u64 = 1;
    for _ in 0..62 {
        for m in [n - 1, n, n + 1, n + n / 3] {
            let r = isqrt(m) as u128;
            assert!(r * r <= m as u128);
            assert!((r + 1) * (r + 1) > m as u128);
        }
        n *= 2;
    }
}
