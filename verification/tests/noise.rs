use red_engine2::noise::Xorshift;

#[test]
fn xorshift_steps_by_13_17_5() {
    let mut g = Xorshift(1);
    assert_eq!(g.next_bits(), 270369);
    assert_eq!(g.0, 270369);
    let mut h = Xorshift(0x9E3779B9);
    let a = h.next_bits();
    let mut x: u32 = 0x9E3779B9;
    x ^= x << 13;
    x ^= x >> 17;
    x ^= x << 5;
    assert_eq!(a, x);
}

#[test]
fn a_nonzero_seed_never_gets_stuck_at_zero() {
    for seed in [0x9E3779B9u32, 0x1234ABCD, 0xC11C4B, 1, u32::MAX] {
        let mut g = Xorshift(seed);
        for _ in 0..20000 {
            assert_ne!(g.next_bits(), 0);
        }
    }
    let mut z = Xorshift(0);
    assert_eq!(z.next_bits(), 0);
}
