use red_engine2::align_up;

#[test]
fn align_up_rounds_to_the_next_multiple() {
    assert_eq!(align_up(0, 256), 0);
    assert_eq!(align_up(1, 256), 256);
    assert_eq!(align_up(256, 256), 256);
    assert_eq!(align_up(257, 256), 512);
    assert_eq!(align_up(2560, 256), 2560);
    assert_eq!(align_up(7, 1), 7);
    assert_eq!(align_up(u64::MAX, 1), u64::MAX);
}
