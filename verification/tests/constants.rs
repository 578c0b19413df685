use gpucr::constants::{round_up_2mb, TWO_MB};

#[test]
fn round_up_2mb_rounds_to_the_next_multiple() {
    assert_eq!(round_up_2mb(0), 0);
    assert_eq!(round_up_2mb(1), TWO_MB);
    assert_eq!(round_up_2mb(TWO_MB - 1), TWO_MB);
    assert_eq!(round_up_2mb(TWO_MB), TWO_MB);
    assert_eq!(round_up_2mb(TWO_MB + 1), 2 * TWO_MB);
    assert_eq!(round_up_2mb(5 * TWO_MB + 12345), 6 * TWO_MB);
}

#[test]
fn round_up_2mb_is_idempotent() {
    for size in [0usize, 3, TWO_MB + 7, 40 * TWO_MB - 1] {
        let once = round_up_2mb(size);
        assert_eq!(round_up_2mb(once), once);
    }
}
