use gpucr::constants::COPY_THRESHOLD;
use gpucr::copy::{copy_nonoverlapping, copy_plan};

#[test]
fn copies_small_buffer() {
    let src = vec![0x5au8; 4096];
    let mut dst = vec![0u8; src.len()];
    copy_nonoverlapping(&mut dst, &src, src.len());
    assert_eq!(src, dst);
}

#[test]
fn copy_leaves_bytes_past_size_alone() {
    let src = [1u8, 2, 3, 4];
    let mut dst = [9u8; 6];
    copy_nonoverlapping(&mut dst, &src, 3);
    assert_eq!(dst, [1, 2, 3, 9, 9, 9]);
}

#[test]
fn small_copies_are_one_piece() {
    assert_eq!(copy_plan(0), vec![(0, 0)]);
    assert_eq!(copy_plan(4096), vec![(0, 4096)]);
    assert_eq!(copy_plan(COPY_THRESHOLD - 1), vec![(0, COPY_THRESHOLD - 1)]);
}

#[test]
fn large_copies_split_in_four_pieces() {
    let size = COPY_THRESHOLD;
    let q = size / 4;
    assert_eq!(copy_plan(size), vec![(0, q), (q, q), (2 * q, q), (3 * q, q)]);
    let size = COPY_THRESHOLD + 3;
    let c = size.div_ceil(4);
    assert_eq!(
        copy_plan(size),
        vec![(0, c), (c, c), (2 * c, c), (3 * c, size - 3 * c)]
    );
}
