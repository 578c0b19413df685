use gpucr::constants::SHM_SIZE;
use gpucr::runtime::{checkpoint_file_range, checkpoint_storage_len};
use gpucr::Error;

fn assert_protocol_error<T>(result: Result<T, Error>) {
    assert!(matches!(result, Err(Error::Protocol(_))));
}

#[test]
fn accepts_checkpoint_range_inside_declared_storage() {
    assert_eq!(
        checkpoint_file_range(0, 128, 256, 1024).unwrap(),
        (128, 256)
    );
}

#[test]
fn rejects_checkpoint_range_that_exceeds_declared_storage() {
    assert_protocol_error(checkpoint_file_range(0, 900, 200, 1024));
}

#[test]
fn rejects_checkpoint_range_overflow() {
    assert_protocol_error(checkpoint_file_range(0, u64::MAX, 2, SHM_SIZE));
}

#[test]
fn rejects_checkpoint_storage_larger_than_mapping() {
    assert_protocol_error(checkpoint_storage_len((SHM_SIZE as u64) + 1));
}

#[test]
fn range_errors_name_the_file_and_the_bounds() {
    match checkpoint_file_range(3, 900, 200, 1024) {
        Err(Error::Protocol(m)) => assert_eq!(
            m,
            "checkpoint metadata range is out of bounds for file 3: offset 900, size 200, storage 1024"
        ),
        other => panic!("{other:?}"),
    }
}

#[test]
fn storage_len_accepts_sizes_up_to_the_mapping() {
    assert_eq!(checkpoint_storage_len(0).unwrap(), 0);
    assert_eq!(checkpoint_storage_len(SHM_SIZE as u64).unwrap(), SHM_SIZE);
}
