use gpucr::constants::{MAX_FILE_NUM, SHM_SIZE, STAGING_BUF_SIZE};
use gpucr::cuda::AllocationSnapshot;
use gpucr::layout::{SharedMemFile, SharedMemFs};
use gpucr::runtime::{
    control_request, CheckpointAction, CheckpointRun, ControlRequest, RestoreAction, RestoreRun,
};
use gpucr::constants::{CKPT_MSG, INIT_MSG, RESTORE_MSG};
use gpucr::Error;

fn empty_fs() -> Box<SharedMemFs> {
    Box::new(SharedMemFs { tot_size: 5, file_num: 5, files: [SharedMemFile::default(); MAX_FILE_NUM] })
}

fn snap(list: &[(usize, usize)]) -> Vec<AllocationSnapshot> {
    list.iter().map(|(ptr, size)| AllocationSnapshot { ptr: *ptr, size: *size }).collect()
}

#[derive(Debug, PartialEq)]
enum Seen {
    Copy(usize, usize, usize, usize),
    Recorded(usize),
    Committed,
    Release(usize),
    Remap(usize),
    Done,
    Fail(usize, String),
}

fn run_checkpoint(fs: &mut SharedMemFs, s: Vec<AllocationSnapshot>) -> Vec<Seen> {
    let mut run = CheckpointRun::start(fs, s).unwrap();
    let mut seen = Vec::new();
    while !run.is_finished() {
        let step = match run.next(fs) {
            CheckpointAction::CopyToStorage { device_ptr, device_offset, storage_offset, len } => {
                Seen::Copy(device_ptr, device_offset, storage_offset, len)
            }
            CheckpointAction::Recorded { idx } => Seen::Recorded(idx),
            CheckpointAction::Committed => Seen::Committed,
            CheckpointAction::Release { ptr } => Seen::Release(ptr),
            CheckpointAction::Done => Seen::Done,
            CheckpointAction::Fail { idx, error } => match error {
                Error::Protocol(m) => Seen::Fail(idx, m),
                other => panic!("{other:?}"),
            },
        };
        seen.push(step);
    }
    seen
}

fn run_restore(fs: &SharedMemFs) -> Vec<Seen> {
    let mut run = RestoreRun::start(fs).unwrap();
    let mut seen = Vec::new();
    while !run.is_finished() {
        let step = match run.next() {
            RestoreAction::Remap { ptr } => Seen::Remap(ptr),
            RestoreAction::CopyToDevice { storage_offset, device_ptr, device_offset, len } => {
                Seen::Copy(device_ptr, device_offset, storage_offset, len)
            }
            RestoreAction::Done => Seen::Done,
            RestoreAction::Fail { idx, error } => match error {
                Error::Protocol(m) => Seen::Fail(idx, m),
                other => panic!("{other:?}"),
            },
        };
        seen.push(step);
    }
    seen
}

#[test]
fn checkpoint_saves_records_commits_and_releases() {
    let mut fs = empty_fs();
    let big = STAGING_BUF_SIZE + 10;
    let seen = run_checkpoint(&mut fs, snap(&[(0x1000, 100), (0x2000, 0), (0x3000, big)]));
    assert_eq!(
        seen,
        vec![
            Seen::Copy(0x1000, 0, 0, 100),
            Seen::Recorded(0),
            Seen::Recorded(1),
            Seen::Copy(0x3000, 0, 100, STAGING_BUF_SIZE),
            Seen::Copy(0x3000, STAGING_BUF_SIZE, 100 + STAGING_BUF_SIZE, 10),
            Seen::Recorded(2),
            Seen::Committed,
            Seen::Release(0x1000),
            Seen::Release(0x2000),
            Seen::Release(0x3000),
            Seen::Done,
        ]
    );
    assert_eq!(fs.file_num, 3);
    assert_eq!(fs.tot_size, (100 + big) as u64);
    let f = &fs.files;
    assert_eq!((f[0].ptr, f[0].size, f[0].offset), (0x1000, 100, 0));
    assert_eq!((f[1].ptr, f[1].size, f[1].offset), (0x2000, 0, 100));
    assert_eq!((f[2].ptr, f[2].size, f[2].offset), (0x3000, big as u64, 100));
    assert_eq!(f[3].size, 0);
}

#[test]
fn empty_checkpoint_commits_nothing() {
    let mut fs = empty_fs();
    let seen = run_checkpoint(&mut fs, Vec::new());
    assert_eq!(seen, vec![Seen::Committed, Seen::Done]);
    assert_eq!((fs.file_num, fs.tot_size), (0, 0));
}

#[test]
fn checkpoint_stops_at_the_allocation_that_does_not_fit() {
    let mut fs = empty_fs();
    let seen = run_checkpoint(&mut fs, snap(&[(0x1000, 8), (0x2000, SHM_SIZE)]));
    assert_eq!(
        seen,
        vec![
            Seen::Copy(0x1000, 0, 0, 8),
            Seen::Recorded(0),
            Seen::Fail(1, format!("checkpoint storage too small: allocation 1 exceeds {SHM_SIZE} bytes")),
        ]
    );
    assert_eq!(fs.file_num, 0);
    assert_eq!(fs.files[0].size, 8);
}

#[test]
fn checkpoint_refuses_more_allocations_than_the_table_holds() {
    let mut fs = empty_fs();
    let many: Vec<AllocationSnapshot> =
        (0..MAX_FILE_NUM + 1).map(|i| AllocationSnapshot { ptr: i, size: 0 }).collect();
    match CheckpointRun::start(&mut fs, many) {
        Err(Error::Protocol(m)) => assert_eq!(m, "too many GPU allocations: 4097 > 4096"),
        _ => panic!("expected a protocol error"),
    }
    assert_eq!(fs.file_num, 0);
    assert_eq!(fs.tot_size, 0);
}

#[test]
fn restore_brings_back_what_checkpoint_saved() {
    let mut fs = empty_fs();
    let big = STAGING_BUF_SIZE + 10;
    let saved = run_checkpoint(&mut fs, snap(&[(0x1000, 100), (0x2000, 0), (0x3000, big)]));
    let restored = run_restore(&fs);
    let saved_copies: Vec<&Seen> = saved.iter().filter(|s| matches!(s, Seen::Copy(..))).collect();
    let restored_copies: Vec<&Seen> =
        restored.iter().filter(|s| matches!(s, Seen::Copy(..))).collect();
    assert_eq!(saved_copies, restored_copies);
    assert_eq!(
        restored,
        vec![
            Seen::Remap(0x1000),
            Seen::Copy(0x1000, 0, 0, 100),
            Seen::Remap(0x2000),
            Seen::Remap(0x3000),
            Seen::Copy(0x3000, 0, 100, STAGING_BUF_SIZE),
            Seen::Copy(0x3000, STAGING_BUF_SIZE, 100 + STAGING_BUF_SIZE, 10),
            Seen::Done,
        ]
    );
}

#[test]
fn restore_refuses_bad_headers() {
    let mut fs = empty_fs();
    fs.file_num = (MAX_FILE_NUM + 1) as u64;
    fs.tot_size = 0;
    match RestoreRun::start(&fs) {
        Err(Error::Protocol(m)) => assert_eq!(m, "checkpoint metadata contains too many files: 4097"),
        _ => panic!("expected a protocol error"),
    }
    fs.file_num = 1;
    fs.tot_size = SHM_SIZE as u64 + 1;
    match RestoreRun::start(&fs) {
        Err(Error::Protocol(m)) => assert_eq!(
            m,
            format!("checkpoint metadata total size exceeds storage: {} > {SHM_SIZE}", SHM_SIZE + 1)
        ),
        _ => panic!("expected a protocol error"),
    }
}

#[test]
fn restore_stops_at_a_file_outside_storage() {
    let mut fs = empty_fs();
    fs.file_num = 2;
    fs.tot_size = 64;
    fs.files[0] = SharedMemFile { size: 32, ptr: 0x1000, offset: 0 };
    fs.files[1] = SharedMemFile { size: 40, ptr: 0x2000, offset: 32 };
    assert_eq!(
        run_restore(&fs),
        vec![
            Seen::Remap(0x1000),
            Seen::Copy(0x1000, 0, 0, 32),
            Seen::Fail(
                1,
                "checkpoint metadata range is out of bounds for file 1: offset 32, size 40, storage 64"
                    .to_string()
            ),
        ]
    );
}

#[test]
fn control_messages_map_to_requests() {
    assert!(matches!(control_request(INIT_MSG, false), Ok(ControlRequest::Init)));
    assert!(matches!(control_request(CKPT_MSG, true), Ok(ControlRequest::Checkpoint)));
    assert!(matches!(control_request(RESTORE_MSG, true), Ok(ControlRequest::Restore)));
    match control_request(CKPT_MSG, false) {
        Err(Error::Protocol(m)) => assert_eq!(m, "checkpoint backend is not initialized"),
        other => panic!("{other:?}"),
    }
    match control_request(RESTORE_MSG, false) {
        Err(Error::Protocol(m)) => assert_eq!(m, "checkpoint backend is not initialized"),
        other => panic!("{other:?}"),
    }
    match control_request(99, true) {
        Err(Error::Protocol(m)) => assert_eq!(m, "unexpected control message 99"),
        other => panic!("{other:?}"),
    }
}
