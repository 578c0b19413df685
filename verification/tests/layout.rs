use gpucr::constants::MAX_FILE_NUM;
use gpucr::layout::{nul_terminated, set_buf, SharedMemFile, SharedMemFs, SignalControls};

fn controls() -> SignalControls {
    SignalControls { msg: 7, status: 3, restore_path: [0; 256], checkpoint_path: [0; 256] }
}

#[test]
fn default_file_is_empty() {
    let f = SharedMemFile::default();
    assert_eq!((f.size, f.ptr, f.offset), (0, 0, 0));
}

#[test]
fn clear_forgets_every_file() {
    let mut fs = Box::new(SharedMemFs {
        tot_size: 99,
        file_num: 2,
        files: [SharedMemFile { size: 1, ptr: 2, offset: 3 }; MAX_FILE_NUM],
    });
    fs.clear();
    assert_eq!(fs.tot_size, 0);
    assert_eq!(fs.file_num, 0);
    assert!(fs.files.iter().all(|f| f.size == 0 && f.ptr == 0 && f.offset == 0));
}

#[test]
fn checkpoint_path_reads_back_what_was_set() {
    let mut c = controls();
    c.set_checkpoint_path("/mnt/huge-ckpt/1234");
    assert_eq!(c.checkpoint_path(), "/mnt/huge-ckpt/1234");
    assert_eq!(c.restore_path(), "");
    assert_eq!((c.msg, c.status), (7, 3));
}

#[test]
fn restore_path_reads_back_what_was_set() {
    let mut c = controls();
    c.set_checkpoint_path("/a");
    c.set_restore_path("/tmp/résumé");
    assert_eq!(c.restore_path(), "/tmp/résumé");
    assert_eq!(c.checkpoint_path(), "/a");
}

#[test]
fn shorter_path_replaces_longer_one() {
    let mut c = controls();
    c.set_checkpoint_path("/a/very/long/path/name");
    c.set_checkpoint_path("/b");
    assert_eq!(c.checkpoint_path(), "/b");
    assert!(c.checkpoint_path[2..].iter().all(|b| *b == 0));
}

#[test]
fn long_path_is_truncated_to_255_bytes() {
    let mut c = controls();
    let long = "x".repeat(300);
    c.set_checkpoint_path(&long);
    assert_eq!(c.checkpoint_path(), "x".repeat(255));
    assert_eq!(c.checkpoint_path[255], 0);
}

#[test]
fn nul_terminated_stops_at_first_nul_and_replaces_invalid_utf8() {
    assert_eq!(nul_terminated(b"abc\0def"), "abc");
    assert_eq!(nul_terminated(b"no nul"), "no nul");
    assert_eq!(nul_terminated(b"\0"), "");
    assert_eq!(nul_terminated(&[b'a', 0xff, b'b', 0]), "a\u{fffd}b");
}

#[test]
fn set_buf_zero_fills_and_keeps_room_for_nul() {
    let mut buf = [9u8; 4];
    set_buf(&mut buf, "hello");
    assert_eq!(buf, [b'h', b'e', b'l', 0]);
    let mut empty: [u8; 0] = [];
    set_buf(&mut empty, "x");
    let mut one = [5u8; 1];
    set_buf(&mut one, "x");
    assert_eq!(one, [0]);
}
