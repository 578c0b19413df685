use vstd::prelude::*;

verus! {

pub const CONTROL_PATH: &'static str = "/mnt/huge-ckpt/control";
pub const CONTROL_FILE_PREFIX: &'static str = "/mnt/huge-ckpt/control-";
pub const CKPT_DIR: &'static str = "/mnt/huge-ckpt";

pub const INIT_MSG: i32 = 10;
pub const CKPT_MSG: i32 = 11;
pub const RESTORE_MSG: i32 = 12;
pub const FINISH_MSG: i32 = 0;

pub const MAX_FILE_NUM: usize = 4096;
pub const SHM_SIZE: usize = 53687091200u64 as usize;
pub const STAGING_BUF_SIZE: usize = 1073741824;
pub const STAGING_BUF_NUM: usize = 2;

pub const TWO_MB: usize = 2097152;
pub const HUGE_PAGE_SIZE: usize = 2097152;
pub const NUM_COPY_THREADS: usize = 4;
pub const COPY_THRESHOLD: usize = 536870912;

/// Rounds `size` up to the next multiple of two mebibytes.
pub fn round_up_2mb(size: usize) -> (r: usize)
    requires
        size + TWO_MB - 1 <= usize::MAX,
    ensures
        r % TWO_MB == 0,
        size <= r < size + TWO_MB,
{
    let bumped = size + (TWO_MB - 1);
    let r = bumped & !(TWO_MB - 1);
    assert(r % 2097152 == 0 && size <= r && r < size + 2097152) by (bit_vector)
        requires
            bumped == size + 2097151,
            r == bumped & !2097151usize,
    ;
    r
}

} // verus!
