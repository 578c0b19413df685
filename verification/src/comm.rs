use vstd::prelude::*;
use vstd::string::*;

use crate::constants::CONTROL_FILE_PREFIX;
use crate::text::{append_signed_decimal, signed_decimal};

verus! {

/// The file that holds the control block of process `pid`.
pub fn control_file_path(pid: i32) -> (r: String)
    ensures
        r@ == CONTROL_FILE_PREFIX@ + signed_decimal(pid as int),
{
    let mut r = String::from_str(CONTROL_FILE_PREFIX);
    append_signed_decimal(&mut r, pid as i64);
    r
}

} // verus!
