use vstd::prelude::*;
use vstd::string::*;

use crate::cli::{lemma_pid_text_reads_back, parse_pid_spec, PidError};
use crate::constants::CKPT_DIR;
use crate::text::{append_signed_decimal, signed_decimal};

verus! {

/// The checkpoint file of process `pid` when no path is given: `<CKPT_DIR>/<pid>`.
pub open spec fn default_checkpoint_path(pid: int) -> Seq<char> {
    CKPT_DIR@ + "/"@ + signed_decimal(pid)
}

/// The checkpoint file that a backend set up without a path uses.
pub open spec fn shared_checkpoint_path() -> Seq<char> {
    CKPT_DIR@ + "/default"@
}

/// The checkpoint file of process `pid` when no path is given.
pub fn default_checkpoint_path_for_pid(pid: i32) -> (r: String)
    ensures
        r@ == default_checkpoint_path(pid as int),
{
    let mut r = String::from_str(CKPT_DIR);
    r.append("/");
    append_signed_decimal(&mut r, pid as i64);
    r
}

/// The file that `Backend::setup` maps for `path`: the path itself, or the shared
/// default file when it is empty.
pub fn setup_path(path: &str) -> (r: String)
    ensures
        r@ == if path@.len() == 0 {
            shared_checkpoint_path()
        } else {
            path@
        },
{
    if path.is_empty() {
        let mut r = String::from_str(CKPT_DIR);
        r.append("/default");
        r
    } else {
        String::from_str(path)
    }
}

/// The file that `Backend::setup_for_current_pid` maps for `path` in process `pid`:
/// the path itself, or the default file of the process when it is empty.
pub fn setup_path_for_pid(path: &str, pid: i32) -> (r: String)
    ensures
        r@ == if path@.len() == 0 {
            default_checkpoint_path(pid as int)
        } else {
            path@
        },
{
    if path.is_empty() {
        default_checkpoint_path_for_pid(pid)
    } else {
        String::from_str(path)
    }
}

/// The default checkpoint path of process `p` is the checkpoint directory, a `/`,
/// and a name that reads back as `p` itself, the whole `i32`; so two processes never
/// share a default checkpoint file.
pub proof fn lemma_default_path_names_pid(p: i32, q: i32)
    ensures
        default_checkpoint_path(p as int).take(CKPT_DIR@.len() + 1int) == CKPT_DIR@ + "/"@,
        parse_pid_spec(default_checkpoint_path(p as int).skip(CKPT_DIR@.len() + 1int)) == Ok::<
            i32,
            PidError,
        >(p),
        p != q ==> default_checkpoint_path(p as int) != default_checkpoint_path(q as int),
{
    reveal_strlit("/");
    let prefix = CKPT_DIR@ + "/"@;
    let n: int = CKPT_DIR@.len() + 1int;
    assert(prefix.len() == n);
    assert(default_checkpoint_path(p as int).take(n) =~= prefix);
    assert(default_checkpoint_path(p as int).skip(n) =~= signed_decimal(p as int));
    assert(default_checkpoint_path(q as int).skip(n) =~= signed_decimal(q as int));
    lemma_pid_text_reads_back(p);
    lemma_pid_text_reads_back(q);
}

} // verus!
