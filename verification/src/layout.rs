use vstd::prelude::*;
use vstd::slice::slice_subrange;
use vstd::string::*;
use vstd::utf8::*;

use crate::constants::MAX_FILE_NUM;

verus! {

/// One checkpointed GPU allocation: where it lived on the device (`ptr`), how
/// many bytes it holds, and where those bytes start in checkpoint storage.
#[derive(Clone, Copy, Debug)]
pub struct SharedMemFile {
    pub size: u64,
    pub ptr: usize,
    pub offset: u64,
}

/// The entry that an empty slot of the checkpoint table holds.
pub open spec fn empty_file() -> SharedMemFile {
    SharedMemFile { size: 0, ptr: 0, offset: 0 }
}

impl Default for SharedMemFile {
    fn default() -> (r: Self)
        ensures
            r == empty_file(),
    {
        Self { size: 0, ptr: 0, offset: 0 }
    }
}

/// The checkpoint metadata table shared with the checkpointed process.
pub struct SharedMemFs {
    pub tot_size: u64,
    pub file_num: u64,
    pub files: [SharedMemFile; MAX_FILE_NUM],
}

impl SharedMemFs {
    /// Forgets every recorded file.
    pub fn clear(&mut self)
        ensures
            final(self).tot_size == 0,
            final(self).file_num == 0,
            forall|i: int| 0 <= i < MAX_FILE_NUM ==> #[trigger] final(self).files@[i] == empty_file(),
    {
        self.tot_size = 0;
        self.file_num = 0;
        let mut i: usize = 0;
        while i < MAX_FILE_NUM
            invariant
                0 <= i <= MAX_FILE_NUM,
                self.tot_size == 0,
                self.file_num == 0,
                forall|j: int| 0 <= j < i ==> #[trigger] self.files@[j] == empty_file(),
            decreases MAX_FILE_NUM - i,
        {
            self.files[i] = SharedMemFile::default();
            i = i + 1;
        }
    }
}

/// The control block through which the client and the checkpointed process talk.
pub struct SignalControls {
    pub msg: i32,
    pub status: i32,
    pub restore_path: [u8; 256],
    pub checkpoint_path: [u8; 256],
}

/// What `String::from_utf8_lossy` makes of `bytes`.
pub uninterp spec fn utf8_lossy(bytes: Seq<u8>) -> Seq<char>;

/// `String::from_utf8_lossy(bytes).into_owned()`: the claim is that the result is
/// a function of the bytes alone, and that valid UTF-8 is decoded unchanged.
#[verifier::external_body]
fn from_utf8_lossy(bytes: &[u8]) -> (r: String)
    ensures
        r@ == utf8_lossy(bytes@),
        valid_utf8(bytes@) ==> r@ == decode_utf8(bytes@),
{
    String::from_utf8_lossy(bytes).into_owned()
}

/// The number of bytes before the first NUL byte of `buf` (all of them when there
/// is none).
pub open spec fn c_str_len(buf: Seq<u8>) -> nat
    decreases buf.len(),
{
    if buf.len() == 0 || buf[0] == 0 {
        0
    } else {
        1 + c_str_len(buf.drop_first())
    }
}

/// The bytes of `buf` before its first NUL byte.
pub open spec fn c_str_bytes(buf: Seq<u8>) -> Seq<u8> {
    buf.take(c_str_len(buf) as int)
}

proof fn lemma_c_str_len(buf: Seq<u8>, l: int)
    requires
        0 <= l <= buf.len(),
        forall|j: int| 0 <= j < l ==> buf[j] != 0,
        l < buf.len() ==> buf[l] == 0,
    ensures
        c_str_len(buf) == l,
    decreases l,
{
    if l > 0 {
        lemma_c_str_len(buf.drop_first(), l - 1);
    }
}

/// What `set_buf` leaves in a buffer of `buf_len` bytes when given `value`: as many
/// bytes of `value` as fit while leaving room for a terminating NUL, then zeros.
pub open spec fn stored_c_str(buf_len: nat, value: Seq<u8>) -> Seq<u8> {
    let room: nat = if buf_len == 0 { 0 } else { (buf_len - 1) as nat };
    let n = if value.len() < room { value.len() } else { room };
    value.take(n as int) + Seq::new((buf_len - n) as nat, |i: int| 0u8)
}

/// The text before the first NUL byte of `buf`, decoded from UTF-8 with
/// replacement of invalid sequences.
pub fn nul_terminated(buf: &[u8]) -> (r: String)
    ensures
        r@ == utf8_lossy(c_str_bytes(buf@)),
        valid_utf8(c_str_bytes(buf@)) ==> r@ == decode_utf8(c_str_bytes(buf@)),
{
    let mut len: usize = 0;
    while len < buf.len() && buf[len] != 0
        invariant
            0 <= len <= buf@.len(),
            forall|j: int| 0 <= j < len ==> buf@[j] != 0,
        decreases buf@.len() - len,
    {
        len = len + 1;
    }
    proof {
        lemma_c_str_len(buf@, len as int);
    }
    let prefix = slice_subrange(buf, 0, len);
    assert(prefix@ =~= c_str_bytes(buf@));
    from_utf8_lossy(prefix)
}

/// Writes `value` into `buf` as a NUL-terminated string, truncating it to
/// `buf.len() - 1` bytes and zeroing the rest.
pub fn set_buf(buf: &mut [u8], value: &str)
    ensures
        final(buf)@ == stored_c_str(old(buf)@.len(), value.spec_bytes()),
{
    let bytes = value.as_bytes();
    let room = buf.len().saturating_sub(1);
    let len = if bytes.len() < room { bytes.len() } else { room };
    let ghost target = stored_c_str(old(buf)@.len(), value.spec_bytes());
    let mut i: usize = 0;
    while i < buf.len()
        invariant
            0 <= i <= buf@.len(),
            buf@.len() == old(buf)@.len(),
            len <= bytes@.len(),
            len <= buf@.len(),
            bytes@ == value.spec_bytes(),
            target == stored_c_str(old(buf)@.len(), value.spec_bytes()),
            target.len() == buf@.len(),
            forall|j: int| 0 <= j < len ==> #[trigger] target[j] == bytes@[j],
            forall|j: int| len <= j < target.len() ==> #[trigger] target[j] == 0u8,
            forall|j: int| 0 <= j < i ==> #[trigger] buf@[j] == target[j],
        decreases buf@.len() - i,
    {
        if i < len {
            buf[i] = bytes[i];
        } else {
            buf[i] = 0;
        }
        i = i + 1;
    }
    assert(buf@ =~= target);
}

impl SignalControls {
    /// The checkpoint path that the client wrote.
    pub fn checkpoint_path(&self) -> (r: String)
        ensures
            r@ == utf8_lossy(c_str_bytes(self.checkpoint_path@)),
            valid_utf8(c_str_bytes(self.checkpoint_path@)) ==> r@ == decode_utf8(
                c_str_bytes(self.checkpoint_path@),
            ),
    {
        nul_terminated(&self.checkpoint_path)
    }

    /// The restore path that the client wrote.
    pub fn restore_path(&self) -> (r: String)
        ensures
            r@ == utf8_lossy(c_str_bytes(self.restore_path@)),
            valid_utf8(c_str_bytes(self.restore_path@)) ==> r@ == decode_utf8(
                c_str_bytes(self.restore_path@),
            ),
    {
        nul_terminated(&self.restore_path)
    }

    /// Stores `path` as the checkpoint path, leaving everything else as it was.
    pub fn set_checkpoint_path(&mut self, path: &str)
        ensures
            final(self).checkpoint_path@ == stored_c_str(256, path.spec_bytes()),
            final(self).restore_path == old(self).restore_path,
            final(self).msg == old(self).msg,
            final(self).status == old(self).status,
    {
        set_buf(&mut self.checkpoint_path, path);
    }

    /// Stores `path` as the restore path, leaving everything else as it was.
    pub fn set_restore_path(&mut self, path: &str)
        ensures
            final(self).restore_path@ == stored_c_str(256, path.spec_bytes()),
            final(self).checkpoint_path == old(self).checkpoint_path,
            final(self).msg == old(self).msg,
            final(self).status == old(self).status,
    {
        set_buf(&mut self.restore_path, path);
    }
}

/// A path that fits in a 256-byte control field and holds no NUL byte reads back
/// exactly as it was stored.
pub proof fn lemma_stored_path_reads_back(path: Seq<char>)
    requires
        encode_utf8(path).len() < 256,
        !encode_utf8(path).contains(0u8),
    ensures
        c_str_bytes(stored_c_str(256, encode_utf8(path))) == encode_utf8(path),
        valid_utf8(c_str_bytes(stored_c_str(256, encode_utf8(path)))),
        decode_utf8(c_str_bytes(stored_c_str(256, encode_utf8(path)))) == path,
{
    let bytes = encode_utf8(path);
    let stored = stored_c_str(256, bytes);
    assert forall|j: int| 0 <= j < bytes.len() implies stored[j] != 0 by {
        if stored[j] == 0 {
            assert(bytes[j] == 0u8);
            assert(bytes.contains(0u8));
        }
    }
    lemma_c_str_len(stored, bytes.len() as int);
    assert(c_str_bytes(stored) =~= bytes);
    encode_utf8_decode_utf8(path);
    encode_utf8_valid_utf8(path);
}

} // verus!
