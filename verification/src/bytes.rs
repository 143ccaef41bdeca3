//! Little-endian 16-bit fields.

use vstd::prelude::*;
use crate::types::JamError;

verus! {

/// The little-endian 16-bit value stored at `off` and `off + 1`.
pub open spec fn le16(s: Seq<u8>, off: int) -> u16 {
    (s[off] as int + 256 * (s[off + 1] as int)) as u16
}

/// `s` with the little-endian bytes of `value` stored at `off`.
pub open spec fn put_le16(s: Seq<u8>, off: int, value: u16) -> Seq<u8> {
    s.update(off, (value % 256) as u8).update(off + 1, (value / 256) as u8)
}

/// Reads the little-endian `u16` at `off`; fails when the two bytes are not both in `buf`.
pub fn read_le16(buf: &[u8], off: usize) -> (r: Result<u16, JamError>)
    requires
        off <= usize::MAX - 2,
    ensures
        match r {
            Ok(v) => off + 2 <= buf@.len() && v == le16(buf@, off as int),
            Err(e) => off + 2 > buf@.len() && e == (JamError::ReadOutOfRange { offset: off }),
        },
{
    if off + 2 > buf.len() {
        return Err(JamError::ReadOutOfRange { offset: off });
    }
    let lo: u16 = buf[off] as u16;
    let hi: u16 = buf[off + 1] as u16;
    Ok(lo + hi * 256)
}

/// Writes `value` little-endian at `off`; fails, and changes nothing, when the
/// two bytes are not both in `dst`.
pub fn write_le16(dst: &mut [u8], off: usize, value: u16) -> (r: Result<(), JamError>)
    requires
        off <= usize::MAX - 2,
    ensures
        match r {
            Ok(_) => off + 2 <= old(dst)@.len() && final(dst)@ == put_le16(old(dst)@, off as int, value),
            Err(e) => off + 2 > old(dst)@.len() && final(dst)@ == old(dst)@
                && e == (JamError::WriteOutOfRange { offset: off }),
        },
{
    if off + 2 > dst.len() {
        return Err(JamError::WriteOutOfRange { offset: off });
    }
    dst[off] = (value % 256) as u8;
    dst[off + 1] = (value / 256) as u8;
    Ok(())
}

/// Reading back a 16-bit field gives the value that was written there,
/// and the bytes around it are left as they were.
pub proof fn lemma_le16_write_read(s: Seq<u8>, off: int, value: u16)
    requires
        0 <= off,
        off + 2 <= s.len(),
    ensures
        le16(put_le16(s, off, value), off) == value,
        put_le16(s, off, value).len() == s.len(),
        forall|i: int| 0 <= i < s.len() && i != off && i != off + 1 ==> #[trigger] put_le16(s, off, value)[i] == s[i],
{
}

} // verus!
