//! The rolling XOR that protects a whole JAM file.

use vstd::prelude::*;

verus! {

/// Initial value of the rolling key.
pub const JAM_KEY_START: u32 = 0xB082_F165;

/// The key in force for the 4-byte group number `n`: the start key multiplied
/// by 5 once per group, modulo 2^32.
pub open spec fn jam_key(n: nat) -> u32
    decreases n,
{
    if n == 0 {
        JAM_KEY_START
    } else {
        ((jam_key((n - 1) as nat) as nat * 5) % 0x1_0000_0000) as u32
    }
}

/// The byte XORed into position `i` of the file: byte `i % 4` (little end first)
/// of the key of group `i / 4`.
pub open spec fn key_byte(i: nat) -> u8 {
    ((jam_key(i / 4) >> ((8 * (i % 4)) as u32)) & 0xff) as u8
}

/// The whole buffer after one pass of the cipher.
pub open spec fn jam_crypt(s: Seq<u8>) -> Seq<u8> {
    Seq::new(s.len(), |i: int| s[i] ^ key_byte(i as nat))
}

/// Encrypts or decrypts a JAM buffer in place.
/// Uses a rolling XOR key that is multiplied by 5 every 4 bytes.
pub fn decrypt_encrypt_jam(buf: &mut [u8])
    ensures
        final(buf)@ == jam_crypt(old(buf)@),
{
    let mut key: u32 = JAM_KEY_START;
    let n = buf.len();
    let mut i: usize = 0;
    while i < n
        invariant
            n == old(buf)@.len(),
            buf@.len() == n,
            0 <= i <= n,
            key == jam_key((i / 4) as nat),
            forall|j: int| 0 <= j < i ==> buf@[j] == #[trigger] old(buf)@[j] ^ key_byte(j as nat),
            forall|j: int| i <= j < n ==> buf@[j] == old(buf)@[j],
        decreases n - i,
    {
        let shift: u32 = 8 * ((i % 4) as u32);
        let b: u8 = ((key >> shift) & 0xff) as u8;
        assert(b == key_byte(i as nat));
        buf[i] = buf[i] ^ b;
        if i % 4 == 3 {
            key = key.wrapping_mul(5);
            assert(((i + 1) / 4) as nat == (i / 4) as nat + 1);
        }
        i = i + 1;
    }
    assert(buf@ =~= jam_crypt(old(buf)@));
}

/// The cipher is its own inverse: applying it twice gives back the original bytes.
pub proof fn lemma_jam_crypt_involution(s: Seq<u8>)
    ensures
        jam_crypt(jam_crypt(s)) == s,
{
    assert forall|i: int| 0 <= i < s.len() implies #[trigger] jam_crypt(jam_crypt(s))[i] == s[i] by {
        let a = s[i];
        let k = key_byte(i as nat);
        assert((a ^ k) ^ k == a) by (bit_vector);
    }
    assert(jam_crypt(jam_crypt(s)) =~= s);
}

} // verus!
