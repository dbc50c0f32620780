//! Decoding NUL-terminated byte buffers into strings.

use vstd::prelude::*;

use vstd::utf8::{decode_utf8, valid_utf8};

verus! {

/// Turns a NUL-terminated byte buffer into the string of the bytes
/// before the first NUL. A buffer without a NUL, or with malformed text
/// before it, is a programming error the kernel treats as fatal, so both
/// are excluded here.
pub fn buf2cstr(buf: Vec<u8>) -> (r: String)
    requires
        exists|i: int| 0 <= i < buf@.len() && buf@[i] == 0,
        ({
            let n = crate::fsops::first_nul(buf@);
            valid_utf8(buf@.subrange(0, n))
        }),
    ensures
        r@ == decode_utf8(buf@.subrange(0, crate::fsops::first_nul(buf@))),
{
    proof {
        crate::fsops::lemma_first_nul(buf@);
        let w = choose|i: int| 0 <= i < buf@.len() && buf@[i] == 0;
        if crate::fsops::first_nul(buf@) >= buf@.len() {
            assert(buf@[w] != 0);
        }
    }
    let mut n: usize = 0;
    while n < buf.len() && buf[n] != 0
        invariant
            n <= buf@.len(),
            forall|i: int| 0 <= i < n ==> buf@[i] != 0,
            crate::fsops::first_nul(buf@) < buf@.len(),
            n <= crate::fsops::first_nul(buf@),
        decreases buf@.len() - n,
    {
        proof {
            crate::fsops::lemma_first_nul(buf@);
            if crate::fsops::first_nul(buf@) == n {
                assert(buf@[n as int] == 0);
            }
        }
        n = n + 1;
    }
    proof {
        crate::fsops::lemma_first_nul(buf@);
        assert(n == crate::fsops::first_nul(buf@));
    }
    let mut prefix = buf;
    prefix.truncate(n);
    string_from_utf8(prefix)
}

/// Relies on String::from_utf8: valid UTF-8 bytes become a string whose
/// characters are their decoding; anything else is rejected.
#[verifier::external_body]
fn string_from_utf8(v: Vec<u8>) -> (r: String)
    requires
        valid_utf8(v@),
    ensures
        r@ == decode_utf8(v@),
{
    match String::from_utf8(v) {
        Ok(s) => s,
        Err(_) => String::new(),
    }
}

} // verus!
