//! Session-token generation: random bytes from the operating system,
//! written as lower-case hexadecimal.
use vstd::prelude::*;

use rand::TryRngCore;

use crate::text::{hex_char, hex_lower};

verus! {

/// Length (in bytes) of the random session token before hex encoding.
pub const SESSION_ID_BYTES: usize = 16;

/// Fills `bytes` from the operating system's cryptographic generator with
/// `rand::rngs::OsRng::try_fill_bytes`; `true` when that succeeded. The
/// bytes are random, so nothing is said of them.
#[verifier::external_body]
fn fill_from_os(bytes: &mut [u8; 16]) -> bool {
    rand::rngs::OsRng.try_fill_bytes(bytes).is_ok()
}

/// The one-character string of the hexadecimal digit `d`.
fn hex_digit_str(d: u8) -> (r: &'static str)
    requires
        d < 16,
    ensures
        r@ == seq![hex_char(d as nat)],
{
    match d {
        0 => { proof { reveal_strlit("0"); } "0" },
        1 => { proof { reveal_strlit("1"); } "1" },
        2 => { proof { reveal_strlit("2"); } "2" },
        3 => { proof { reveal_strlit("3"); } "3" },
        4 => { proof { reveal_strlit("4"); } "4" },
        5 => { proof { reveal_strlit("5"); } "5" },
        6 => { proof { reveal_strlit("6"); } "6" },
        7 => { proof { reveal_strlit("7"); } "7" },
        8 => { proof { reveal_strlit("8"); } "8" },
        9 => { proof { reveal_strlit("9"); } "9" },
        10 => { proof { reveal_strlit("a"); } "a" },
        11 => { proof { reveal_strlit("b"); } "b" },
        12 => { proof { reveal_strlit("c"); } "c" },
        13 => { proof { reveal_strlit("d"); } "d" },
        14 => { proof { reveal_strlit("e"); } "e" },
        _ => { proof { reveal_strlit("f"); } "f" },
    }
}

/// Two lower-case hexadecimal characters per byte of `bytes`.
pub fn hex_encode(bytes: &[u8]) -> (text: String)
    ensures
        text@ == hex_lower(bytes@),
{
    let mut out = String::new();
    let n = bytes.len();
    let mut i: usize = 0;
    assert(bytes@.take(0) =~= Seq::<u8>::empty());
    while i < n
        invariant
            i <= n == bytes@.len(),
            out@ == hex_lower(bytes@.take(i as int)),
        decreases n - i,
    {
        let b = bytes[i];
        out.append(hex_digit_str(b / 16));
        out.append(hex_digit_str(b % 16));
        proof {
            let t = bytes@.take(i + 1);
            assert(t.drop_last() =~= bytes@.take(i as int));
            assert(t.last() == b);
        }
        i = i + 1;
    }
    assert(bytes@.take(n as int) =~= bytes@);
    out
}

/// A hex writing has two characters per byte, each a lower-case hex digit.
pub proof fn law_hex_shape(bytes: Seq<u8>)
    ensures
        hex_lower(bytes).len() == 2 * bytes.len(),
        forall|k: int|
            0 <= k < hex_lower(bytes).len() ==> ('0' <= #[trigger] hex_lower(bytes)[k] <= '9'
                || 'a' <= hex_lower(bytes)[k] <= 'f'),
    decreases bytes.len(),
{
    if bytes.len() > 0 {
        law_hex_shape(bytes.drop_last());
        let b = bytes.last();
        assert(b / 16 < 16);
        let h = hex_lower(bytes);
        let p = hex_lower(bytes.drop_last());
        assert forall|k: int| 0 <= k < h.len() implies ('0' <= #[trigger] h[k] <= '9' || 'a' <= h[k]
            <= 'f') by {
            if k < p.len() {
                assert(h[k] == p[k]);
            }
        }
    }
}

/// Generate a fresh session token: 16 bytes from the operating system's
/// generator, written as 32 lower-case hexadecimal characters. Never
/// panics: should the generator fail, all 16 bytes are zero.
pub fn generate_session_id() -> (id: String)
    ensures
        exists|b: Seq<u8>| b.len() == SESSION_ID_BYTES && id@ == hex_lower(b),
        id@.len() == 2 * SESSION_ID_BYTES,
{
    let mut bytes = [0u8; 16];
    if !fill_from_os(&mut bytes) {
        bytes = [0u8; 16];
    }
    let id = hex_encode(&bytes);
    proof {
        law_hex_shape(bytes@);
    }
    id
}

} // verus!
