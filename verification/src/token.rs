//! Random secrets (session IDs, embed tokens) and comparing them safely.

use vstd::prelude::*;
use vstd::utf8::encode_utf8;
use vstd::utf8::encode_utf8_decode_utf8;

use crate::text::hex_char;
use crate::text::hex_digit;

verus! {

/// `getrandom::fill`: that many bytes from the operating system's generator, or its error's
/// message. Nothing is said of which bytes: they are random. An empty buffer is never handed to
/// the system, so filling it never fails.
#[verifier::external_body]
pub(crate) fn random_bytes(n: usize) -> (r: Result<Vec<u8>, String>)
    requires
        n <= isize::MAX,
    ensures
        r is Ok ==> r->Ok_0@.len() == n,
        n == 0 ==> r is Ok,
{
    let mut bytes = vec![0u8; n];
    match getrandom::fill(&mut bytes) {
        Ok(()) => Ok(bytes),
        Err(error) => Err(error.to_string()),
    }
}

/// Bytes as two lower-case hexadecimal digits each.
pub open spec fn hex_pairs(bytes: Seq<u8>) -> Seq<char>
    decreases bytes.len(),
{
    if bytes.len() == 0 {
        Seq::empty()
    } else {
        hex_pairs(bytes.drop_last()).push(hex_digit((bytes.last() / 16) as nat)).push(
            hex_digit((bytes.last() % 16) as nat),
        )
    }
}

/// Whether `s` consists of lower-case hexadecimal digits.
pub open spec fn is_hex(s: Seq<char>) -> bool {
    forall|i: int| 0 <= i < s.len() ==> '0' <= #[trigger] s[i] <= '9' || 'a' <= s[i] <= 'f'
}

pub proof fn lemma_hex_pairs(bytes: Seq<u8>)
    ensures
        hex_pairs(bytes).len() == 2 * bytes.len(),
        is_hex(hex_pairs(bytes)),
    decreases bytes.len(),
{
    if bytes.len() > 0 {
        lemma_hex_pairs(bytes.drop_last());
    }
}

/// `bytes` as two lower-case hexadecimal digits each.
pub fn hex_of(bytes: &Vec<u8>) -> (r: String)
    ensures
        r@ == hex_pairs(bytes@),
{
    let mut out = String::new();
    let mut i: usize = 0;
    proof {
        assert(bytes@.take(0) =~= Seq::<u8>::empty());
    }
    while i < bytes.len()
        invariant
            i <= bytes@.len(),
            out@ == hex_pairs(bytes@.take(i as int)),
        decreases bytes@.len() - i,
    {
        proof {
            assert(bytes@.take(i as int + 1).drop_last() =~= bytes@.take(i as int));
            assert(bytes@.take(i as int + 1).last() == bytes@[i as int]);
        }
        out.push(hex_char(bytes[i] / 16));
        out.push(hex_char(bytes[i] % 16));
        i += 1;
    }
    proof {
        assert(bytes@.take(bytes@.len() as int) =~= bytes@);
    }
    out
}

/// `n_bytes` from the OS CSPRNG, hex-encoded (`2 * n_bytes` chars). No bytes can always be had.
pub fn random_hex(n_bytes: usize) -> (r: Result<String, String>)
    requires
        2 * n_bytes <= isize::MAX,
    ensures
        r is Ok ==> r->Ok_0@.len() == 2 * n_bytes && is_hex(r->Ok_0@),
        n_bytes == 0 ==> r is Ok,
{
    match random_bytes(n_bytes) {
        Ok(bytes) => {
            proof {
                lemma_hex_pairs(bytes@);
            }
            Ok(hex_of(&bytes))
        },
        Err(error) => Err(error),
    }
}

/// Whether a candidate is the expected secret; an empty secret is nobody's.
pub open spec fn is_secret(expected: Seq<char>, candidate: Seq<char>) -> bool {
    expected.len() > 0 && expected == candidate
}

/// Constant-time comparison, so response timing doesn't leak how much of a guessed secret was
/// right. An empty `expected` never matches.
#[must_use]
pub fn secret_matches(expected: &str, candidate: &str) -> (r: bool)
    ensures
        r == is_secret(expected@, candidate@),
{
    let a = expected.as_bytes();
    let b = candidate.as_bytes();
    proof {
        encode_utf8_decode_utf8(expected@);
        encode_utf8_decode_utf8(candidate@);
        if a@.len() == 0 {
            assert(a@ =~= encode_utf8(Seq::empty()));
            encode_utf8_decode_utf8(Seq::<char>::empty());
        }
    }
    if a.len() == 0 || a.len() != b.len() {
        return false;
    }
    let mut diff: u8 = 0;
    let mut i: usize = 0;
    while i < a.len()
        invariant
            i <= a@.len(),
            a@.len() == b@.len(),
            diff == 0 <==> forall|j: int| 0 <= j < i ==> a@[j] == b@[j],
        decreases a@.len() - i,
    {
        let x = a[i];
        let y = b[i];
        let before = diff;
        diff = diff | (x ^ y);
        proof {
            assert((before | (x ^ y)) == 0 <==> before == 0 && x == y) by (bit_vector);
        }
        i += 1;
    }
    proof {
        if diff == 0 {
            assert(a@ =~= b@);
        }
    }
    diff == 0
}

} // verus!
