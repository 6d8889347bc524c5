//! Randomly generated identifiers.
//!
//! Backend names, bearer tokens and error ids are opaque random strings; the
//! only promises the library makes are about their length and alphabet, which
//! are proved over the mapping from raw random words to characters.

use vstd::prelude::*;

verus! {

/// The characters a generated identifier draws from.
pub const ALPHABET: &'static str = "abcdefghijklmnopqrstuvwxyz0123456789";

/// A fresh random word.
///
/// Relies on rand's `random`: the value depends on the thread's generator,
/// so nothing is promised of it.
#[verifier::external_body]
fn random_u64() -> u64 {
    rand::random::<u64>()
}

/// A random string of `len` characters drawn from [`ALPHABET`].
///
/// Used for backend names, bearer tokens, secret tokens and error ids.
pub fn random_string(len: usize) -> (r: String)
    ensures
        r@.len() == len,
        forall|i: int| 0 <= i < r@.len() ==> ALPHABET@.contains(#[trigger] r@[i]),
{
    let mut out = String::new();
    let mut i: usize = 0;
    while i < len
        invariant
            i <= len,
            out@.len() == i,
            forall|j: int| 0 <= j < out@.len() ==> ALPHABET@.contains(#[trigger] out@[j]),
        decreases len - i,
    {
        let w = random_u64();
        let idx: usize = (w % 36) as usize;
        proof {
            reveal_strlit("abcdefghijklmnopqrstuvwxyz0123456789");
        }
        let c = ALPHABET.get_char(idx);
        let ghost prev = out@;
        out.append(ALPHABET.substring_ascii(idx, idx + 1));
        proof {
            assert(out@ =~= prev.push(c)) by {
                assert(ALPHABET@.subrange(idx as int, idx as int + 1) =~= seq![c]);
            }
        }
        i = i + 1;
    }
    out
}


/// How often the controller's cleanup loop runs, in seconds.
pub const CLEANUP_LOOP_INTERVAL_SECONDS: u64 = 900;

/// A random start offset for the cleanup loop, so that several
/// controllers do not all sweep at the same time; always inside one loop
/// interval.
pub fn cleanup_start_offset_seconds() -> (r: u64)
    ensures
        r < CLEANUP_LOOP_INTERVAL_SECONDS,
{
    random_u64() % CLEANUP_LOOP_INTERVAL_SECONDS
}

} // verus!
