//! Record identifiers: ten characters drawn at random from a hexadecimal
//! alphabet.

use vstd::prelude::*;

verus! {

/// A character within the ASCII range.
pub open spec fn is_ascii_char(c: char) -> bool {
    (c as u32) < 128
}

/// A character of the identifier alphabet.
pub open spec fn is_nano_char(c: char) -> bool {
    c == '0' || c == '1' || c == '2' || c == '3' || c == '4' || c == '5' || c == '6' || c == '7'
        || c == '8' || c == '9' || c == 'a' || c == 'b' || c == 'c' || c == 'd' || c == 'e' || c
        == 'f'
}

/// Relies on `nanoid::format` with the crate's default RNG: it returns
/// exactly `size` characters, each drawn from `alphabet`.  The alphabet
/// must be non-empty, ASCII and at most 255 symbols, and `size` must be
/// positive — an empty id over a non-power-of-two alphabet would make the
/// call's inner loop draw zero bytes per round and never return; other
/// violations panic.
#[verifier::external_body]
fn nano_id_from(alphabet: &Vec<char>, size: usize) -> (r: String)
    requires
        1 <= alphabet@.len() <= 255,
        size >= 1,
        forall|k: int| 0 <= k < alphabet@.len() ==> is_ascii_char(#[trigger] alphabet@[k]),
    ensures
        r@.len() == size,
        forall|k: int| 0 <= k < r@.len() ==> alphabet@.contains(#[trigger] r@[k]),
{
    nanoid::format(nanoid::rngs::default, alphabet.as_slice(), size)
}

/// A fresh ten-character identifier over the hexadecimal alphabet.  The
/// characters are random: two calls may or may not collide.
pub fn get_nano_id() -> (r: String)
    ensures
        r@.len() == 10,
        forall|k: int| 0 <= k < r@.len() ==> is_nano_char(#[trigger] r@[k]),
{
    let alphabet: Vec<char> = vec!['1', '2', '3', '4', '5', '6', '7', '8', '9', '0', 'a', 'b', 'c', 'd', 'e', 'f'];
    let r = nano_id_from(&alphabet, 10);
    proof {
        assert forall|k: int| 0 <= k < r@.len() implies is_nano_char(#[trigger] r@[k]) by {
            let j = choose|j: int| 0 <= j < alphabet@.len() && alphabet@[j] == r@[k];
            assert(is_nano_char(alphabet@[j]));
        }
    }
    r
}

} // verus!
