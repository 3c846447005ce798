//! Short codes: fixed-length strings over the ASCII letters and digits.

use vstd::prelude::*;

verus! {

/// The number of characters in every short code.
pub const CODE_LEN: usize = 6;

/// A character that may appear in a short code: an ASCII digit or letter.
pub open spec fn is_code_char(c: char) -> bool {
    ('0' <= c && c <= '9') || ('a' <= c && c <= 'z') || ('A' <= c && c <= 'Z')
}

/// A well-formed short code.
pub open spec fn is_code(s: Seq<char>) -> bool {
    s.len() == CODE_LEN && forall|i: int| 0 <= i < s.len() ==> is_code_char(#[trigger] s[i])
}

/// The characters that codes are drawn from: digits, then lower-case, then
/// upper-case letters, each once; sixty-two distinct letters and digits are
/// all of them.
pub fn code_alphabet() -> (r: Vec<char>)
    ensures
        r@.len() == 62,
        forall|i: int| 0 <= i < r@.len() ==> is_code_char(#[trigger] r@[i]),
        forall|i: int, j: int| 0 <= i < j < r@.len() ==> (#[trigger] r@[i]) != (#[trigger] r@[j]),
{
    let r = vec![
        '0', '1', '2', '3', '4', '5', '6', '7', '8', '9',
        'a', 'b', 'c', 'd', 'e', 'f', 'g', 'h', 'i', 'j', 'k', 'l', 'm',
        'n', 'o', 'p', 'q', 'r', 's', 't', 'u', 'v', 'w', 'x', 'y', 'z',
        'A', 'B', 'C', 'D', 'E', 'F', 'G', 'H', 'I', 'J', 'K', 'L', 'M',
        'N', 'O', 'P', 'Q', 'R', 'S', 'T', 'U', 'V', 'W', 'X', 'Y', 'Z',
    ];
    r
}

/// Relies on `nanoid::format` fed by `nanoid::rngs::default`: it draws random
/// bytes and pushes characters of `alphabet` until the string holds `size`
/// bytes. With an ASCII alphabet that is `size` characters, each one taken
/// from `alphabet`. It asserts that the alphabet has at most 255 entries,
/// computes `8 * size`, and never stops on an empty alphabet or a zero size.
#[verifier::external_body]
fn nanoid_format(alphabet: &Vec<char>, size: usize) -> (r: String)
    requires
        0 < alphabet@.len() <= 255,
        0 < size <= usize::MAX / 8,
        forall|i: int| 0 <= i < alphabet@.len() ==> (#[trigger] alphabet@[i] as u32) < 128,
    ensures
        r@.len() == size,
        forall|i: int| 0 <= i < r@.len() ==> alphabet@.contains(#[trigger] r@[i]),
{
    nanoid::format(nanoid::rngs::default, alphabet.as_slice(), size)
}

/// Draws a fresh random candidate code. Which code comes out is left to
/// chance; it is always well formed.
pub fn generate_code() -> (r: String)
    ensures
        is_code(r@),
{
    let alphabet = code_alphabet();
    assert forall|i: int| 0 <= i < alphabet@.len() implies (#[trigger] alphabet@[i] as u32) < 128 by {
        assert(is_code_char(alphabet@[i]));
    }
    let r = nanoid_format(&alphabet, CODE_LEN);
    assert forall|i: int| 0 <= i < r@.len() implies is_code_char(#[trigger] r@[i]) by {
        assert(alphabet@.contains(r@[i]));
    }
    r
}

} // verus!
