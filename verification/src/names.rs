//! Names for anonymous volumes: 32 random bytes, written as 64 lowercase
//! hexadecimal digits.

use vstd::prelude::*;
use rand::RngCore;

verus! {

/// The sixteen hexadecimal digits, lowercase, by value.
pub open spec fn hex_alphabet() -> Seq<char> {
    seq!['0', '1', '2', '3', '4', '5', '6', '7', '8', '9', 'a', 'b', 'c', 'd', 'e', 'f']
}

/// `c` is a lowercase hexadecimal digit.
pub open spec fn is_hex_char(c: char) -> bool {
    hex_alphabet().contains(c)
}

/// The lowercase hexadecimal text of `bytes`: two digits for each byte, the
/// high half first.
pub open spec fn hex_of(bytes: Seq<u8>) -> Seq<char> {
    Seq::new(
        2 * bytes.len(),
        |i: int|
            if i % 2 == 0 {
                hex_alphabet()[bytes[i / 2] as int / 16]
            } else {
                hex_alphabet()[bytes[i / 2] as int % 16]
            },
    )
}

/// `name` has the shape of an anonymous volume's name: 64 lowercase
/// hexadecimal digits.
pub open spec fn is_anonymous_name(name: Seq<char>) -> bool {
    &&& name.len() == 64
    &&& forall|i: int| 0 <= i < name.len() ==> is_hex_char(#[trigger] name[i])
}

/// The hexadecimal text of 32 bytes has the shape of an anonymous name.
pub proof fn lemma_hex_of_is_anonymous_name(bytes: Seq<u8>)
    requires
        bytes.len() == 32,
    ensures
        is_anonymous_name(hex_of(bytes)),
{
    let name = hex_of(bytes);
    assert forall|i: int| 0 <= i < name.len() implies is_hex_char(#[trigger] name[i]) by {
        let b = bytes[i / 2] as int;
        let d = if i % 2 == 0 {
            b / 16
        } else {
            b % 16
        };
        assert(0 <= d < 16);
        assert(name[i] == hex_alphabet()[d]);
    }
}

/// Calls `rand::rng()` and `RngCore::fill_bytes` on it: 32 bytes from the
/// thread's random generator. Nothing is claimed of the bytes.
#[verifier::external_body]
fn random_bytes() -> (bytes: [u8; 32]) {
    let mut bytes: [u8; 32] = [0u8; 32];
    rand::rng().fill_bytes(&mut bytes);
    bytes
}

/// Calls `hex::encode`: the result holds, for each byte in turn, its high
/// and its low half as lowercase hexadecimal digits.
#[verifier::external_body]
fn hex_encode(bytes: &[u8; 32]) -> (text: String)
    ensures
        text@ == hex_of(bytes@),
{
    hex::encode(bytes)
}

/// The anonymous name that stands for `bytes`.
pub fn name_from_bytes(bytes: &[u8; 32]) -> (name: String)
    ensures
        name@ == hex_of(bytes@),
        is_anonymous_name(name@),
{
    proof {
        lemma_hex_of_is_anonymous_name(bytes@);
    }
    hex_encode(bytes)
}

/// A fresh name for an anonymous volume, from 32 random bytes.
pub fn generate_anonymous_volume_name() -> (name: String)
    ensures
        is_anonymous_name(name@),
{
    let bytes = random_bytes();
    name_from_bytes(&bytes)
}

} // verus!
