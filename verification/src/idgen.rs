use vstd::prelude::*;

verus! {

/// Number of characters in a generated short identifier.
pub const ID_LEN: usize = 4;

/// Bytes that may appear in a generated identifier: the URL-safe
/// alphabet `A-Z`, `a-z`, `0-9`, `_` and `-`.
pub open spec fn is_id_byte(b: u8) -> bool {
    ||| (0x41 <= b && b <= 0x5a)  // 'A'..='Z'
    ||| (0x61 <= b && b <= 0x7a)  // 'a'..='z'
    ||| (0x30 <= b && b <= 0x39)  // '0'..='9'
    ||| b == 0x5f  // '_'
    ||| b == 0x2d  // '-'
}

/// A well-formed freshly generated identifier: `ID_LEN` bytes, each from
/// the URL-safe alphabet.
pub open spec fn is_fresh_id(id: Seq<u8>) -> bool {
    &&& id.len() == ID_LEN
    &&& forall|i: int| 0 <= i < id.len() ==> is_id_byte(id[i])
}

/// Relies on `nanoid::format` with `nanoid::rngs::default` and the URL-safe
/// alphabet `nanoid::alphabet::SAFE` (the 64 symbols `A-Za-z0-9_-`, all
/// ASCII): the result has exactly `ID_LEN` characters, each drawn from that
/// alphabet by an OS-seeded random source. The value is random, so nothing
/// more is promised of it.
#[verifier::external_body]
pub(crate) fn generate() -> (id: Vec<u8>)
    ensures
        is_fresh_id(id@),
{
    nanoid::format(nanoid::rngs::default, &nanoid::alphabet::SAFE, ID_LEN).into_bytes()
}

} // verus!
