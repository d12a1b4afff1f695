//! Identifier validation.

use vstd::prelude::*;

verus! {

/// Number of bytes of a well-formed identifier.
pub const ID_LEN: usize = 21;

/// The identifier alphabet: ASCII letters, ASCII digits, `_` and `-`.
pub open spec fn is_id_byte(b: u8) -> bool {
    ||| 97 <= b <= 122
    ||| 65 <= b <= 90
    ||| 48 <= b <= 57
    ||| b == 95
    ||| b == 45
}

/// A well-formed identifier has exactly [`ID_LEN`] bytes, all from the
/// identifier alphabet.
pub open spec fn valid_id(id: Seq<u8>) -> bool {
    &&& id.len() == ID_LEN
    &&& forall|i: int| 0 <= i < id.len() ==> is_id_byte(#[trigger] id[i])
}

fn id_byte(b: u8) -> (ok: bool)
    ensures
        ok == is_id_byte(b),
{
    (97 <= b && b <= 122) || (65 <= b && b <= 90) || (48 <= b && b <= 57) || b == 95 || b == 45
}

/// Decides whether `id` is a well-formed identifier.
pub fn is_valid_id(id: &[u8]) -> (ok: bool)
    ensures
        ok == valid_id(id@),
{
    if id.len() != ID_LEN {
        return false;
    }
    let mut i: usize = 0;
    while i < id.len()
        invariant
            i <= id.len(),
            id@.len() == ID_LEN,
            forall|j: int| 0 <= j < i ==> is_id_byte(#[trigger] id@[j]),
        decreases id.len() - i,
    {
        if !id_byte(id[i]) {
            return false;
        }
        i += 1;
    }
    true
}

} // verus!
