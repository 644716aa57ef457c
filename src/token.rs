use vstd::prelude::*;

use crate::text::key_of;

verus! {

/// Whether `name` is an acceptable token name: 3 to 30 bytes long in UTF-8.
pub fn is_valid_name(name: &str) -> (r: bool)
    ensures
        r == (3 <= key_of(name@).len() <= 30),
{
    let bytes = name.as_bytes();
    if bytes.len() < 3 || bytes.len() > 30 {
        return false;
    }
    true
}

/// Whether `symbol` is an acceptable token symbol: 3 to 6 bytes, each an
/// upper-case ASCII letter.
pub fn is_valid_symbol(symbol: &str) -> (r: bool)
    ensures
        r == (3 <= key_of(symbol@).len() <= 6 && forall|i: int|
            0 <= i < key_of(symbol@).len() ==> 65 <= #[trigger] key_of(symbol@)[i] <= 90),
{
    let bytes = symbol.as_bytes();
    if bytes.len() < 3 || bytes.len() > 6 {
        return false;
    }
    let mut i: usize = 0;
    while i < bytes.len()
        invariant
            0 <= i <= bytes@.len(),
            bytes@ == key_of(symbol@),
            forall|j: int| 0 <= j < i ==> 65 <= #[trigger] bytes@[j] <= 90,
        decreases bytes@.len() - i,
    {
        if bytes[i] < 65 || bytes[i] > 90 {
            return false;
        }
        i = i + 1;
    }
    true
}

} // verus!
