//! Comparing texts byte for byte.

use vstd::prelude::*;
use vstd::string::*;
use vstd::utf8::*;

verus! {

/// Whether two byte strings are the same.
pub fn bytes_equal(a: &[u8], b: &[u8]) -> (same: bool)
    ensures
        same == (a@ == b@),
{
    if a.len() != b.len() {
        return false;
    }
    let mut i: usize = 0;
    while i < a.len()
        invariant
            i <= a.len(),
            a.len() == b.len(),
            forall|j: int| 0 <= j < i ==> a@[j] == b@[j],
        decreases a.len() - i,
    {
        if a[i] != b[i] {
            return false;
        }
        i += 1;
    }
    assert(a@ =~= b@);
    true
}

/// Two texts have the same characters exactly when they have the same bytes.
pub proof fn lemma_same_bytes_same_text(a: Seq<char>, b: Seq<char>)
    ensures
        (encode_utf8(a) == encode_utf8(b)) <==> (a == b),
{
    encode_utf8_decode_utf8(a);
    encode_utf8_decode_utf8(b);
}

/// Whether two texts are the same, character for character.
pub fn text_equal(a: &str, b: &str) -> (same: bool)
    ensures
        same == (a@ == b@),
{
    proof {
        lemma_same_bytes_same_text(a@, b@);
    }
    bytes_equal(a.as_bytes(), b.as_bytes())
}

} // verus!
