use vstd::prelude::*;

verus! {

/// A well-formed mobile number: eleven digits, the first a 1, the
/// second between 3 and 9.
pub open spec fn is_valid_phone(s: Seq<u8>) -> bool {
    &&& s.len() == 11
    &&& s[0] == 49
    &&& 51 <= s[1] && s[1] <= 57
    &&& forall|i: int| 0 <= i < s.len() ==> 48 <= #[trigger] s[i] && s[i] <= 57
}

/// Validates a mobile number. The empty string passes — an absent
/// number is not a malformed one — and anything else must be a
/// well-formed eleven-digit number.
#[verifier::loop_isolation(false)]
pub fn phone(data: &str) -> (r: Result<(), ()>)
    ensures
        r is Ok <==> (vstd::utf8::encode_utf8(data@).len() == 0 || is_valid_phone(
            vstd::utf8::encode_utf8(data@),
        )),
{
    let b = data.as_bytes();
    if b.len() == 0 {
        return Ok(());
    }
    if b.len() != 11 {
        return Err(());
    }
    let first = *vstd::slice::slice_index_get(b, 0);
    if first != 49 {
        return Err(());
    }
    let second = *vstd::slice::slice_index_get(b, 1);
    if second < 51 || second > 57 {
        return Err(());
    }
    let mut i: usize = 0;
    while i < b.len()
        invariant
            0 <= i <= b@.len(),
            forall|j: int| 0 <= j < i ==> 48 <= #[trigger] b@[j] && b@[j] <= 57,
        decreases b@.len() - i,
    {
        let d = *vstd::slice::slice_index_get(b, i);
        if d < 48 || d > 57 {
            return Err(());
        }
        i = i + 1;
    }
    Ok(())
}

/// The default for flags that start switched off.
pub fn default_false() -> (r: bool)
    ensures
        r == false,
{
    false
}

/// The default for flags that start switched on.
pub fn default_true() -> (r: bool)
    ensures
        r == true,
{
    true
}

} // verus!
