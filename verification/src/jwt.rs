use vstd::prelude::*;

verus! {

/// The payload of an issued token: who it names, what kind of account,
/// and when it expires (epoch seconds; validation rejects expired
/// tokens by default).
pub struct Claims {
    pub id: u64,
    pub user_type: u8,
    pub exp: usize,
}

impl Claims {
    /// Assembles a payload with an explicit expiry instant.
    pub fn with_exp(user_id: u64, user_type: u8, exp: usize) -> (r: Claims)
        ensures
            r.id == user_id,
            r.user_type == user_type,
            r.exp == exp,
    {
        Claims { id: user_id, user_type, exp }
    }
}

} // verus!
