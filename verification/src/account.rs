use vstd::prelude::*;

verus! {

/// The identity of a participant or of the reward token itself: a user, the
/// administrator, the mint, or the mint authority. The engine only ever
/// compares identities for equality and encodes them into derived storage
/// keys, so an identity is held as a plain integer.
#[derive(Clone, Copy, Debug, PartialEq, Eq, Structural)]
pub struct AccountId {
    pub value: u64,
}

impl AccountId {
    pub fn new(value: u64) -> (r: AccountId)
        ensures
            r == (AccountId { value }),
    {
        AccountId { value }
    }
}

} // verus!
