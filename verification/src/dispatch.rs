//! Who sent a call, and the check that a call came from an account.
use vstd::prelude::*;

verus! {

/// The origin of a dispatched call: the root authority, a signed account, or a call
/// without any signature (`Unsigned`).
#[derive(Clone, Copy, Debug, PartialEq, Eq, Structural)]
pub enum Origin {
    Root,
    Signed(u64),
    Unsigned,
}

/// The account that signed `origin`, if it was signed.
pub open spec fn signer(origin: Origin) -> Option<u64> {
    match origin {
        Origin::Signed(who) => Some(who),
        _ => None,
    }
}

/// A call that needed a signed origin came from elsewhere.
#[derive(Clone, Copy, Debug, PartialEq, Eq, Structural)]
pub struct BadOrigin;

/// The signing account of `origin`, or `BadOrigin` where it was not signed.
pub fn ensure_signed(origin: Origin) -> (r: Result<u64, BadOrigin>)
    ensures
        match signer(origin) {
            Some(who) => r == Ok::<u64, BadOrigin>(who),
            None => r == Err::<u64, BadOrigin>(BadOrigin),
        },
{
    match origin {
        Origin::Signed(who) => Ok(who),
        _ => Err(BadOrigin),
    }
}

} // verus!
