//! Who calls a dispatchable.

use vstd::prelude::*;
use crate::assignment::AccountId;

verus! {

/// The origin of a call.
#[derive(Debug, Clone, Copy, PartialEq, Eq, Structural)]
pub enum Origin {
    /// The root (sudo or governance) origin.
    Root,
    /// A signed account.
    Signed(AccountId),
    /// An unsigned call.
    Unsigned,
}

} // verus!
