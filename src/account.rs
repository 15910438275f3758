use vstd::prelude::*;

verus! {

/// Identifier of a participant (a sender, recipient, subscriber or receiver)
/// or of an asset contract.
#[derive(Clone, Copy, Debug, PartialEq, Eq, Structural, Hash)]
pub struct Account(pub u64);

} // verus!
