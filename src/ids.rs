//! Identifier and field-element types shared by every module.

use vstd::prelude::*;

verus! {

/// Identifies a wallet (a 128-bit UUID)
pub type WalletIdentifier = u128;

/// Identifies an order (a 128-bit UUID)
pub type OrderIdentifier = u128;

/// Identifies a task (a 128-bit UUID)
pub type TaskIdentifier = u128;

/// Identifies a task queue; queues are usually keyed by wallet
pub type TaskQueueKey = u128;

/// A peer of the relayer network
#[derive(Clone, Copy, Debug, PartialEq, Eq, Structural, Hash)]
pub struct WrappedPeerId(pub u64);

/// A cluster of relayers that replicate the same wallets
#[derive(Clone, Copy, Debug, PartialEq, Eq, Structural, Hash)]
pub struct ClusterId(pub u64);

/// An element of the scalar field, as four little-endian 64-bit limbs
#[derive(Clone, Copy, Debug, PartialEq, Eq, Structural)]
pub struct Scalar {
    pub limb0: u64,
    pub limb1: u64,
    pub limb2: u64,
    pub limb3: u64,
}

/// The field element of a 64-bit integer
pub open spec fn spec_scalar_from_u64(v: u64) -> Scalar {
    Scalar { limb0: v, limb1: 0, limb2: 0, limb3: 0 }
}

impl Scalar {
    /// The field element zero
    pub fn zero() -> (r: Scalar)
        ensures
            r == spec_scalar_from_u64(0),
    {
        Scalar { limb0: 0, limb1: 0, limb2: 0, limb3: 0 }
    }

    /// The field element of a 64-bit integer
    pub fn from_u64(v: u64) -> (r: Scalar)
        ensures
            r == spec_scalar_from_u64(v),
    {
        Scalar { limb0: v, limb1: 0, limb2: 0, limb3: 0 }
    }

    /// The low 64 bits of the field element
    pub fn to_u64(&self) -> (r: u64)
        ensures
            r == self.limb0,
    {
        self.limb0
    }
}

/// A wallet nullifier: a field element that is spent on chain when the
/// wallet it belongs to transitions
pub type Nullifier = Scalar;

} // verus!
