//! Secret sharing of wallets over the scalar field: a wallet's scalars are
//! split into private shares and public shares, and the public shares are
//! blinded (every share but the blinder's own). Adding the two share vectors
//! and removing the blinder gives back the wallet.

use crate::circuit_types::{sized_wf, wallet_scalars, SizedWallet, WALLET_SCALARS};
use crate::ids::Scalar;
use crate::keychain::{le_value, scalar_bytes};
use vstd::arithmetic::div_mod::{
    lemma_add_mod_noop_right, lemma_mod_twice, lemma_small_mod, lemma_sub_mod_noop,
};
use vstd::prelude::*;

verus! {

/// The order of the scalar field, 2^252 + 27742317777372353535851937790883648493
pub open spec fn group_order() -> int {
    7237005577332262213973186563042994240857116359379907606001950938285454250989int
}

/// The integer a scalar's four limbs encode
pub open spec fn scalar_value(s: Scalar) -> int {
    le_value(scalar_bytes(s)) as int
}

/// Relies on `curve25519_dalek::scalar::Scalar`: `from_bytes_mod_order`
/// reduces a 256-bit little-endian integer modulo the group order, `+` adds
/// reduced scalars modulo the group order, and `to_bytes` gives the 32
/// little-endian bytes of the result.
#[verifier::external_body]
fn field_add_le(a: &Vec<u8>, b: &Vec<u8>) -> (r: Vec<u8>)
    requires
        a@.len() == 32,
        b@.len() == 32,
    ensures
        r@.len() == 32,
        le_value(r@) as int == (le_value(a@) as int + le_value(b@) as int) % group_order(),
{
    let x = curve25519_dalek::Scalar::from_bytes_mod_order(a.as_slice().try_into().unwrap());
    let y = curve25519_dalek::Scalar::from_bytes_mod_order(b.as_slice().try_into().unwrap());
    (x + y).to_bytes().to_vec()
}

/// Relies on `curve25519_dalek::scalar::Scalar`: `from_bytes_mod_order`
/// reduces a 256-bit little-endian integer modulo the group order, `-`
/// subtracts reduced scalars modulo the group order, and `to_bytes` gives the
/// 32 little-endian bytes of the result.
#[verifier::external_body]
fn field_sub_le(a: &Vec<u8>, b: &Vec<u8>) -> (r: Vec<u8>)
    requires
        a@.len() == 32,
        b@.len() == 32,
    ensures
        r@.len() == 32,
        le_value(r@) as int == (le_value(a@) as int - le_value(b@) as int) % group_order(),
{
    let x = curve25519_dalek::Scalar::from_bytes_mod_order(a.as_slice().try_into().unwrap());
    let y = curve25519_dalek::Scalar::from_bytes_mod_order(b.as_slice().try_into().unwrap());
    (x - y).to_bytes().to_vec()
}

impl Scalar {
    /// The sum in the scalar field
    pub fn field_add(&self, other: &Scalar) -> (r: Scalar)
        ensures
            scalar_value(r) == (scalar_value(*self) + scalar_value(*other)) % group_order(),
    {
        let a = self.to_le_bytes();
        let b = other.to_le_bytes();
        Scalar::from_le_bytes(&field_add_le(&a, &b))
    }

    /// The difference in the scalar field
    pub fn field_sub(&self, other: &Scalar) -> (r: Scalar)
        ensures
            scalar_value(r) == (scalar_value(*self) - scalar_value(*other)) % group_order(),
    {
        let a = self.to_le_bytes();
        let b = other.to_le_bytes();
        Scalar::from_le_bytes(&field_sub_le(&a, &b))
    }
}

/// The value of a blinded public share: the wallet's value less the private
/// share, plus the blinder when the share is blinded
pub open spec fn public_share_value(w: int, p: int, b: int, blinded: bool) -> int {
    let s = (w - p) % group_order();
    if blinded {
        (s + b) % group_order()
    } else {
        s
    }
}

/// The value recovered from a private and a blinded public share: their
/// sum, less the blinder when the share is blinded
pub open spec fn unblinded_value(p: int, bp: int, b: int, blinded: bool) -> int {
    let s = (p + bp) % group_order();
    if blinded {
        (s - b) % group_order()
    } else {
        s
    }
}

/// Every share but the last, the blinder's own, is blinded
pub open spec fn is_blinded(i: int) -> bool {
    i < WALLET_SCALARS - 1
}

/// Splits a wallet into shares: the given private shares and the public
/// shares that complete them, blinded by the blinder
pub fn create_wallet_shares_from_private(wallet: &SizedWallet, private_shares: &Vec<Scalar>, blinder: Scalar) -> (r: Vec<Scalar>)
    requires
        sized_wf(wallet@),
        private_shares@.len() == WALLET_SCALARS,
    ensures
        r@.len() == WALLET_SCALARS,
        forall|i: int| 0 <= i < WALLET_SCALARS ==> scalar_value(#[trigger] r@[i]) == public_share_value(
            scalar_value(wallet_scalars(wallet@)[i]),
            scalar_value(private_shares@[i]),
            scalar_value(blinder),
            is_blinded(i),
        ),
{
    let scalars = wallet.to_scalars();
    let mut public: Vec<Scalar> = Vec::new();
    let mut i: usize = 0;
    while i < WALLET_SCALARS
        invariant
            i <= WALLET_SCALARS,
            scalars@ == wallet_scalars(wallet@),
            scalars@.len() == WALLET_SCALARS,
            private_shares@.len() == WALLET_SCALARS,
            public@.len() == i,
            forall|k: int| 0 <= k < i ==> scalar_value(#[trigger] public@[k]) == public_share_value(
                scalar_value(scalars@[k]),
                scalar_value(private_shares@[k]),
                scalar_value(blinder),
                is_blinded(k),
            ),
        decreases WALLET_SCALARS - i,
    {
        let share = scalars[i].field_sub(&private_shares[i]);
        let blinded = if i < WALLET_SCALARS - 1 { share.field_add(&blinder) } else { share };
        public.push(blinded);
        i = i + 1;
    }
    public
}

/// Recovers a wallet's scalars from its private and blinded public shares
pub fn unblind_shares(private_shares: &Vec<Scalar>, blinded_public_shares: &Vec<Scalar>, blinder: Scalar) -> (r: Vec<Scalar>)
    requires
        private_shares@.len() == WALLET_SCALARS,
        blinded_public_shares@.len() == WALLET_SCALARS,
    ensures
        r@.len() == WALLET_SCALARS,
        forall|i: int| 0 <= i < WALLET_SCALARS ==> scalar_value(#[trigger] r@[i]) == unblinded_value(
            scalar_value(private_shares@[i]),
            scalar_value(blinded_public_shares@[i]),
            scalar_value(blinder),
            is_blinded(i),
        ),
{
    let mut r: Vec<Scalar> = Vec::new();
    let mut i: usize = 0;
    while i < WALLET_SCALARS
        invariant
            i <= WALLET_SCALARS,
            private_shares@.len() == WALLET_SCALARS,
            blinded_public_shares@.len() == WALLET_SCALARS,
            r@.len() == i,
            forall|k: int| 0 <= k < i ==> scalar_value(#[trigger] r@[k]) == unblinded_value(
                scalar_value(private_shares@[k]),
                scalar_value(blinded_public_shares@[k]),
                scalar_value(blinder),
                is_blinded(k),
            ),
        decreases WALLET_SCALARS - i,
    {
        let sum = private_shares[i].field_add(&blinded_public_shares[i]);
        let value = if i < WALLET_SCALARS - 1 { sum.field_sub(&blinder) } else { sum };
        r.push(value);
        i = i + 1;
    }
    r
}

/// Adding a private share to its blinded public share and removing the
/// blinder gives back the wallet's field element, whatever the private share
/// and the blinder.
pub proof fn lemma_shares_recover_plaintext(w: int, p: int, b: int, blinded: bool)
    requires
        0 <= w < group_order(),
    ensures
        unblinded_value(p, public_share_value(w, p, b, blinded), b, blinded) == w,
{
    let m = group_order();
    let d = (w - p) % m;
    lemma_small_mod(w as nat, m as nat);
    // p + d is w modulo the group order
    lemma_add_mod_noop_right(p, w - p, m);
    if blinded {
        // p + ((d + b) mod m) is w + b modulo the group order
        lemma_add_mod_noop_right(p, d + b, m);
        lemma_add_mod_noop_right(p + b, w - p, m);
        assert((p + (d + b) % m) % m == (w + b) % m);
        // and removing b leaves w
        lemma_sub_mod_noop(w + b, b, m);
        lemma_mod_twice(b, m);
        lemma_sub_mod_noop((w + b) % m, b, m);
        lemma_mod_twice(w + b, m);
    }
}

} // verus!
