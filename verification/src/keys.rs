//! The secret key that a blinding factor stands for.
use crate::types::{BlindingFactor, SecretKey};
use vstd::prelude::*;

verus! {

/// Number of points on the curve secp256k1, and so of the secret keys for it.
pub open spec fn group_order() -> int {
    0xFFFFFFFFFFFFFFFFFFFFFFFFFFFFFFFEBAAEDCE6AF48A03BBFD25E8CD0364141int
}

/// The number that bytes write, the most significant byte first.
pub open spec fn number(bytes: Seq<u8>) -> int
    decreases bytes.len(),
{
    if bytes.len() == 0 {
        0
    } else {
        number(bytes.drop_last()) * 256 + bytes.last()
    }
}

/// The secret key with the bytes of a blinding factor, where these write a number
/// below the group order.
pub open spec fn blinding_key(blinding: BlindingFactor) -> Option<SecretKey> {
    if number(blinding.bytes@) < group_order() {
        Some(SecretKey { bytes: blinding.bytes })
    } else {
        None
    }
}

/// Calls `grin_keychain::BlindingFactor::secret_key`, which takes the bytes of a
/// blinding factor as they are for a secret key of secp256k1, the zero key among
/// them, and refuses bytes that write the group order or more.
#[verifier::external_body]
pub(crate) fn secret_key(blinding: &BlindingFactor) -> (key: Option<SecretKey>)
    ensures
        key == blinding_key(*blinding),
{
    let secp = grin_util::secp::Secp256k1::without_caps();
    match grin_keychain::BlindingFactor::from_slice(&blinding.bytes).secret_key(&secp) {
        Ok(key) => Some(SecretKey { bytes: key.0 }),
        Err(_) => None,
    }
}

} // verus!
