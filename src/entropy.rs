//! Wallet entropy: fresh BIP 39 mnemonics, and the check on a stored seed.
use vstd::prelude::*;

verus! {

#[verifier::external_type_specification]
#[verifier::external_body]
pub struct ExMnemonic(bip39::Mnemonic);

#[verifier::external_type_specification]
#[verifier::external_body]
pub struct ExBip39Error(bip39::Error);

/// Length in bytes of the wallet's key seed.
pub const WALLET_KEYS_SEED_LEN: usize = 64;

/// Relies on rand's `thread_rng().fill_bytes`: 32 bytes from the thread's
/// generator, of which nothing can be promised.
#[verifier::external_body]
fn random_entropy() -> (r: [u8; 32]) {
    let mut entropy = [0u8; 32];
    rand::RngCore::fill_bytes(&mut rand::thread_rng(), &mut entropy);
    entropy
}

/// Relies on `bip39::Mnemonic::from_entropy`: an English mnemonic for entropy
/// of 16 to 32 bytes in steps of 4, and an error for any other length.
#[verifier::external_body]
fn mnemonic_from_entropy(entropy: &[u8]) -> (r: Result<bip39::Mnemonic, bip39::Error>)
    ensures
        (r is Ok) == (16 <= entropy@.len() <= 32 && entropy@.len() % 4 == 0),
{
    bip39::Mnemonic::from_entropy(entropy)
}

/// A random BIP 39 mnemonic over 256 bits of entropy, the most it supports.
pub fn generate_entropy_mnemonic() -> bip39::Mnemonic {
    let entropy = random_entropy();
    let r = mnemonic_from_entropy(entropy.as_slice());
    r.unwrap()
}

/// The wallet's key seed held in `bytes`, which must be exactly the seed's length.
pub fn seed_from_bytes(bytes: &Vec<u8>) -> (r: Option<[u8; 64]>)
    ensures
        r is Some <==> bytes@.len() == WALLET_KEYS_SEED_LEN,
        r matches Some(key) ==> key@ == bytes@,
{
    if bytes.len() != WALLET_KEYS_SEED_LEN {
        return None;
    }
    let mut key = [0u8; 64];
    let mut i: usize = 0;
    while i < WALLET_KEYS_SEED_LEN
        invariant
            bytes@.len() == WALLET_KEYS_SEED_LEN,
            i <= WALLET_KEYS_SEED_LEN,
            key@.len() == WALLET_KEYS_SEED_LEN,
            forall|j: int| 0 <= j < i ==> key@[j] == bytes@[j],
        decreases WALLET_KEYS_SEED_LEN - i,
    {
        key.set(i, bytes[i]);
        i = i + 1;
    }
    assert(key@ =~= bytes@);
    Some(key)
}

} // verus!
