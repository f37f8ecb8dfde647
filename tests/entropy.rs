use bip39::Mnemonic;
use ldk_node_store::entropy::{generate_entropy_mnemonic, seed_from_bytes};

#[test]
fn mnemonic_to_entropy_to_mnemonic() {
    let mnemonic = generate_entropy_mnemonic();

    let entropy = mnemonic.to_entropy();
    assert_eq!(mnemonic, Mnemonic::from_entropy(&entropy).unwrap());
}

#[test]
fn generated_mnemonic_has_twenty_four_words() {
    let mnemonic = generate_entropy_mnemonic();
    assert_eq!(mnemonic.word_count(), 24);
    assert_eq!(mnemonic.to_entropy().len(), 32);
}

#[test]
fn seed_of_exact_length_is_taken_whole() {
    let bytes: Vec<u8> = (0u8..64).collect();
    let seed = seed_from_bytes(&bytes).unwrap();
    assert_eq!(seed.to_vec(), bytes);
}

#[test]
fn seed_of_wrong_length_is_refused() {
    assert!(seed_from_bytes(&vec![7u8; 63]).is_none());
    assert!(seed_from_bytes(&vec![7u8; 65]).is_none());
    assert!(seed_from_bytes(&Vec::new()).is_none());
}
