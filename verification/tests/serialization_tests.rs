use zkp::address::Address;
use zkp::asset::{Asset, Assets};
use zkp::block::Block;
use zkp::block_processor::BlockProcessor;
use zkp::h256::{solidity_keccak256, H256};
use zkp::serialized_proof::SerializedProof;
use zkp::serialized_transfer_info::SerializedTransferInfo;
use zkp::spent_circuit::SpentPublicInputs;
use zkp::strings::join_str_with_separator;
use zkp::transfer::Transfer;
use zkp::u256::U256;

#[test]
fn test_serialized_proof_hex_roundtrip() {
    let blob = SerializedProof(vec![0, 1, 2, 254, 255, 16, 32]);
    let hex = blob.to_hex();
    assert_eq!(hex, "000102feff1020");
    let back = SerializedProof::from_hex(&hex).unwrap();
    assert_eq!(back.0, blob.0);

    assert!(SerializedProof::from_hex("0").is_err());
    assert!(SerializedProof::from_hex("zz").is_err());
    // uppercase decodes to the same bytes
    assert_eq!(SerializedProof::from_hex("FF00").unwrap().0, vec![255, 0]);
}

#[test]
fn test_convert_transfer_info() {
    let recipient = Address([1, 2, 3, 4, 5]);
    let transfers = vec![
        Transfer { recipient, asset: Asset { asset_id: 0, amount: U256::from(7u64) } },
        Transfer { recipient, asset: Asset { asset_id: 1, amount: U256::from(9u64) } },
    ];
    let deposit = Assets([U256::from(50u64); 4]);
    let processor = BlockProcessor::new();
    let info = processor.generate_block(&transfers, &deposit).unwrap();
    let original = &info.transfer_info[1];
    original.verify().unwrap();

    let serialized = SerializedTransferInfo::of_transfer_info(original);
    let recovered = serialized.to_transfer_info();
    let serialized_again = SerializedTransferInfo::of_transfer_info(&recovered);

    assert_eq!(recovered.transfer, original.transfer);
    assert_eq!(recovered.transfer_index, original.transfer_index);
    assert_eq!(recovered.block, original.block);
    recovered.verify().unwrap();
    assert_eq!(serialized_again.transfer, serialized.transfer);
    assert_eq!(
        serialized_again.transfer_merkle_proof.len(),
        serialized.transfer_merkle_proof.len()
    );
    for (a, b) in serialized_again
        .transfer_merkle_proof
        .iter()
        .zip(serialized.transfer_merkle_proof.iter())
    {
        assert_eq!(a.0, b.0);
    }
}

// A known hash vector pins the 256-bit primitive down.
#[test]
fn test_keccak_vectors() {
    let empty_digits = solidity_keccak256(vec![]);
    let empty_hash = H256::from_u32_digits(empty_digits);
    assert_eq!(
        empty_hash.to_hex_string(),
        "c5d2460186f7233c927e7db2dcc703c0e500b653ca82273b7bfad8045d85a470"
    );
}

#[test]
fn test_keccak_hash() {
    let transfer = Transfer {
        recipient: Address([1, 2, 3, 4, 5]),
        asset: Asset { asset_id: 2, amount: U256::from(77u64) },
    };
    let first = transfer.keccak_hash();
    let second = transfer.keccak_hash();
    assert_eq!(first, second);

    let mut other = transfer;
    other.asset.amount = U256::from(78u64);
    assert_ne!(first, other.keccak_hash());
}

#[test]
fn test_display_address() {
    let address = Address([0x70997970, 0xc51812dc, 0x3A010c7d, 0x01b50e0d, 0x17dc79C8]);
    let address_str = address.to_hex_string();
    assert_eq!(address_str, "70997970c51812dc3a010c7d01b50e0d17dc79c8");
    let recovered_address = Address::from_hex(&address_str).unwrap();
    assert_eq!(address, recovered_address);
}

#[test]
fn h256_test_convert_both_h256_and_hash_out() {
    let digest = zkp::digest::hash_fields(&vec![123, 456]);
    let h256 = H256::from_digest(digest);
    let digest2 = h256.reduce_to_digest();
    let h256_2 = H256::from_digest(digest2);
    assert_eq!(digest, digest2);
    assert_eq!(h256, h256_2);
}

#[test]
fn test_join_str_with_separator() {
    let parts = vec!["a".to_string(), "b".to_string(), "c".to_string()];
    assert_eq!(join_str_with_separator(&parts, ", "), "a, b, c");
    let one = vec!["solo".to_string()];
    assert_eq!(join_str_with_separator(&one, ", "), "solo");
    let none: Vec<String> = vec![];
    assert_eq!(join_str_with_separator(&none, ", "), "");
}

#[test]
fn test_block_hash_depends_on_fields() {
    let genesis = Block::genesis();
    let hash = genesis.block_hash();
    assert_eq!(hash, Block::genesis().block_hash());
    let mut next = genesis;
    next.block_number = 1;
    assert_ne!(hash, next.block_hash());
}
