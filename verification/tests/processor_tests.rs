use zkp::address::Address;
use zkp::asset::{Asset, Assets};
use zkp::block_processor::BlockProcessor;
use zkp::digest::Digest;
use zkp::error::ZkpError;
use zkp::extended_block_number::ExtendedBlockNumber;
use zkp::spent_circuit::{SpentPublicInputs, SpentValue};
use zkp::transfer::Transfer;
use zkp::u256::U256;
use zkp::validity_circuit::ValidityPublicInputs;

fn transfer_to(recipient: Address, asset_id: u32, amount: u64) -> Transfer {
    Transfer {
        recipient,
        asset: Asset { asset_id, amount: U256::from(amount) },
    }
}

fn deposit_of(asset_id: u32, amount: u64) -> Assets {
    let mut entries = [U256::from(0u64); 4];
    entries[asset_id as usize] = U256::from(amount);
    Assets(entries)
}

fn spent_pis_of(info: &zkp::block_processor::BlockInfo) -> SpentPublicInputs {
    SpentPublicInputs {
        block: info.block,
        spent: info.spent_value.spent,
    }
}

#[test]
fn test_extended_block_number_case0() {
    let x = ExtendedBlockNumber::construct(3, 5);
    let y = ExtendedBlockNumber::construct(5, 4);
    x.less_than(&y);
}

#[test]
fn test_block_processor() {
    let recipient = Address([1, 2, 3, 4, 5]);
    let transfers = vec![
        transfer_to(recipient, 0, 10),
        transfer_to(recipient, 1, 20),
        transfer_to(recipient, 0, 30),
        transfer_to(recipient, 2, 40),
    ];
    let deposit = {
        let mut entries = [U256::from(0u64); 4];
        entries[0] = U256::from(100u64);
        entries[1] = U256::from(100u64);
        entries[2] = U256::from(100u64);
        entries[3] = U256::from(100u64);
        Assets(entries)
    };

    let mut block_processor = BlockProcessor::new();

    let block_info = block_processor.generate_block(&transfers, &deposit).unwrap();
    block_processor.tick(&spent_pis_of(&block_info)).unwrap();
    block_processor.get_status().verify().unwrap();

    // again
    let block_info = block_processor
        .generate_block(&transfers, &Assets::zero())
        .unwrap();
    block_processor.tick(&spent_pis_of(&block_info)).unwrap();
    block_processor.get_status().verify().unwrap();
}

// A status whose block root or latest block is tampered no longer passes.
#[test]
fn test_status_tamper_detected() {
    let recipient = Address([1, 2, 3, 4, 5]);
    let mut processor = BlockProcessor::new();
    let info = processor
        .generate_block(&[transfer_to(recipient, 0, 5)], &deposit_of(0, 10))
        .unwrap();
    processor.tick(&spent_pis_of(&info)).unwrap();

    let good = processor.get_status();
    good.verify().unwrap();

    let mut bad_root = processor.get_status();
    bad_root.block_root = Digest([
        bad_root.block_root.0[0] ^ 1,
        bad_root.block_root.0[1],
        bad_root.block_root.0[2],
        bad_root.block_root.0[3],
    ]);
    assert_eq!(bad_root.verify().unwrap_err(), ZkpError::InvalidStatus);

    let mut bad_block = processor.get_status();
    bad_block.latest_block.block_number += 1;
    assert_eq!(bad_block.verify().unwrap_err(), ZkpError::InvalidStatus);
}

// Continuity violations are rejected without touching the state.
#[test]
fn test_tick_continuity_errors() {
    let recipient = Address([9, 9, 9, 9, 9]);
    let mut processor = BlockProcessor::new();
    let info = processor
        .generate_block(&[transfer_to(recipient, 0, 1)], &deposit_of(0, 2))
        .unwrap();

    let mut wrong_number = spent_pis_of(&info);
    wrong_number.block.block_number = 5;
    match processor.tick(&wrong_number) {
        Ok(_) => panic!("block number mismatch accepted"),
        Err(e) => assert_eq!(e, ZkpError::BlockNumberMismatch),
    }

    let mut wrong_hash = spent_pis_of(&info);
    wrong_hash.block.prev_block_hash.0[0] ^= 1;
    match processor.tick(&wrong_hash) {
        Ok(_) => panic!("hash mismatch accepted"),
        Err(e) => assert_eq!(e, ZkpError::PrevBlockHashMismatch),
    }

    // the untampered block still applies
    assert!(processor.tick(&spent_pis_of(&info)).is_ok());
}

// A batch whose total spend exceeds the total deposit is rejected before
// any proving work, with an explicit error.
#[test]
fn test_overspending_rejected() {
    let recipient = Address([7, 7, 7, 7, 7]);
    let overspending = vec![transfer_to(recipient, 0, 11)];
    let deposit = deposit_of(0, 10);
    let err = match SpentValue::new(
        &overspending,
        &deposit,
        &zkp::block::Block::genesis().block_hash(),
        1,
    ) {
        Ok(_) => panic!("overspending batch accepted"),
        Err(e) => e,
    };
    assert_eq!(err, ZkpError::ConservationViolated);

    let processor = BlockProcessor::new();
    match processor.generate_block(&overspending, &deposit) {
        Ok(_) => panic!("overspending batch accepted"),
        Err(e) => assert_eq!(e, ZkpError::ConservationViolated),
    }

    // exactly covering the deposit is fine
    let ok = vec![transfer_to(recipient, 0, 10)];
    assert!(processor.generate_block(&ok, &deposit).is_ok());
}

// The cumulative spent totals never exceed the cumulative deposits.
#[test]
fn test_validity_conservation() {
    let recipient = Address([1, 1, 1, 1, 1]);
    let mut processor = BlockProcessor::new();
    let mut spent_so_far = 0u64;
    for round in 0..3u64 {
        let amount = 3 + round;
        let info = processor
            .generate_block(&[transfer_to(recipient, 0, amount)], &deposit_of(0, 10))
            .unwrap();
        processor.tick(&spent_pis_of(&info)).unwrap();
        spent_so_far += amount;
        let status = processor.get_status();
        let validity = status.validity_pis.unwrap();
        assert_eq!(validity.total_spent.0[0], U256::from(spent_so_far));
        assert!(validity.total_spent.le(&validity.total_deposit));
    }

    // a fourth block overspends the remaining budget and is rejected when
    // applied
    let info = processor
        .generate_block(&[transfer_to(recipient, 0, 25)], &deposit_of(0, 0))
        .unwrap();
    match processor.tick(&spent_pis_of(&info)) {
        Ok(_) => panic!("overspending block applied"),
        Err(e) => assert_eq!(e, ZkpError::ConservationViolated),
    }
}

// Folding one block into the validity state computes the new totals.
#[test]
fn test_validity_apply_values() {
    let recipient = Address([2, 2, 2, 2, 2]);
    let processor = BlockProcessor::new();
    let info = processor
        .generate_block(&[transfer_to(recipient, 1, 4)], &deposit_of(1, 9))
        .unwrap();
    let next = ValidityPublicInputs::apply(&ValidityPublicInputs::genesis(), &spent_pis_of(&info))
        .unwrap();
    assert_eq!(next.total_spent.0[1], U256::from(4u64));
    assert_eq!(next.total_deposit.0[1], U256::from(9u64));
    assert_eq!(next.block_hash, info.block.block_hash());
}

// Synchronizing against a wrong attested root leaves the log unchanged.
#[test]
fn test_sync_block_tree() {
    let recipient = Address([3, 3, 3, 3, 3]);
    let mut source = BlockProcessor::new();
    let info = source
        .generate_block(&[transfer_to(recipient, 0, 1)], &deposit_of(0, 5))
        .unwrap();
    source.tick(&spent_pis_of(&info)).unwrap();
    let expected_root = source.get_block_tree_status().block_root;

    let mut replica = BlockProcessor::new();
    let wrong_root = Digest([1, 2, 3, 4]);
    assert!(replica.sync_block_tree(&[info.block], &wrong_root).is_err());
    assert_eq!(replica.get_block_tree_status().latest_block_number, 0);

    replica.sync_block_tree(&[info.block], &expected_root).unwrap();
    assert_eq!(replica.get_block_tree_status().latest_block_number, 1);

    // and the public state can be restored from the source's status
    replica.restore(&source.get_status()).unwrap();
    assert_eq!(replica.get_status().latest_block, info.block);
    replica.get_status().verify().unwrap();
}
