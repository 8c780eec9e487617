use zkp::address::Address;
use zkp::asset::{Asset, Assets};
use zkp::block_processor::BlockProcessor;
use zkp::error::ZkpError;
use zkp::settlement_processor::SettlementProcessor;
use zkp::spent_circuit::SpentPublicInputs;
use zkp::transfer::Transfer;
use zkp::transfer_info::TransferInfo;
use zkp::tree_processor::{two_to_one_h256, DynamicLeafable, TreeProcessor};
use zkp::u256::U256;
use zkp::wrap::{validate_wrap, DynamicTreePublicInputs};
use zkp::withdraw_circuit::WithdrawValue;

fn transfer_to(recipient: Address, asset_id: u32, amount: u64) -> Transfer {
    Transfer {
        recipient,
        asset: Asset { asset_id, amount: U256::from(amount) },
    }
}

fn full_deposit(amount: u64) -> Assets {
    Assets([U256::from(amount); 4])
}

fn spent_pis_of(info: &zkp::block_processor::BlockInfo) -> SpentPublicInputs {
    SpentPublicInputs {
        block: info.block,
        spent: info.spent_value.spent,
    }
}

/// Two blocks of transfers to one recipient, with their evidence.
fn two_blocks(recipient: Address) -> (BlockProcessor, Vec<TransferInfo>) {
    let mut processor = BlockProcessor::new();
    let mut infos = Vec::new();
    for round in 0..2u64 {
        let transfers = vec![
            transfer_to(recipient, 0, 10 + round),
            transfer_to(recipient, 1, 20 + round),
        ];
        let info = processor.generate_block(&transfers, &full_deposit(100)).unwrap();
        processor.tick(&spent_pis_of(&info)).unwrap();
        infos.extend(info.transfer_info);
    }
    (processor, infos)
}

#[test]
fn test_withdraw_monotonicity() {
    let recipient = Address([5, 5, 5, 5, 5]);
    let (processor, infos) = two_blocks(recipient);
    let block_tree_pis = processor.get_block_tree_pis().unwrap();
    let snapshot = processor.get_block_tree_snapshot();
    let settlement = SettlementProcessor::new();

    // feeding the same transfer twice fails on the second consumption
    let twice = vec![
        zkp::serialized_transfer_info::SerializedTransferInfo::of_transfer_info(&infos[0])
            .to_transfer_info(),
        zkp::serialized_transfer_info::SerializedTransferInfo::of_transfer_info(&infos[0])
            .to_transfer_info(),
    ];
    match settlement.append_withdraw_proof(&block_tree_pis, &snapshot, &twice, &None) {
        Ok(_) => panic!("double consumption accepted"),
        Err(e) => assert_eq!(e, ZkpError::EbnNotIncreasing),
    }

    // feeding distinct transfers over two blocks succeeds, in any order
    let shuffled = vec![
        zkp::serialized_transfer_info::SerializedTransferInfo::of_transfer_info(&infos[3])
            .to_transfer_info(),
        zkp::serialized_transfer_info::SerializedTransferInfo::of_transfer_info(&infos[0])
            .to_transfer_info(),
        zkp::serialized_transfer_info::SerializedTransferInfo::of_transfer_info(&infos[2])
            .to_transfer_info(),
        zkp::serialized_transfer_info::SerializedTransferInfo::of_transfer_info(&infos[1])
            .to_transfer_info(),
    ];
    let steps = settlement
        .append_withdraw_proof(&block_tree_pis, &snapshot, &shuffled, &None)
        .unwrap();
    assert_eq!(steps.len(), 4);
    let total = &steps[steps.len() - 1].new_pis.total_amount;
    // 10 + 11 on asset 0, 20 + 21 on asset 1
    assert_eq!(total.0[0], U256::from(21u64));
    assert_eq!(total.0[1], U256::from(41u64));
    assert_eq!(total.0[2], U256::from(0u64));
}

#[test]
fn test_settlement_processor() {
    let recipient = Address([6, 6, 6, 6, 6]);
    let (processor, infos) = two_blocks(recipient);
    let block_tree_pis = processor.get_block_tree_pis().unwrap();
    let snapshot = processor.get_block_tree_snapshot();

    let mut settlement = SettlementProcessor::new();
    settlement.initialize(&snapshot);

    // start one chain per transfer, then settle each with itself as
    // evidence
    for info in &infos {
        let copied = zkp::serialized_transfer_info::SerializedTransferInfo::of_transfer_info(info)
            .to_transfer_info();
        let steps = settlement
            .append_withdraw_proof(&block_tree_pis, &snapshot, &[copied], &None)
            .unwrap();
        assert_eq!(steps.len(), 1);
        settlement
            .add(&snapshot, &steps[0].new_pis, info)
            .unwrap();
    }
    assert_eq!(settlement.get().len(), infos.len());

    let (root, proofs) = settlement.finalize().unwrap();
    assert_eq!(proofs.len(), infos.len());
    for proof in &proofs {
        proof.verify(root).unwrap();
    }
}

// The batch root only depends on the leaf hashes: pairing the recorded
// leaves offline with the plain compression gives the same root.
#[test]
fn test_settlement_root_matches_offline_pairing() {
    let recipient = Address([8, 8, 8, 8, 8]);
    let (processor, infos) = two_blocks(recipient);
    let block_tree_pis = processor.get_block_tree_pis().unwrap();
    let snapshot = processor.get_block_tree_snapshot();

    let mut settlement = SettlementProcessor::new();
    settlement.initialize(&snapshot);
    for info in infos.iter().take(3) {
        let copied = zkp::serialized_transfer_info::SerializedTransferInfo::of_transfer_info(info)
            .to_transfer_info();
        let steps = settlement
            .append_withdraw_proof(&block_tree_pis, &snapshot, &[copied], &None)
            .unwrap();
        settlement.add(&snapshot, &steps[0].new_pis, info).unwrap();
    }
    let leaves = settlement.get();
    let (root, _proofs) = settlement.finalize().unwrap();

    // offline: three leaves, padded with the first leaf's hash
    let h0 = leaves[0].hash();
    let h1 = leaves[1].hash();
    let h2 = leaves[2].hash();
    let pad = h0;
    let left = two_to_one_h256(&h0, &h1);
    let right = two_to_one_h256(&h2, &pad);
    let expected = two_to_one_h256(&left, &right);
    assert_eq!(root, expected);

    // the same leaves fed into a fresh builder give the same root again
    let mut rebuilt: TreeProcessor<zkp::settlement_leaf::SettlementLeaf> = TreeProcessor::new();
    for leaf in &leaves {
        rebuilt.add(*leaf);
    }
    let (root2, _p2) = rebuilt.finalize().unwrap();
    assert_eq!(root2, root);
}

#[test]
fn test_wrap_validation() {
    let recipient = Address([4, 4, 4, 4, 4]);
    let (processor, infos) = two_blocks(recipient);
    let block_tree_pis = processor.get_block_tree_pis().unwrap();
    let validity_pis = processor.get_validity_pis().unwrap();
    let snapshot = processor.get_block_tree_snapshot();

    let mut settlement = SettlementProcessor::new();
    settlement.initialize(&snapshot);
    let copied = zkp::serialized_transfer_info::SerializedTransferInfo::of_transfer_info(&infos[0])
        .to_transfer_info();
    let steps = settlement
        .append_withdraw_proof(&block_tree_pis, &snapshot, &[copied], &None)
        .unwrap();
    settlement.add(&snapshot, &steps[0].new_pis, &infos[0]).unwrap();
    let (settlement_root, _proofs) = settlement.finalize().unwrap();

    let settlement_tree_pis = DynamicTreePublicInputs {
        hash: settlement_root,
        block_root: block_tree_pis.block_root,
    };
    let wrap = validate_wrap(&validity_pis, &block_tree_pis, &settlement_tree_pis).unwrap();
    assert_eq!(wrap.block_hash, processor.get_status().latest_block.block_hash());
    assert_eq!(wrap.settlement_root, settlement_root);
    let digest1 = wrap.keccak_hash();
    let digest2 = wrap.keccak_hash();
    assert_eq!(digest1, digest2);

    // mismatched roots are reported
    let drifted = DynamicTreePublicInputs {
        hash: settlement_root,
        block_root: zkp::digest::Digest([9, 9, 9, 9]),
    };
    match validate_wrap(&validity_pis, &block_tree_pis, &drifted) {
        Ok(_) => panic!("drifted settlement root accepted"),
        Err(e) => assert_eq!(e, ZkpError::BlockRootMismatch),
    }
}

// End to end: an empty first block, then one transfer that is withdrawn,
// settled and wrapped.
#[test]
fn test_end_to_end_settlement_cycle() {
    let recipient = Address([1, 0, 0, 0, 7]);
    let mut processor = BlockProcessor::new();

    // first block: no transfers, no deposit
    let info = processor.generate_block(&[], &Assets::zero()).unwrap();
    processor.tick(&spent_pis_of(&info)).unwrap();
    let status = processor.get_status();
    status.verify().unwrap();
    assert!(status.validity_pis.is_some());
    assert!(status.block_tree_pis.is_some());
    let fresh_root = {
        let mut one_block = BlockProcessor::new();
        let again = one_block.generate_block(&[], &Assets::zero()).unwrap();
        one_block.tick(&spent_pis_of(&again)).unwrap();
        one_block.get_block_tree_status().block_root
    };
    assert_eq!(status.block_root, fresh_root);

    // second block: one transfer of asset 0, amount 10, deposit covers it
    let transfer = transfer_to(recipient, 0, 10);
    let info = processor
        .generate_block(&[transfer], &{
            let mut entries = [U256::from(0u64); 4];
            entries[0] = U256::from(10u64);
            Assets(entries)
        })
        .unwrap();
    processor.tick(&spent_pis_of(&info)).unwrap();

    // snapshot and settle the single transfer
    let block_tree_pis = processor.get_block_tree_pis().unwrap();
    let validity_pis = processor.get_validity_pis().unwrap();
    let snapshot = processor.get_block_tree_snapshot();
    let mut settlement = SettlementProcessor::new();
    settlement.initialize(&snapshot);
    let evidence = &info.transfer_info[0];
    let copied = zkp::serialized_transfer_info::SerializedTransferInfo::of_transfer_info(evidence)
        .to_transfer_info();
    let steps = settlement
        .append_withdraw_proof(&block_tree_pis, &snapshot, &[copied], &None)
        .unwrap();
    assert_eq!(steps[0].new_pis.total_amount.0[0], U256::from(10u64));
    settlement.add(&snapshot, &steps[0].new_pis, evidence).unwrap();
    let (settlement_root, proofs) = settlement.finalize().unwrap();
    proofs[0].verify(settlement_root).unwrap();

    // wrap: the externally visible pair names the latest block
    let settlement_tree_pis = DynamicTreePublicInputs {
        hash: settlement_root,
        block_root: block_tree_pis.block_root,
    };
    let wrap = validate_wrap(&validity_pis, &block_tree_pis, &settlement_tree_pis).unwrap();
    assert_eq!(wrap.block_hash, processor.get_status().latest_block.block_hash());
}

// A settlement attempt against a drifted snapshot is rejected.
#[test]
fn test_settlement_snapshot_guards() {
    let recipient = Address([2, 3, 4, 5, 6]);
    let (mut processor, infos) = two_blocks(recipient);
    let snapshot = processor.get_block_tree_snapshot();

    let mut settlement = SettlementProcessor::new();
    // validate before initialize
    let first_pis = zkp::withdraw_circuit::WithdrawPublicInputs::initial(recipient);
    assert_eq!(
        settlement.validate(&snapshot, &first_pis, &infos[0]).unwrap_err(),
        ZkpError::NotInitialized
    );

    settlement.initialize(&snapshot);
    // drift the live tree past the snapshot
    let info = processor
        .generate_block(&[transfer_to(recipient, 0, 1)], &full_deposit(100))
        .unwrap();
    processor.tick(&spent_pis_of(&info)).unwrap();
    let drifted = processor.get_block_tree_snapshot();
    assert_eq!(
        settlement.validate(&drifted, &first_pis, &infos[0]).unwrap_err(),
        ZkpError::SnapshotModified
    );
}

// A withdrawal step addressed to another recipient is rejected.
#[test]
fn test_withdraw_recipient_pinned() {
    let recipient = Address([1, 2, 1, 2, 1]);
    let other = Address([2, 1, 2, 1, 2]);
    let (processor, infos) = two_blocks(recipient);
    let block_tree_pis = processor.get_block_tree_pis().unwrap();
    let snapshot = processor.get_block_tree_snapshot();

    let prev = zkp::withdraw_circuit::WithdrawPublicInputs::initial(other);
    let copied = zkp::serialized_transfer_info::SerializedTransferInfo::of_transfer_info(&infos[0])
        .to_transfer_info();
    let proof_prev = snapshot.prove(0);
    let proof_transfer = snapshot.prove(copied.block.block_number as usize);
    match WithdrawValue::new(true, prev, copied, &block_tree_pis, proof_prev, proof_transfer) {
        Ok(_) => panic!("foreign recipient accepted"),
        Err(e) => assert_eq!(e, ZkpError::RecipientMismatch),
    }
}
