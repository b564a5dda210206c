use darkfi::client::{derive_nullifier, TransferCall, TransferClearInput, TransferInput, TransferOutput};
use darkfi::entrypoint::{
    consensus_contract_id, dark_token_id, money_contract_id, money_transfer_get_metadata_v1,
    money_transfer_process_instruction_v1, money_transfer_process_update_v1,
    money_unstake_get_metadata_v1, money_unstake_process_instruction_v1,
    money_unstake_process_update_v1, table_tag,
};
use darkfi::field::{
    base_from_u64, blake3_digest, hash_fields, pedersen_commit_base, pedersen_commit_u64,
    scalar_add, scalar_from_u64, scalar_sub, Base,
};
use darkfi::find_free_id;
use darkfi::merkle::{merkle_root_from_path, MerkleTree};
use darkfi::model::{
    ContractCall, ContractError, EncryptedNote, Input, MoneyError, MoneyFunction,
    MoneyTransferParamsV1, MoneyTransferUpdateV1, MoneyUnstakeParamsV1, MoneyUnstakeUpdateV1,
    ConsensusUnstakeParamsV1, Note, Output, PublicKey,
};
use darkfi::store::Blockchain;
use darkfi::zk::{Proof, ProvingKey, VerifyingKey};

fn sample_note(serial: u64, value: u64, token: u64) -> Note {
    Note {
        serial: base_from_u64(serial),
        value,
        token_id: base_from_u64(token),
        spend_hook: base_from_u64(0),
        user_data: base_from_u64(0),
        coin_blind: base_from_u64(7),
        value_blind: scalar_from_u64(11),
        token_blind: scalar_from_u64(13),
        memo: Vec::new(),
    }
}

#[test]
fn find_free_id_test() {
    let mut ids: Vec<u32> = vec![1, 3, 8, 9, 10, 3];
    let ids_empty: Vec<u32> = vec![];
    let ids_duplicate: Vec<u32> = vec![1; 100];

    let find_id = find_free_id(&ids);

    assert_eq!(find_id, 2);

    ids.push(find_id);

    assert_eq!(find_free_id(&ids), 4);

    assert_eq!(find_free_id(&ids_empty), 1);

    assert_eq!(find_free_id(&ids_duplicate), 2);
}

#[test]
fn word_encoding_round_trip() {
    let mut bytes: Vec<u8> = Vec::new();
    darkfi::field::push_u64_le(&mut bytes, 0x0123456789abcdef);
    assert_eq!(bytes.len(), 8);
    assert_eq!(bytes[0], 0xef);
    assert_eq!(bytes[7], 0x01);
    let (v, j) = darkfi::field::read_u64_at(&bytes, 0).unwrap();
    assert_eq!(v, 0x0123456789abcdef);
    assert_eq!(j, 8);
    assert!(darkfi::field::read_u64_at(&bytes, 1).is_none());
}

#[test]
fn base_encoding_round_trip() {
    let b = base_from_u64(123456789);
    let mut bytes: Vec<u8> = Vec::new();
    b.encode(&mut bytes);
    assert_eq!(bytes.len(), 32);
    let (b2, j) = Base::decode(&bytes, 0).unwrap();
    assert_eq!(j, 32);
    assert_eq!(b2, b);
    // A truncated encoding is malformed.
    bytes.pop();
    assert!(Base::decode(&bytes, 0).is_none());
}

#[test]
fn scalar_arithmetic_behaves_like_a_field() {
    let two = scalar_from_u64(2);
    let three = scalar_from_u64(3);
    let five = scalar_from_u64(5);
    let sum = scalar_add(&two, &three);
    assert_eq!(sum, five);
    assert_ne!(sum, two);
    assert_ne!(sum, three);
    assert_eq!(scalar_add(&two, &three), scalar_add(&three, &two));
    assert_eq!(scalar_sub(&five, &three), two);
}

#[test]
fn commitments_are_binding_on_inputs() {
    let b1 = scalar_from_u64(17);
    let b2 = scalar_from_u64(18);
    assert_eq!(pedersen_commit_u64(5, &b1), pedersen_commit_u64(5, &b1));
    assert_ne!(pedersen_commit_u64(5, &b1), pedersen_commit_u64(6, &b1));
    assert_ne!(pedersen_commit_u64(5, &b1), pedersen_commit_u64(5, &b2));
}

#[test]
fn hashing_reads_its_inputs() {
    let a = vec![base_from_u64(1), base_from_u64(2)];
    let b = vec![base_from_u64(2), base_from_u64(1)];
    assert_eq!(hash_fields(&a), hash_fields(&a));
    assert_ne!(hash_fields(&a), hash_fields(&b));
    assert_ne!(hash_fields(&a), a[0]);
    let d1 = blake3_digest(&vec![]);
    let d2 = blake3_digest(&vec![1]);
    assert_ne!(d1, d2);
}

#[test]
fn nullifier_is_deterministic() {
    let secret = base_from_u64(42);
    let serial = base_from_u64(69);
    let n1 = derive_nullifier(&secret, &serial);
    let n2 = derive_nullifier(&secret, &serial);
    assert_eq!(n1, n2);
    let n3 = derive_nullifier(&serial, &secret);
    assert_ne!(n1, n3);
}

#[test]
fn merkle_paths_fold_to_the_root() {
    let mut tree = MerkleTree::new();
    let a = base_from_u64(101);
    let b = base_from_u64(102);
    let c = base_from_u64(103);
    let pa = tree.append(&a);
    let pb = tree.append(&b);
    assert_eq!(pa, 0);
    assert_eq!(pb, 1);
    let root1 = tree.root();
    let path_a = tree.authentication_path(0);
    assert_eq!(path_a.len(), 32);
    assert_eq!(merkle_root_from_path(&a, 0, &path_a), root1);
    // A later append changes the root, but the old path still folds to the
    // old root, and the leaf's position never moves.
    tree.append(&c);
    let root2 = tree.root();
    assert_ne!(root1, root2);
    assert_eq!(merkle_root_from_path(&a, 0, &path_a), root1);
    let path_a2 = tree.authentication_path(0);
    assert_eq!(merkle_root_from_path(&a, 0, &path_a2), root2);
}

#[test]
fn historical_roots_stay_in_the_store() {
    let money = money_contract_id();
    let mut chain = Blockchain::new(0, blake3_digest(&vec![]));
    let a = base_from_u64(201);
    let b = base_from_u64(202);
    chain.contracts.merkle_append(&money, &table_tag(4), &table_tag(2), &vec![a]).unwrap();
    let mut tree = MerkleTree::new();
    tree.append(&a);
    let root1 = tree.root();
    let mut key1: Vec<u8> = Vec::new();
    root1.encode(&mut key1);
    assert!(chain.contracts.contains_key(&money, &table_tag(2), &key1));
    // Appending more leaves records a new root and keeps the old one.
    chain.contracts.merkle_append(&money, &table_tag(4), &table_tag(2), &vec![b]).unwrap();
    tree.append(&b);
    let root2 = tree.root();
    let mut key2: Vec<u8> = Vec::new();
    root2.encode(&mut key2);
    assert!(chain.contracts.contains_key(&money, &table_tag(2), &key1));
    assert!(chain.contracts.contains_key(&money, &table_tag(2), &key2));
    assert_eq!(chain.contracts.tree_leaves_len(&money, &table_tag(4)), Some(2));
}

#[test]
fn money_function_dispatch_is_a_bijection() {
    let fns = [
        MoneyFunction::TransferV1,
        MoneyFunction::OtcSwapV1,
        MoneyFunction::MintV1,
        MoneyFunction::FreezeV1,
        MoneyFunction::StakeV1,
        MoneyFunction::UnstakeV1,
    ];
    for f in fns.iter() {
        let b = f.to_u8();
        assert_eq!(MoneyFunction::try_from(b).unwrap(), *f);
    }
    assert_eq!(MoneyFunction::try_from(0x04), Err(ContractError::InvalidFunction));
    assert_eq!(MoneyFunction::try_from(0xff), Err(ContractError::InvalidFunction));
}

#[test]
fn sealed_notes_open_only_for_the_recipient() {
    let secret = base_from_u64(31337);
    let public = PublicKey::from_secret(&secret);
    let note = sample_note(1, 10, 5);
    let sealed = EncryptedNote::encrypt(note, &public);
    let opened = sealed.decrypt(&secret).unwrap();
    assert_eq!(opened.value, 10);
    let other = base_from_u64(31338);
    assert!(sealed.decrypt(&other).is_none());
}

fn clear_transfer_call(value: u64, token: u64) -> (MoneyTransferParamsV1, Vec<Proof>) {
    let sender_secret = base_from_u64(1001);
    let recipient_secret = base_from_u64(1002);
    let recipient = PublicKey::from_secret(&recipient_secret);
    let call = TransferCall {
        clear_inputs: vec![TransferClearInput {
            value,
            token_id: base_from_u64(token),
            signature_secret: sender_secret,
        }],
        inputs: vec![],
        outputs: vec![TransferOutput {
            value,
            token_id: base_from_u64(token),
            public: recipient,
            serial: base_from_u64(77),
            coin_blind: base_from_u64(78),
            spend_hook: base_from_u64(0),
            user_data: base_from_u64(0),
        }],
    };
    call.make(&ProvingKey { circuit: darkfi::zk::MONEY_ZKAS_MINT_NS_V1 }, &ProvingKey {
        circuit: darkfi::zk::MONEY_ZKAS_BURN_NS_V1,
    })
}

#[test]
fn clear_input_transfer_is_accepted_and_applied() {
    // A clear-input transfer of one value to one recipient: exactly one
    // revealed input, no anonymous input, one output.
    let (params, proofs) = clear_transfer_call(1000, 5);
    assert_eq!(params.clear_inputs.len(), 1);
    assert_eq!(params.inputs.len(), 0);
    assert_eq!(params.outputs.len(), 1);
    assert_eq!(proofs.len(), 1);

    let money = money_contract_id();
    let mut chain = Blockchain::new(0, blake3_digest(&vec![]));
    let mut bytes: Vec<u8> = Vec::new();
    params.encode(&mut bytes);
    let call = ContractCall { contract_id: money, func: 0x00, params: bytes };
    let calls = vec![call];

    // The metadata phase agrees with the proofs the builder produced.
    let meta = money_transfer_get_metadata_v1(&money, 0, &calls).unwrap();
    assert_eq!(meta.zk_public_inputs.len(), 1);
    let (ns, publics) = &meta.zk_public_inputs[0];
    assert_eq!(*ns, darkfi::zk::MONEY_ZKAS_MINT_NS_V1);
    let vk = VerifyingKey { circuit: darkfi::zk::MONEY_ZKAS_MINT_NS_V1 };
    assert!(proofs[0].verify(&vk, publics));
    assert_eq!(meta.signature_pubkeys.len(), 1);

    // The instruction phase accepts and the update inserts exactly one coin
    // and zero nullifiers.
    let update_data = money_transfer_process_instruction_v1(&money, 0, &calls, &chain).unwrap();
    assert_eq!(update_data[0], 0x00);
    let (update, _) = MoneyTransferUpdateV1::decode(&update_data, 1).unwrap();
    assert_eq!(update.nullifiers.len(), 0);
    assert_eq!(update.coins.len(), 1);
    assert_eq!(update.coins[0], params.outputs[0].coin);
    money_transfer_process_update_v1(&money, &mut chain, &update).unwrap();
    let mut coin_key: Vec<u8> = Vec::new();
    params.outputs[0].coin.encode(&mut coin_key);
    assert!(chain.contracts.contains_key(&money, &table_tag(1), &coin_key));
    assert_eq!(chain.contracts.tree_leaves_len(&money, &table_tag(4)), Some(1));

    // Re-validating the same call against the same snapshot after the update
    // now sees the duplicate coin.
    let second = money_transfer_process_instruction_v1(&money, 0, &calls, &chain);
    assert_eq!(second, Err(ContractError::Money(MoneyError::DuplicateCoin)));
}

#[test]
fn double_spend_is_rejected_with_a_duplicate_nullifier() {
    let money = money_contract_id();
    let mut chain = Blockchain::new(0, blake3_digest(&vec![]));

    // A coin owned by the sender, already in the coin set and tree.
    let secret = base_from_u64(2001);
    let public = PublicKey::from_secret(&secret);
    let note = sample_note(301, 50, 5);
    let coin = darkfi::client::compute_coin(&public, &note);
    chain.contracts.merkle_append(&money, &table_tag(4), &table_tag(2), &vec![coin]).unwrap();
    let mut tree = MerkleTree::new();
    tree.append(&coin);
    let path = tree.authentication_path(0);

    let recipient = PublicKey::from_secret(&base_from_u64(2002));
    let build = || TransferCall {
        clear_inputs: vec![],
        inputs: vec![TransferInput {
            leaf_position: 0,
            merkle_path: darkfi::zk::copy_bases(&path),
            secret,
            note: note.clone_note(),
            user_data_blind: base_from_u64(9),
            value_blind: scalar_from_u64(21),
            signature_secret: base_from_u64(2003),
        }],
        outputs: vec![TransferOutput {
            value: 50,
            token_id: base_from_u64(5),
            public: recipient,
            serial: base_from_u64(302),
            coin_blind: base_from_u64(303),
            spend_hook: base_from_u64(0),
            user_data: base_from_u64(0),
        }],
    };
    let (params, _proofs) = build().make(
        &ProvingKey { circuit: darkfi::zk::MONEY_ZKAS_MINT_NS_V1 },
        &ProvingKey { circuit: darkfi::zk::MONEY_ZKAS_BURN_NS_V1 },
    );
    let mut bytes: Vec<u8> = Vec::new();
    params.encode(&mut bytes);
    let calls = vec![ContractCall { contract_id: money, func: 0x00, params: bytes }];

    // The instruction phase is a pure function of the snapshot: run twice,
    // it gives the identical result.
    let first = money_transfer_process_instruction_v1(&money, 0, &calls, &chain);
    let again = money_transfer_process_instruction_v1(&money, 0, &calls, &chain);
    assert_eq!(first, again);
    let update_data = first.unwrap();
    let (update, _) = MoneyTransferUpdateV1::decode(&update_data, 1).unwrap();
    assert_eq!(update.nullifiers.len(), 1);
    money_transfer_process_update_v1(&money, &mut chain, &update).unwrap();

    // A second spend of the same coin now carries an already-recorded
    // nullifier and is rejected.
    let second = money_transfer_process_instruction_v1(&money, 0, &calls, &chain);
    assert_eq!(second, Err(ContractError::Money(MoneyError::DuplicateNullifier)));
}

fn unstake_calls(spend_hook: Base, with_next: Option<Base>) -> Vec<ContractCall> {
    let money = money_contract_id();
    let consensus = consensus_contract_id();
    let dark = dark_token_id();
    let tb = scalar_from_u64(401);
    let vb = scalar_from_u64(402);
    let vc = pedersen_commit_u64(90, &vb);
    let tc = pedersen_commit_base(&dark, &tb);
    let input = Input {
        value_commit: vc,
        token_commit: tc,
        nullifier: base_from_u64(403),
        merkle_root: base_from_u64(404),
        spend_hook: consensus,
        user_data_enc: base_from_u64(405),
        signature_public: PublicKey::from_secret(&base_from_u64(406)),
    };
    let recipient = PublicKey::from_secret(&base_from_u64(407));
    let note = sample_note(408, 90, 1);
    let output = Output {
        value_commit: vc,
        token_commit: tc,
        coin: base_from_u64(409),
        note: EncryptedNote::encrypt(note, &recipient),
    };
    let prev_params = ConsensusUnstakeParamsV1 { token_blind: tb, input };
    let mut prev_bytes: Vec<u8> = Vec::new();
    prev_params.encode(&mut prev_bytes);
    let this_params = MoneyUnstakeParamsV1 { input, token_blind: tb, spend_hook, output };
    let mut this_bytes: Vec<u8> = Vec::new();
    this_params.encode(&mut this_bytes);
    let mut calls = vec![
        ContractCall { contract_id: consensus, func: 0x02, params: prev_bytes },
        ContractCall { contract_id: money, func: 0x06, params: this_bytes },
    ];
    if let Some(cid) = with_next {
        calls.push(ContractCall { contract_id: cid, func: 0x00, params: Vec::new() });
    }
    calls
}

#[test]
fn unstake_accepts_only_with_its_companion_calls() {
    let money = money_contract_id();
    let consensus = consensus_contract_id();
    let mut chain = Blockchain::new(0, blake3_digest(&vec![]));

    // Record the input's membership root in the consensus root history.
    let mut root_key: Vec<u8> = Vec::new();
    base_from_u64(404).encode(&mut root_key);
    let empty: Vec<u8> = Vec::new();
    chain.contracts.set(&consensus, &table_tag(6), &root_key, &empty);

    // With a zero spend hook and the consensus call right before it, the
    // unstake is accepted; the update records the new coin.
    let calls = unstake_calls(base_from_u64(0), None);
    let meta = money_unstake_get_metadata_v1(&money, 1, &calls).unwrap();
    assert_eq!(meta.zk_public_inputs.len(), 1);
    assert_eq!(meta.signature_pubkeys.len(), 1);
    let update_data = money_unstake_process_instruction_v1(&money, 1, &calls, &chain).unwrap();
    assert_eq!(update_data[0], 0x06);
    let (update, _) = MoneyUnstakeUpdateV1::decode(&update_data, 1).unwrap();
    assert_eq!(update.coin, base_from_u64(409));
    money_unstake_process_update_v1(&money, &mut chain, &update).unwrap();
    let mut coin_key: Vec<u8> = Vec::new();
    update.coin.encode(&mut coin_key);
    assert!(chain.contracts.contains_key(&money, &table_tag(1), &coin_key));

    // A set spend hook demands the companion call: missing, it is out of
    // bounds; present under another contract, it is a mismatch; present
    // under the named contract, the call is accepted.
    let hook = base_from_u64(9);
    let calls = unstake_calls(hook, None);
    assert_eq!(
        money_unstake_process_instruction_v1(&money, 1, &calls, &chain),
        Err(ContractError::Money(MoneyError::SpendHookOutOfBounds))
    );
    let calls = unstake_calls(hook, Some(base_from_u64(10)));
    assert_eq!(
        money_unstake_process_instruction_v1(&money, 1, &calls, &chain),
        Err(ContractError::Money(MoneyError::SpendHookMismatch))
    );
    let fresh = {
        let mut c = Blockchain::new(0, blake3_digest(&vec![]));
        c.contracts.set(&consensus, &table_tag(6), &root_key, &empty);
        c
    };
    let calls = unstake_calls(hook, Some(hook));
    assert!(money_unstake_process_instruction_v1(&money, 1, &calls, &fresh).is_ok());

    // Without the consensus call right before it, the unstake is rejected.
    let mut calls = unstake_calls(base_from_u64(0), None);
    let lone = calls.remove(1);
    assert_eq!(
        money_unstake_process_instruction_v1(&money, 0, &vec![lone], &fresh),
        Err(ContractError::Money(MoneyError::SpendHookOutOfBounds))
    );
}

#[test]
fn commitment_sums_balance_on_concrete_values() {
    // Values 30 + 12 enter, 25 + 17 leave; blinds telescope (5 + 9 against
    // 6 + 8), so the two group sums are one point.
    let values_in = vec![30u64, 12];
    let blinds_in = vec![scalar_from_u64(5), scalar_from_u64(9)];
    let values_out = vec![25u64, 17];
    let blinds_out = vec![scalar_from_u64(6), scalar_from_u64(8)];
    let (a, b) = darkfi::client::commitment_sums_balance(
        &values_in,
        &blinds_in,
        &values_out,
        &blinds_out,
    );
    assert_eq!(a, b);
    // An unbalanced side sums to a different point.
    let c = pedersen_commit_u64(30, &scalar_from_u64(5));
    assert_ne!(a, c);
}

#[test]
fn malformed_call_bytes_are_a_decode_error() {
    let money = money_contract_id();
    let chain = Blockchain::new(0, blake3_digest(&vec![]));
    let calls = vec![ContractCall { contract_id: money, func: 0x00, params: vec![1, 2, 3] }];
    assert_eq!(
        money_transfer_process_instruction_v1(&money, 0, &calls, &chain),
        Err(ContractError::DecodeFailed)
    );
    assert_eq!(
        money_transfer_process_instruction_v1(&money, 7, &calls, &chain),
        Err(ContractError::CallIndexOutOfBounds)
    );
}
