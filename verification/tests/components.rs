use darkfi::consensus::{ConsensusProposalCallBuilder, OwnCoin, REWARD};
use darkfi::dao_mint::{compute_dao_bulla, Builder as DaoMintBuilder, DaoParams};
use darkfi::dao_propose::{
    dao_contract_id, Builder as DaoProposeBuilder, BuilderInput, Proposal, DAO_FUNC_PROPOSE,
};
use darkfi::entrypoint::consensus_contract_id;
use darkfi::field::{base_from_u64, blake3_digest, pedersen_commit_u64, scalar_from_u64};
use darkfi::merkle::MerkleTree;
use darkfi::metadata::{Address, LeadCoin, LeadProof, Metadata, Signature, VerifyFailed};
use darkfi::model::{Note, PublicKey};
use darkfi::objstore::ObjectArena;
use darkfi::shape::{Color, CoordOp, ShapeVertex, VectorShape};
use darkfi::store::{BlockInfo, Blockchain, Header, Transaction};
use darkfi::util::{ansi_texture, zip3};
use darkfi::zk::{ProvingKey, VerifyingKey, ZkContractTable, DAO_MINT_NS, DAO_PROPOSE_BURN_NS, DAO_PROPOSE_MAIN_NS};

#[test]
fn dao_mint_pins_the_bulla_and_its_proof_verifies() {
    // Mint a governance body with fixed parameters; the bulla is the hash of
    // exactly those parameters, and the proof verifies against [bulla].
    let dao_pubkey = PublicKey::from_secret(&base_from_u64(555));
    let builder = DaoMintBuilder {
        dao_proposer_limit: 110,
        dao_quorum: 200,
        dao_approval_ratio_quot: 2,
        dao_approval_ratio_base: 3,
        gov_token_id: base_from_u64(42),
        dao_pubkey,
        dao_bulla_blind: base_from_u64(99),
        signature_secret: base_from_u64(100),
    };
    let params = DaoParams {
        proposer_limit: 110,
        quorum: 200,
        approval_ratio_quot: 2,
        approval_ratio_base: 3,
        gov_token_id: base_from_u64(42),
        public_key: dao_pubkey,
        bulla_blind: base_from_u64(99),
    };
    let expected = compute_dao_bulla(&params);
    let mut table = ZkContractTable::new();
    table.add(DAO_MINT_NS, ProvingKey { circuit: DAO_MINT_NS });
    let (mint_params, proofs) = builder.build(&table);
    assert_eq!(mint_params.dao_bulla.0, expected);
    assert_eq!(proofs.len(), 1);
    let vk = VerifyingKey { circuit: DAO_MINT_NS };
    assert!(proofs[0].verify(&vk, &vec![mint_params.dao_bulla.0]));
    // The proof does not verify against a different instance.
    assert!(!proofs[0].verify(&vk, &vec![base_from_u64(1)]));
}

#[test]
fn dao_propose_carries_the_proposal_bulla() {
    let dao_pubkey = PublicKey::from_secret(&base_from_u64(600));
    let dao = DaoParams {
        proposer_limit: 1,
        quorum: 10,
        approval_ratio_quot: 1,
        approval_ratio_base: 2,
        gov_token_id: base_from_u64(42),
        public_key: dao_pubkey,
        bulla_blind: base_from_u64(601),
    };
    let gov_note = Note {
        serial: base_from_u64(602),
        value: 7,
        token_id: base_from_u64(42),
        spend_hook: base_from_u64(0),
        user_data: base_from_u64(0),
        coin_blind: base_from_u64(603),
        value_blind: scalar_from_u64(604),
        token_blind: scalar_from_u64(605),
        memo: Vec::new(),
    };
    let secret = base_from_u64(606);
    let own = PublicKey::from_secret(&secret);
    let plain = Note {
        spend_hook: base_from_u64(0),
        user_data: base_from_u64(0),
        memo: Vec::new(),
        ..gov_note.clone_note()
    };
    let coin = darkfi::client::compute_coin(&own, &plain);
    let mut tree = MerkleTree::new();
    tree.append(&coin);
    let path = tree.authentication_path(0);
    let proposal = Proposal {
        dest: PublicKey::from_secret(&base_from_u64(607)),
        amount: 5,
        serial: base_from_u64(608),
        token_id: base_from_u64(42),
        blind: base_from_u64(609),
    };
    let mut table = ZkContractTable::new();
    table.add(DAO_PROPOSE_BURN_NS, ProvingKey { circuit: DAO_PROPOSE_BURN_NS });
    table.add(DAO_PROPOSE_MAIN_NS, ProvingKey { circuit: DAO_PROPOSE_MAIN_NS });
    let builder = DaoProposeBuilder {
        inputs: vec![BuilderInput {
            secret,
            note: gov_note,
            leaf_position: 0,
            merkle_path: path,
            signature_secret: base_from_u64(610),
        }],
        proposal,
        dao,
        dao_leaf_position: 0,
        dao_merkle_path: Vec::new(),
        dao_merkle_root: base_from_u64(611),
    };
    let call = builder.build(&table);
    assert_eq!(call.contract_id, dao_contract_id());
    assert_eq!(call.func_id, DAO_FUNC_PROPOSE);
    assert_eq!(call.call_data.inputs.len(), 1);
    assert_eq!(call.proofs.len(), 2);
    // The input's membership root is the tree's root.
    assert_eq!(call.call_data.inputs[0].merkle_root, tree.root());
    // The main statement carries the proposal bulla at its fixed position.
    assert_eq!(call.proofs[1].publics[2], call.call_data.header.proposal_bulla);
}

#[test]
fn consensus_proposal_links_the_reward() {
    let secret = base_from_u64(700);
    let own = PublicKey::from_secret(&secret);
    let note = Note {
        serial: base_from_u64(701),
        value: 90,
        token_id: darkfi::entrypoint::dark_token_id(),
        spend_hook: consensus_contract_id(),
        user_data: base_from_u64(0),
        coin_blind: base_from_u64(702),
        value_blind: scalar_from_u64(703),
        token_blind: scalar_from_u64(704),
        memo: Vec::new(),
    };
    let coin = darkfi::client::compute_coin(&own, &note);
    let mut tree = MerkleTree::new();
    tree.append(&coin);
    let builder = ConsensusProposalCallBuilder {
        coin: OwnCoin { coin, note, secret, leaf_position: 0 },
        recipient: PublicKey::from_secret(&base_from_u64(705)),
        tree,
        burn_pk: ProvingKey { circuit: darkfi::zk::MONEY_ZKAS_BURN_NS_V1 },
        reward_pk: ProvingKey { circuit: darkfi::zk::CONSENSUS_ZKAS_REWARD_NS_V1 },
        mint_pk: ProvingKey { circuit: darkfi::zk::MONEY_ZKAS_MINT_NS_V1 },
    };
    let debris = builder.build();
    // The new note stakes the old value plus the reward, hooked to the
    // consensus contract, and the three halves report one consistent input.
    assert_eq!(debris.stake_params.output.note.payload.value, 90 + REWARD);
    assert_eq!(debris.stake_params.output.note.payload.spend_hook, consensus_contract_id());
    assert_eq!(debris.reward_params.unstake_input, debris.unstake_params.input);
    assert_eq!(debris.reward_params.stake_input, debris.stake_params.input);
    assert_eq!(debris.stake_params.input.nullifier, debris.unstake_params.input.nullifier);
    assert_eq!(debris.unstake_proofs.len(), 1);
    assert_eq!(debris.reward_proofs.len(), 1);
    assert_eq!(debris.stake_proofs.len(), 1);
}

#[test]
fn reward_proof_relates_old_and_new_commitments() {
    let pk = ProvingKey { circuit: darkfi::zk::CONSENSUS_ZKAS_REWARD_NS_V1 };
    let blind = scalar_from_u64(800);
    let (proof, revealed) = darkfi::consensus::create_proposal_reward_proof(&pk, 10, &blind);
    assert_eq!(revealed.value_commit, pedersen_commit_u64(10, &blind));
    assert_eq!(revealed.new_value_commit, pedersen_commit_u64(10 + REWARD, &blind));
    let vk = VerifyingKey { circuit: darkfi::zk::CONSENSUS_ZKAS_REWARD_NS_V1 };
    assert!(proof.verify(&vk, &revealed.to_vec()));
}

#[test]
fn lead_proof_verifies_its_own_inputs() {
    let pk = ProvingKey { circuit: darkfi::zk::CONSENSUS_ZKAS_LEAD_NS_V1 };
    let vk = VerifyingKey { circuit: darkfi::zk::CONSENSUS_ZKAS_LEAD_NS_V1 };
    let publics = vec![base_from_u64(1), base_from_u64(2)];
    let coin = LeadCoin { public_inputs: darkfi::zk::copy_bases(&publics) };
    let proof = LeadProof::new(&pk, coin);
    assert!(proof.verify(&vk, &publics).is_ok());
    let wrong = vec![base_from_u64(3)];
    assert_eq!(proof.verify(&vk, &wrong), Err(VerifyFailed::InvalidProof));
}

#[test]
fn metadata_keeps_its_parts() {
    let public = PublicKey::from_secret(&base_from_u64(900));
    let m = Metadata::new(
        Signature::dummy(),
        Address::from_public(&public),
        vec![base_from_u64(1)],
        0,
        blake3_digest(&vec![1, 2, 3]),
        LeadProof::new(
            &ProvingKey { circuit: darkfi::zk::CONSENSUS_ZKAS_LEAD_NS_V1 },
            LeadCoin { public_inputs: Vec::new() },
        ),
        Vec::new(),
    );
    assert_eq!(m.address.public, public);
    assert_eq!(m.public_inputs.len(), 1);
    assert_eq!(m.winning_index, 0);
    let d = Metadata::default();
    assert_eq!(d.public_inputs.len(), 0);
    assert_eq!(d.participants.len(), 0);
}

#[test]
fn blockchain_orders_and_finds_blocks() {
    let genesis_data = blake3_digest(&vec![9]);
    let mut chain = Blockchain::new(0, genesis_data);
    let header = Header { slot: 1, timestamp: 1000, previous: genesis_data };
    let block = BlockInfo {
        header,
        txs: vec![Transaction { calls: Vec::new(), proofs: Vec::new(), signatures: Vec::new() }],
        metadata: Metadata::default(),
    };
    let hashes = chain.add(&vec![block]).unwrap();
    assert_eq!(hashes.len(), 1);
    assert_eq!(hashes[0], header.headerhash());
    let block2 = BlockInfo {
        header,
        txs: Vec::new(),
        metadata: Metadata::default(),
    };
    // Re-inserting a known block is a no-op success.
    assert!(chain.has_block(&block2).unwrap());
    let hashes2 = chain.add(&vec![block2]).unwrap();
    assert_eq!(hashes2, hashes);
    let found = chain.get_blocks_by_hash(&hashes).unwrap();
    assert_eq!(found.len(), 1);
    assert_eq!(found[0].header, header);
    assert_eq!(found[0].txs.len(), 1);
    let by_slot = chain.get_blocks_by_slot(&vec![1, 7]).unwrap();
    assert_eq!(by_slot.len(), 1);
    let after = chain.get_blocks_after(0, 10).unwrap();
    assert_eq!(after.len(), 1);
    let (slot, hash) = chain.last().unwrap();
    assert_eq!(slot, 1);
    assert_eq!(hash, hashes[0]);
    assert!(chain.get_last_proof_hash().is_ok());
    let missing = blake3_digest(&vec![4, 5]);
    assert!(chain.get_blocks_by_hash(&vec![missing]).is_err());
}

#[test]
fn object_arena_checks_lengths() {
    let mut arena = ObjectArena::new();
    assert_eq!(arena.set_return_data(&vec![1, 2]), Ok(()));
    let h = arena.put_object_bytes(&vec![10, 20, 30]);
    assert_eq!(h, 0);
    assert_eq!(arena.get_object_size(0), 3);
    assert!(arena.get_object_size(1) < 0);
    let mut buf = vec![0u8; 3];
    assert_eq!(arena.get_object_bytes(&mut buf, 0), 3);
    assert_eq!(buf, vec![10, 20, 30]);
    let mut short = vec![0u8; 2];
    assert!(arena.get_object_bytes(&mut short, 0) < 0);
    assert!(arena.get_object_bytes(&mut buf, 5) < 0);
}

#[test]
fn zip3_enumerates_the_shortest() {
    let mut z = zip3(vec![1u64, 2, 3], vec![10u8, 20], vec![100u32, 200, 300]);
    assert_eq!(z.next(), Some((0, 1, 10, 100)));
    assert_eq!(z.next(), Some((1, 2, 20, 200)));
    assert_eq!(z.next(), None);
}

#[test]
fn ansi_texture_frames_the_pixels() {
    // A 2-by-1 texture: one opaque pixel, one transparent.
    let data = vec![0, 0, 0, 255, 0, 0, 0, 0];
    let out = ansi_texture(2, 1, &data);
    assert_eq!(out.len(), (2 + 3) * (1 + 2));
    assert_eq!(out[0], '\u{250c}');
    assert_eq!(out[3], '\u{2510}');
    assert_eq!(out[4], '\n');
    assert_eq!(out[6], '\u{2588}');
    assert_eq!(out[7], ' ');
    assert_eq!(out[out.len() - 1], '\n');
}

#[test]
fn filled_boxes_append_four_vertices_and_two_triangles() {
    let mut shape = VectorShape::new();
    let x1 = vec![CoordOp::ConstMilli(0)];
    let y1 = vec![CoordOp::ConstMilli(0)];
    let x2 = vec![CoordOp::LoadWidth];
    let y2 = vec![CoordOp::LoadHeight];
    let color = Color { r: 1, g: 2, b: 3, a: 4 };
    shape.add_filled_box(x1, y1, x2, y2, color);
    assert_eq!(shape.verts.len(), 4);
    assert_eq!(shape.indices, vec![0, 2, 1, 1, 2, 3]);
    let x1 = vec![CoordOp::ConstMilli(5)];
    let y1 = vec![CoordOp::ConstMilli(5)];
    let x2 = vec![CoordOp::ConstMilli(6)];
    let y2 = vec![CoordOp::ConstMilli(6)];
    shape.add_filled_box(x1, y1, x2, y2, color);
    assert_eq!(shape.verts.len(), 8);
    assert_eq!(shape.indices.len(), 12);
    assert_eq!(&shape.indices[6..], &[4, 6, 5, 5, 6, 7]);
    let v = ShapeVertex::new(vec![CoordOp::Add], vec![CoordOp::Sub], color);
    let _ = v;
}

#[test]
fn remainder_blind_telescopes() {
    // With input blinds 2 and 3 and one prior output blind 4, the remainder
    // is 1, so adding all output blinds gives back the input total.
    let ci: Vec<darkfi::model::ClearInput> = Vec::new();
    let input_blinds = vec![scalar_from_u64(2), scalar_from_u64(3)];
    let output_blinds = vec![scalar_from_u64(4)];
    let rem = darkfi::client::TransferCall::compute_remainder_blind(&ci, &input_blinds, &output_blinds);
    assert_eq!(rem, scalar_from_u64(1));
    assert_eq!(
        darkfi::field::scalar_add(&scalar_from_u64(4), &rem),
        darkfi::field::scalar_add(&scalar_from_u64(2), &scalar_from_u64(3))
    );
}
