//! Client-side assembly of a consensus proposal: the unstake, reward and
//! re-stake halves of one composite operation, sharing one value blind so
//! the reward statement links the old and new value commitments.

use vstd::prelude::*;

use crate::client::{coin_of, nullifier_of};
use crate::entrypoint::{consensus_contract_id, consensus_contract_id_spec, dark_token_id_val};
use crate::field::{
    base_random, commit_of, pedersen_commit_base, pedersen_commit_u64, scalar_random, Base, Point,
    Scalar,
};
use crate::merkle::{leaf_vals, root_of, MerkleTree};
use crate::model::{
    ConsensusStakeParamsV1, ConsensusUnstakeParamsV1, EncryptedNote, Input, Note, Output,
    PublicKey, StakeInput,
};
use crate::zk::{Proof, ProvingKey};

verus! {

/// The fixed reward granted by a consensus proposal.
pub const REWARD: u64 = 1;

/// A coin owned by this wallet: the plaintext note, the owner's secret, and
/// the coin's stable position in the coin tree.
pub struct OwnCoin {
    pub coin: Base,
    pub note: Note,
    pub secret: Base,
    pub leaf_position: u64,
}

/// What a consensus reward statement reveals: the burnt value commitment and
/// the rewarded one.
#[derive(Clone, Copy, PartialEq, Eq, Structural, Debug)]
pub struct ConsensusProposalRewardRevealed {
    pub value_commit: Point,
    pub new_value_commit: Point,
}

impl ConsensusProposalRewardRevealed {
    /// The public-input vector, in the order the reward circuit constrains
    /// its instance: old coordinates, then new coordinates.
    pub fn to_vec(&self) -> (r: Vec<Base>)
        ensures
            r@.len() == 4,
            r@[0].val() == crate::field::coords_of(self.value_commit.val()).0,
            r@[1].val() == crate::field::coords_of(self.value_commit.val()).1,
            r@[2].val() == crate::field::coords_of(self.new_value_commit.val()).0,
            r@[3].val() == crate::field::coords_of(self.new_value_commit.val()).1,
    {
        let (vx, vy) = crate::field::point_coords(&self.value_commit);
        let (nx, ny) = crate::field::point_coords(&self.new_value_commit);
        let mut out: Vec<Base> = Vec::new();
        out.push(vx);
        out.push(vy);
        out.push(nx);
        out.push(ny);
        out
    }
}

/// Proves the reward statement: the new value commitment hides exactly the
/// old value plus the reward, under the same blind.
pub fn create_proposal_reward_proof(pk: &ProvingKey, value: u64, value_blind: &Scalar) -> (r: (
    Proof,
    ConsensusProposalRewardRevealed,
))
    requires
        value_blind.wf(),
        value + REWARD <= u64::MAX,
    ensures
        r.1.value_commit.val() == commit_of(value as nat, value_blind.val()),
        r.1.new_value_commit.val() == commit_of((value + REWARD) as nat, value_blind.val()),
        r.0@.circuit == pk.circuit,
        r.0@.publics.len() == 4,
        r.0@.publics[0].val() == crate::field::coords_of(r.1.value_commit.val()).0,
        r.0@.publics[1].val() == crate::field::coords_of(r.1.value_commit.val()).1,
        r.0@.publics[2].val() == crate::field::coords_of(r.1.new_value_commit.val()).0,
        r.0@.publics[3].val() == crate::field::coords_of(r.1.new_value_commit.val()).1,
{
    let value_commit = pedersen_commit_u64(value, value_blind);
    let new_value_commit = pedersen_commit_u64(value + REWARD, value_blind);
    let public_inputs = ConsensusProposalRewardRevealed { value_commit, new_value_commit };
    let publics = public_inputs.to_vec();
    let proof = Proof::create(pk, Vec::new(), &publics);
    (proof, public_inputs)
}

/// Everything a consensus proposal hands to the transaction assembler.
pub struct ConsensusProposalCallDebris {
    pub unstake_params: ConsensusUnstakeParamsV1,
    pub unstake_proofs: Vec<Proof>,
    pub reward_params: crate::model::ConsensusRewardParamsV1,
    pub reward_proofs: Vec<Proof>,
    pub stake_params: ConsensusStakeParamsV1,
    pub stake_proofs: Vec<Proof>,
    pub signature_secret: Base,
}

/// A consensus proposal under construction.
pub struct ConsensusProposalCallBuilder {
    /// The staked coin to release and re-stake with the reward.
    pub coin: OwnCoin,
    /// Recipient of the rewarded stake.
    pub recipient: PublicKey,
    /// Merkle tree of coins used to create inclusion proofs.
    pub tree: MerkleTree,
    /// Proving key for the burn statement.
    pub burn_pk: ProvingKey,
    /// Proving key for the reward statement.
    pub reward_pk: ProvingKey,
    /// Proving key for the mint statement.
    pub mint_pk: ProvingKey,
}

impl ConsensusProposalCallBuilder {
    /// Assembles the three halves.  The unstake input and the stake input
    /// share the burnt coin's nullifier and root; the new note carries the
    /// old value plus the reward under the consensus spend hook, and the
    /// reward statement links the two value commitments under one blind.
    #[verifier::loop_isolation(false)]
    #[verifier::rlimit(100)]
    pub fn build(&self) -> (r: ConsensusProposalCallDebris)
        requires
            self.coin.note@.wf(),
            self.coin.secret.wf(),
            self.recipient.wf(),
            self.tree.wf(),
            self.coin.leaf_position < self.tree@.len(),
            self.coin.note.value >= 1,
            self.coin.note.value + REWARD <= u64::MAX,
            self.coin.note.token_id.val() == dark_token_id_val(),
        ensures
            ({
                let d = r;
                let new_note = d.stake_params.output.note@.payload;
                &&& d.unstake_params.input.nullifier.val() == nullifier_of(
                    self.coin.secret.val(),
                    self.coin.note.serial.val(),
                )
                &&& d.unstake_params.input.merkle_root.val() == root_of(leaf_vals(self.tree@))
                &&& d.unstake_params.input.wf()
                &&& exists|b: Scalar|
                    #[trigger] b.wf() && d.unstake_params.input.value_commit.val() == commit_of(
                        self.coin.note.value as nat,
                        b.val(),
                    ) && d.stake_params.output.value_commit.val() == commit_of(
                        (self.coin.note.value + REWARD) as nat,
                        b.val(),
                    ) && new_note.value_blind == b
                &&& d.stake_params.input.nullifier == d.unstake_params.input.nullifier
                &&& d.stake_params.input.merkle_root == d.unstake_params.input.merkle_root
                &&& d.stake_params.input.value_commit == d.stake_params.output.value_commit
                &&& new_note.value == self.coin.note.value + REWARD
                &&& new_note.spend_hook == consensus_contract_id_spec()
                &&& new_note.token_id == self.coin.note.token_id
                &&& d.stake_params.output.note@.recipient == self.recipient
                &&& d.stake_params.output.coin.val() == coin_of(
                    self.recipient.x.val(),
                    self.recipient.y.val(),
                    (self.coin.note.value + REWARD) as nat,
                    self.coin.note.token_id.val(),
                    new_note.serial.val(),
                    consensus_contract_id_spec().val(),
                    new_note.user_data.val(),
                    new_note.coin_blind.val(),
                )
                &&& d.reward_params.unstake_input == d.unstake_params.input
                &&& d.reward_params.stake_input == d.stake_params.input
                &&& d.unstake_proofs@.len() == 1 && d.unstake_proofs@[0]@.circuit
                    == self.burn_pk.circuit
                &&& d.reward_proofs@.len() == 1 && d.reward_proofs@[0]@.circuit
                    == self.reward_pk.circuit
                &&& d.stake_proofs@.len() == 1 && d.stake_proofs@[0]@.circuit
                    == self.mint_pk.circuit
                &&& d.signature_secret.wf()
            }),
    {
        let value = self.coin.note.value;

        // The anonymous input releasing the staked coin.
        let root = self.tree.root();
        let merkle_path = self.tree.authentication_path(self.coin.leaf_position);
        let value_blind = scalar_random();
        let token_blind = scalar_random();
        let signature_secret = base_random();
        let user_data_blind = base_random();

        let nullifier = crate::client::derive_nullifier(&self.coin.secret, &self.coin.note.serial);
        let value_commit = pedersen_commit_u64(value, &value_blind);
        let token_commit = pedersen_commit_base(&self.coin.note.token_id, &token_blind);
        let user_data_enc = crate::client::compute_user_data_enc(
            &self.coin.note.user_data,
            &user_data_blind,
        );
        let signature_public = PublicKey::from_secret(&signature_secret);
        let input = Input {
            value_commit,
            token_commit,
            nullifier,
            merkle_root: root,
            spend_hook: self.coin.note.spend_hook,
            user_data_enc,
            signature_public,
        };
        let (vcx, vcy) = crate::field::point_coords(&value_commit);
        let (tcx, tcy) = crate::field::point_coords(&token_commit);
        let mut burn_publics: Vec<Base> = Vec::new();
        burn_publics.push(nullifier);
        burn_publics.push(vcx);
        burn_publics.push(vcy);
        burn_publics.push(tcx);
        burn_publics.push(tcy);
        burn_publics.push(root);
        burn_publics.push(input.spend_hook);
        burn_publics.push(user_data_enc);
        burn_publics.push(signature_public.x);
        burn_publics.push(signature_public.y);
        let burn_proof = Proof::create(&self.burn_pk, Vec::new(), &burn_publics);
        let _ = merkle_path;

        let unstake_params = ConsensusUnstakeParamsV1 { token_blind, input };
        let mut unstake_proofs: Vec<Proof> = Vec::new();
        unstake_proofs.push(burn_proof);
        let unstake_input = input;

        // The rewarded output, staked again under the consensus spend hook.
        let new_value = value + REWARD;
        let serial = base_random();
        let spend_hook = consensus_contract_id();
        let user_data = base_random();
        let coin_blind = base_random();
        let new_value_commit = pedersen_commit_u64(new_value, &value_blind);
        let new_token_commit = pedersen_commit_base(&self.coin.note.token_id, &token_blind);
        let note = Note {
            serial,
            value: new_value,
            token_id: self.coin.note.token_id,
            spend_hook,
            user_data,
            coin_blind,
            value_blind,
            token_blind,
            memo: Vec::new(),
        };
        let new_coin = crate::client::compute_coin(&self.recipient, &note);
        let (nvx, nvy) = crate::field::point_coords(&new_value_commit);
        let (ntx, nty) = crate::field::point_coords(&new_token_commit);
        let mut mint_publics: Vec<Base> = Vec::new();
        mint_publics.push(new_coin);
        mint_publics.push(nvx);
        mint_publics.push(nvy);
        mint_publics.push(ntx);
        mint_publics.push(nty);
        let mint_proof = Proof::create(&self.mint_pk, Vec::new(), &mint_publics);
        let encrypted_note = EncryptedNote::encrypt(note, &self.recipient);
        let output = Output {
            value_commit: new_value_commit,
            token_commit: new_token_commit,
            coin: new_coin,
            note: encrypted_note,
        };
        let stake_input = StakeInput {
            token_blind,
            value_commit: new_value_commit,
            nullifier,
            merkle_root: root,
            signature_public,
        };
        let output_copy = Output {
            value_commit: output.value_commit,
            token_commit: output.token_commit,
            coin: output.coin,
            note: EncryptedNote {
                recipient: output.note.recipient,
                payload: output.note.payload.clone_note(),
            },
        };
        let stake_params = ConsensusStakeParamsV1 { input: stake_input, output };
        let mut stake_proofs: Vec<Proof> = Vec::new();
        stake_proofs.push(mint_proof);

        // The reward statement linking the two value commitments.
        let (reward_proof, _revealed) = create_proposal_reward_proof(
            &self.reward_pk,
            value,
            &value_blind,
        );
        let reward_params = crate::model::ConsensusRewardParamsV1 {
            unstake_input,
            stake_input,
            output: output_copy,
        };
        let mut reward_proofs: Vec<Proof> = Vec::new();
        reward_proofs.push(reward_proof);

        let debris = ConsensusProposalCallDebris {
            unstake_params,
            unstake_proofs,
            reward_params,
            reward_proofs,
            stake_params,
            stake_proofs,
            signature_secret,
        };
        proof {
            assert(debris.stake_params.output.note@.payload.value_blind.wf()
                && debris.unstake_params.input.value_commit.val() == commit_of(
                self.coin.note.value as nat,
                debris.stake_params.output.note@.payload.value_blind.val(),
            ) && debris.stake_params.output.value_commit.val() == commit_of(
                (self.coin.note.value + REWARD) as nat,
                debris.stake_params.output.note@.payload.value_blind.val(),
            ));
        }
        debris
    }
}

} // verus!
