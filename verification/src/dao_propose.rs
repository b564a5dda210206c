//! Client-side assembly of a governance proposal: one burn statement per
//! governance-token input, and the main statement over the proposal bulla.

use vstd::prelude::*;

use crate::client::coin_of;
use crate::dao_mint::{dao_bulla_of, DaoParams};
use crate::field::{
    base_from_u64, base_random, hash_fields, hash_of, pedersen_commit_u64, scalar_random, Base,
    Point, Scalar,
};
use crate::merkle::{fold_path, leaf_vals, merkle_root_from_path};
use crate::model::PublicKey;
use crate::zk::{
    table_lookup, Proof, ProvingKey, ZkContractTable, DAO_PROPOSE_BURN_NS, DAO_PROPOSE_MAIN_NS,
};

verus! {

/// The governance contract's function discriminant for proposals.
pub const DAO_FUNC_PROPOSE: u8 = 1;

/// The governance contract's identifier.
pub open spec fn dao_contract_id_spec() -> Base {
    Base::from_limbs(4, 0, 0, 0)
}

/// The governance contract's identifier, as a field element.
pub fn dao_contract_id() -> (r: Base)
    ensures
        r == dao_contract_id_spec(),
        r.wf(),
{
    let r = base_from_u64(4);
    proof {
        crate::field::lemma_base_from_limbs_val(4, 0, 0, 0);
        crate::field::lemma_base_eq(r, dao_contract_id_spec());
    }
    r
}

/// What a proposal asks for: a payment to a destination.
#[derive(Clone, Copy, PartialEq, Eq, Structural, Debug)]
pub struct Proposal {
    pub dest: PublicKey,
    pub amount: u64,
    pub serial: Base,
    pub token_id: Base,
    pub blind: Base,
}

impl Proposal {
    pub open spec fn wf(self) -> bool {
        self.dest.wf() && self.serial.wf() && self.token_id.wf() && self.blind.wf()
    }
}

/// The bulla identifying a proposal: the hash of the proposal's fields and
/// the governance body's bulla.  The blind enters the hash twice, matching
/// the deployed circuit layout.
pub open spec fn proposal_bulla_of(p: Proposal, dao_bulla: nat) -> nat {
    hash_of(
        seq![
            p.dest.x.val(),
            p.dest.y.val(),
            p.amount as nat,
            p.serial.val(),
            p.token_id.val(),
            dao_bulla,
            p.blind.val(),
            p.blind.val(),
        ],
    )
}

/// The blinded export of a governance token identifier.
pub open spec fn gov_token_commit_of(token_id: nat, blind: nat) -> nat {
    hash_of(seq![token_id, blind])
}

/// The note a proposal seals for the governance body's key.
pub struct Note {
    pub proposal: Proposal,
}

/// A proposal note sealed for the governance body.  Sealing is modeled at
/// its boundary, as for output notes.
pub struct EncryptedProposal {
    pub recipient: PublicKey,
    pub payload: Proposal,
}

/// One governance-token input backing a proposal.
pub struct BuilderInput {
    pub secret: Base,
    pub note: crate::model::Note,
    pub leaf_position: u64,
    pub merkle_path: Vec<Base>,
    pub signature_secret: Base,
}

impl BuilderInput {
    pub open spec fn wf(self) -> bool {
        self.secret.wf() && self.note@.wf() && self.signature_secret.wf() && (forall|q: int|
            0 <= q < self.merkle_path@.len() ==> (#[trigger] self.merkle_path@[q]).wf())
    }
}

/// A revealed proposal input: the funds commitment, the membership root and
/// the signing key.
#[derive(Clone, Copy, PartialEq, Eq, Structural, Debug)]
pub struct ProposeInput {
    pub value_commit: Point,
    pub merkle_root: Base,
    pub signature_public: PublicKey,
}

/// The public header of a proposal call.
pub struct Header {
    pub dao_merkle_root: Base,
    pub proposal_bulla: Base,
    pub token_commit: Base,
    pub enc_note: EncryptedProposal,
}

/// The call data of a proposal.
pub struct CallData {
    pub header: Header,
    pub inputs: Vec<ProposeInput>,
}

/// A whole assembled function call.
pub struct FuncCall {
    pub contract_id: Base,
    pub func_id: u8,
    pub call_data: CallData,
    pub proofs: Vec<Proof>,
}

/// A proposal under construction.
pub struct Builder {
    pub inputs: Vec<BuilderInput>,
    pub proposal: Proposal,
    pub dao: DaoParams,
    pub dao_leaf_position: u64,
    pub dao_merkle_path: Vec<Base>,
    pub dao_merkle_root: Base,
}

/// The sum of the values of the notes backing a proposal.
pub open spec fn sum_note_values(s: Seq<BuilderInput>) -> nat
    decreases s.len(),
{
    if s.len() == 0 {
        0
    } else {
        (sum_note_values(s.drop_last()) + s.last().note.value) as nat
    }
}

impl Builder {
    /// Consumes the builder and produces the function call: one burn proof
    /// per input (public inputs in the fixed order: funds-commitment
    /// coordinates, token commitment, membership root, signature-key
    /// coordinates) and the main proof (token commitment, body root,
    /// proposal bulla, total-funds-commitment coordinates).
    #[verifier::loop_isolation(false)]
    #[verifier::rlimit(100)]
    pub fn build(self, zk_bins: &ZkContractTable) -> (r: FuncCall)
        requires
            self.proposal.wf(),
            self.dao.wf(),
            self.dao_merkle_root.wf(),
            forall|q: int| 0 <= q < self.inputs@.len() ==> (#[trigger] self.inputs@[q]).wf(),
            forall|q: int|
                0 <= q < self.inputs@.len() ==> (#[trigger] self.inputs@[q]).note.token_id
                    == self.dao.gov_token_id,
            sum_note_values(self.inputs@) <= u64::MAX,
            table_lookup(zk_bins.entries@, DAO_PROPOSE_BURN_NS) is Some,
            table_lookup(zk_bins.entries@, DAO_PROPOSE_MAIN_NS) is Some,
        ensures
            r.contract_id == dao_contract_id_spec(),
            r.func_id == DAO_FUNC_PROPOSE,
            r.call_data.header.proposal_bulla.wf(),
            r.call_data.header.proposal_bulla.val() == proposal_bulla_of(
                self.proposal,
                dao_bulla_of(self.dao),
            ),
            r.call_data.header.dao_merkle_root == self.dao_merkle_root,
            r.call_data.header.enc_note.recipient == self.dao.public_key,
            r.call_data.header.enc_note.payload == self.proposal,
            r.call_data.inputs@.len() == self.inputs@.len(),
            forall|q: int|
                0 <= q < self.inputs@.len() ==> exists|fb: Scalar|
                    (#[trigger] fb.wf()) && (#[trigger] r.call_data.inputs@[q]).value_commit.val()
                        == crate::field::commit_of(self.inputs@[q].note.value as nat, fb.val()),
            forall|q: int|
                0 <= q < self.inputs@.len() ==> {
                    let inp = #[trigger] r.call_data.inputs@[q];
                    let src = self.inputs@[q];
                    inp.merkle_root.val() == fold_path(
                        coin_of(
                            crate::model::pubkey_of(src.secret.val()).0,
                            crate::model::pubkey_of(src.secret.val()).1,
                            src.note.value as nat,
                            src.note.token_id.val(),
                            src.note.serial.val(),
                            0,
                            0,
                            src.note.coin_blind.val(),
                        ),
                        src.leaf_position as nat,
                        leaf_vals(src.merkle_path@),
                    ) && inp.signature_public.x.val() == crate::model::pubkey_of(
                        src.signature_secret.val(),
                    ).0 && inp.signature_public.y.val() == crate::model::pubkey_of(
                        src.signature_secret.val(),
                    ).1
                },
            r.proofs@.len() == self.inputs@.len() + 1,
            forall|q: int|
                0 <= q < self.inputs@.len() ==> (#[trigger] r.proofs@[q])@.circuit == table_lookup(
                    zk_bins.entries@,
                    DAO_PROPOSE_BURN_NS,
                )->0.circuit && r.proofs@[q]@.publics.len() == 6 && r.proofs@[q]@.publics[2]
                    == r.call_data.header.token_commit && r.proofs@[q]@.publics[3]
                    == r.call_data.inputs@[q].merkle_root,
            ({
                let main = r.proofs@[self.inputs@.len() as int]@;
                main.circuit == table_lookup(zk_bins.entries@, DAO_PROPOSE_MAIN_NS)->0.circuit
                    && main.publics.len() == 5 && main.publics[0]
                    == r.call_data.header.token_commit && main.publics[1] == self.dao_merkle_root
                    && main.publics[2] == r.call_data.header.proposal_bulla
            }),
            exists|tb: Scalar|
                (#[trigger] tb.wf()) && r.proofs@[self.inputs@.len() as int]@.publics[3].val()
                    == crate::field::coords_of(
                    crate::field::commit_of(sum_note_values(self.inputs@), tb.val()),
                ).0 && r.proofs@[self.inputs@.len() as int]@.publics[4].val()
                    == crate::field::coords_of(
                    crate::field::commit_of(sum_note_values(self.inputs@), tb.val()),
                ).1,
    {
        let burn_pk = match zk_bins.lookup(DAO_PROPOSE_BURN_NS) {
            Some(v) => v,
            None => { ProvingKey { circuit: DAO_PROPOSE_BURN_NS } },
        };
        let main_pk = match zk_bins.lookup(DAO_PROPOSE_MAIN_NS) {
            Some(v) => v,
            None => { ProvingKey { circuit: DAO_PROPOSE_MAIN_NS } },
        };
        let gov_token_blind = base_random();

        // The blinded export of the governance token identifier.
        let mut tc_elems: Vec<Base> = Vec::new();
        tc_elems.push(self.dao.gov_token_id);
        tc_elems.push(gov_token_blind);
        let token_commit = hash_fields(&tc_elems);
        proof {
            assert(tc_elems@.map_values(|x: Base| x.val()) =~= seq![
                self.dao.gov_token_id.val(),
                gov_token_blind.val(),
            ]);
        }

        let mut proofs: Vec<Proof> = Vec::new();
        let mut inputs: Vec<ProposeInput> = Vec::new();
        let mut total_funds: u64 = 0;
        let mut total_funds_blinds = crate::field::scalar_from_u64(0);
        let zero = base_from_u64(0);
        let mut k: usize = 0;
        while k < self.inputs.len()
            invariant
                0 <= k <= self.inputs@.len(),
                inputs@.len() == k,
                proofs@.len() == k,
                total_funds_blinds.wf(),
                total_funds as nat == sum_note_values(self.inputs@.subrange(0, k as int)),
                forall|q: int|
                    0 <= q < k ==> exists|fb: Scalar|
                        (#[trigger] fb.wf()) && (#[trigger] inputs@[q]).value_commit.val()
                            == crate::field::commit_of(self.inputs@[q].note.value as nat, fb.val()),
                forall|q: int|
                    0 <= q < k ==> {
                        let inp = #[trigger] inputs@[q];
                        let src = self.inputs@[q];
                        inp.merkle_root.val() == fold_path(
                            coin_of(
                                crate::model::pubkey_of(src.secret.val()).0,
                                crate::model::pubkey_of(src.secret.val()).1,
                                src.note.value as nat,
                                src.note.token_id.val(),
                                src.note.serial.val(),
                                0,
                                0,
                                src.note.coin_blind.val(),
                            ),
                            src.leaf_position as nat,
                            leaf_vals(src.merkle_path@),
                        ) && inp.signature_public.x.val() == crate::model::pubkey_of(
                            src.signature_secret.val(),
                        ).0 && inp.signature_public.y.val() == crate::model::pubkey_of(
                            src.signature_secret.val(),
                        ).1
                    },
                forall|q: int|
                    0 <= q < k ==> (#[trigger] proofs@[q])@.circuit == burn_pk.circuit
                        && proofs@[q]@.publics.len() == 6 && proofs@[q]@.publics[2] == token_commit
                        && proofs@[q]@.publics[3] == inputs@[q].merkle_root,
            decreases self.inputs@.len() - k,
        {
            let src = &self.inputs[k];
            proof {
                assert(self.inputs@.subrange(0, k + 1).drop_last() =~= self.inputs@.subrange(
                    0,
                    k as int,
                ));
                lemma_sum_prefix_bound(self.inputs@, k + 1);
            }
            let funds_blind = scalar_random();
            total_funds = total_funds + src.note.value;
            total_funds_blinds = crate::field::scalar_add(&total_funds_blinds, &funds_blind);
            let signature_public = PublicKey::from_secret(&src.signature_secret);
            let own_public = PublicKey::from_secret(&src.secret);

            // The coin of a governance-token note carries no spend hook and
            // no user data.
            let plain_note = crate::model::Note {
                serial: src.note.serial,
                value: src.note.value,
                token_id: src.note.token_id,
                spend_hook: zero,
                user_data: zero,
                coin_blind: src.note.coin_blind,
                value_blind: src.note.value_blind,
                token_blind: src.note.token_blind,
                memo: Vec::new(),
            };
            let coin = crate::client::compute_coin(&own_public, &plain_note);
            let merkle_root = merkle_root_from_path(&coin, src.leaf_position, &src.merkle_path);
            let value_commit = pedersen_commit_u64(src.note.value, &funds_blind);
            let (vcx, vcy) = crate::field::point_coords(&value_commit);
            let mut publics: Vec<Base> = Vec::new();
            publics.push(vcx);
            publics.push(vcy);
            publics.push(token_commit);
            publics.push(merkle_root);
            publics.push(signature_public.x);
            publics.push(signature_public.y);
            let input_proof = Proof::create(&burn_pk, Vec::new(), &publics);
            proofs.push(input_proof);
            inputs.push(ProposeInput { value_commit, merkle_root, signature_public });
            k = k + 1;
        }

        proof {
            assert(self.inputs@.subrange(0, self.inputs@.len() as int) =~= self.inputs@);
        }
        let total_funds_commit = pedersen_commit_u64(total_funds, &total_funds_blinds);
        let (tfx, tfy) = crate::field::point_coords(&total_funds_commit);

        let dao_bulla = crate::dao_mint::compute_dao_bulla(&self.dao);
        let amount_fe = base_from_u64(self.proposal.amount);
        let mut pb_elems: Vec<Base> = Vec::new();
        pb_elems.push(self.proposal.dest.x);
        pb_elems.push(self.proposal.dest.y);
        pb_elems.push(amount_fe);
        pb_elems.push(self.proposal.serial);
        pb_elems.push(self.proposal.token_id);
        pb_elems.push(dao_bulla);
        pb_elems.push(self.proposal.blind);
        pb_elems.push(self.proposal.blind);
        let proposal_bulla = hash_fields(&pb_elems);
        proof {
            assert(pb_elems@.map_values(|x: Base| x.val()) =~= seq![
                self.proposal.dest.x.val(),
                self.proposal.dest.y.val(),
                self.proposal.amount as nat,
                self.proposal.serial.val(),
                self.proposal.token_id.val(),
                dao_bulla_of(self.dao),
                self.proposal.blind.val(),
                self.proposal.blind.val(),
            ]);
        }

        let mut main_publics: Vec<Base> = Vec::new();
        main_publics.push(token_commit);
        main_publics.push(self.dao_merkle_root);
        main_publics.push(proposal_bulla);
        main_publics.push(tfx);
        main_publics.push(tfy);
        let main_proof = Proof::create(&main_pk, Vec::new(), &main_publics);
        proofs.push(main_proof);

        let enc_note = EncryptedProposal {
            recipient: self.dao.public_key,
            payload: self.proposal,
        };
        let header = Header {
            dao_merkle_root: self.dao_merkle_root,
            proposal_bulla,
            token_commit,
            enc_note,
        };
        let call_data = CallData { header, inputs };
        FuncCall {
            contract_id: dao_contract_id(),
            func_id: DAO_FUNC_PROPOSE,
            call_data,
            proofs,
        }
    }
}

/// A prefix sum of note values is bounded by the full sum.
proof fn lemma_sum_prefix_bound(s: Seq<BuilderInput>, k: int)
    requires
        0 <= k <= s.len(),
    ensures
        sum_note_values(s.subrange(0, k)) <= sum_note_values(s),
    decreases s.len() - k,
{
    if k == s.len() {
        assert(s.subrange(0, k) =~= s);
    } else {
        lemma_sum_prefix_bound(s, k + 1);
        assert(s.subrange(0, k + 1).drop_last() =~= s.subrange(0, k));
    }
}

} // verus!
