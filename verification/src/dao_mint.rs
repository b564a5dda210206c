//! Client-side assembly of a governance-body mint: the bulla that identifies
//! the body, and the proof for it.

use vstd::prelude::*;

use crate::field::{base_from_u64, hash_fields, hash_of, Base};
use crate::model::PublicKey;
use crate::zk::{Proof, ProvingKey, ZkContractTable, DAO_MINT_NS};

verus! {

/// The public parameters of a governance body.
#[derive(Clone, Copy, PartialEq, Eq, Structural, Debug)]
pub struct DaoParams {
    pub proposer_limit: u64,
    pub quorum: u64,
    pub approval_ratio_quot: u64,
    pub approval_ratio_base: u64,
    pub gov_token_id: Base,
    pub public_key: PublicKey,
    pub bulla_blind: Base,
}

impl DaoParams {
    pub open spec fn wf(self) -> bool {
        self.gov_token_id.wf() && self.public_key.wf() && self.bulla_blind.wf()
    }
}

/// The bulla identifying a governance body: the hash of its public
/// parameters, its key's coordinates and its blind.
pub open spec fn dao_bulla_of(p: DaoParams) -> nat {
    hash_of(
        seq![
            p.proposer_limit as nat,
            p.quorum as nat,
            p.approval_ratio_quot as nat,
            p.approval_ratio_base as nat,
            p.gov_token_id.val(),
            p.public_key.x.val(),
            p.public_key.y.val(),
            p.bulla_blind.val(),
        ],
    )
}

/// A bulla identifying a governance body.
#[derive(Clone, Copy, PartialEq, Eq, Structural, Debug)]
pub struct DaoBulla(pub Base);

/// Parameters of a governance-body mint call.
#[derive(Clone, Copy, PartialEq, Eq, Structural, Debug)]
pub struct DaoMintParams {
    pub dao_bulla: DaoBulla,
}

/// Computes the bulla of a governance body.
pub fn compute_dao_bulla(p: &DaoParams) -> (r: Base)
    requires
        p.wf(),
    ensures
        r.wf(),
        r.val() == dao_bulla_of(*p),
{
    let mut elems: Vec<Base> = Vec::new();
    elems.push(base_from_u64(p.proposer_limit));
    elems.push(base_from_u64(p.quorum));
    elems.push(base_from_u64(p.approval_ratio_quot));
    elems.push(base_from_u64(p.approval_ratio_base));
    elems.push(p.gov_token_id);
    elems.push(p.public_key.x);
    elems.push(p.public_key.y);
    elems.push(p.bulla_blind);
    let r = hash_fields(&elems);
    proof {
        assert(elems@.map_values(|x: Base| x.val()) =~= seq![
            p.proposer_limit as nat,
            p.quorum as nat,
            p.approval_ratio_quot as nat,
            p.approval_ratio_base as nat,
            p.gov_token_id.val(),
            p.public_key.x.val(),
            p.public_key.y.val(),
            p.bulla_blind.val(),
        ]);
    }
    r
}

/// A governance-body mint under construction.
pub struct Builder {
    pub dao_proposer_limit: u64,
    pub dao_quorum: u64,
    pub dao_approval_ratio_quot: u64,
    pub dao_approval_ratio_base: u64,
    pub gov_token_id: Base,
    pub dao_pubkey: PublicKey,
    pub dao_bulla_blind: Base,
    pub signature_secret: Base,
}

impl Builder {
    /// The parameters this builder stands for.
    pub open spec fn params(self) -> DaoParams {
        DaoParams {
            proposer_limit: self.dao_proposer_limit,
            quorum: self.dao_quorum,
            approval_ratio_quot: self.dao_approval_ratio_quot,
            approval_ratio_base: self.dao_approval_ratio_base,
            gov_token_id: self.gov_token_id,
            public_key: self.dao_pubkey,
            bulla_blind: self.dao_bulla_blind,
        }
    }

    /// Consumes the builder and produces the call parameters and the proof
    /// for the public input vector `[bulla]`.
    pub fn build(self, zk_bins: &ZkContractTable) -> (r: (DaoMintParams, Vec<Proof>))
        requires
            self.params().wf(),
            crate::zk::table_lookup(zk_bins.entries@, DAO_MINT_NS) is Some,
        ensures
            r.0.dao_bulla.0.wf(),
            r.0.dao_bulla.0.val() == dao_bulla_of(self.params()),
            r.1@.len() == 1,
            r.1@[0]@.circuit == crate::zk::table_lookup(
                zk_bins.entries@,
                DAO_MINT_NS,
            )->0.circuit,
            r.1@[0]@.publics == seq![r.0.dao_bulla.0],
    {
        let params = DaoParams {
            proposer_limit: self.dao_proposer_limit,
            quorum: self.dao_quorum,
            approval_ratio_quot: self.dao_approval_ratio_quot,
            approval_ratio_base: self.dao_approval_ratio_base,
            gov_token_id: self.gov_token_id,
            public_key: self.dao_pubkey,
            bulla_blind: self.dao_bulla_blind,
        };
        let dao_bulla = compute_dao_bulla(&params);
        let pk = match zk_bins.lookup(DAO_MINT_NS) {
            Some(v) => v,
            None => {
                // Unreachable: the table is required to hold the circuit.
                ProvingKey { circuit: DAO_MINT_NS }
            },
        };
        let mut publics: Vec<Base> = Vec::new();
        publics.push(dao_bulla);
        let mint_proof = Proof::create(&pk, Vec::new(), &publics);
        let mut proofs: Vec<Proof> = Vec::new();
        proofs.push(mint_proof);
        proof {
            assert(publics@ =~= seq![dao_bulla]);
        }
        (DaoMintParams { dao_bulla: DaoBulla(dao_bulla) }, proofs)
    }
}

} // verus!
