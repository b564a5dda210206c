//! Block metadata used by the consensus protocol, and the leadership proof.

use vstd::prelude::*;

use crate::field::{
    base_random, blake3_digest, fixed_point, point_mul, scalar_from_u64, Base, Hash32, Point,
    Scalar,
};
use crate::model::PublicKey;
use crate::zk::{Proof, ProvingKey, VerifyingKey};

verus! {

/// A transaction signature.  Signing itself is outside this library's scope;
/// the structure carries the commitment point and the response scalar.
#[derive(Clone, Copy, PartialEq, Eq, Structural, Debug)]
pub struct Signature {
    pub commit: Point,
    pub response: Scalar,
}

impl Signature {
    /// A placeholder signature with the zero response.
    pub fn dummy() -> (r: Signature)
        ensures
            r.response.val() == 0,
    {
        let g = fixed_point(0);
        let zero = scalar_from_u64(0);
        let commit = point_mul(&g, &zero);
        Signature { commit, response: zero }
    }
}

/// A block-owner address: the owner's public key.
#[derive(Clone, Copy, PartialEq, Eq, Structural, Debug)]
pub struct Address {
    pub public: PublicKey,
}

impl Address {
    /// The address of a public key.
    pub fn from_public(public: &PublicKey) -> (r: Address)
        ensures
            r.public == *public,
    {
        Address { public: *public }
    }
}

/// A node participating in the consensus process.
#[derive(Clone, Copy, PartialEq, Eq, Structural, Debug)]
pub struct Participant {
    pub address: Address,
    pub joined: u64,
}

/// A slot-leader coin: what the leadership statement reveals.
#[derive(Clone, Debug)]
pub struct LeadCoin {
    pub public_inputs: Vec<Base>,
}

/// Wrapper over the leadership proof, for future additions.
#[derive(Clone, Debug)]
pub struct LeadProof {
    /// Leadership proof.
    pub proof: Proof,
}

impl LeadProof {
    /// Proves leadership for a coin's public inputs.
    pub fn new(pk: &ProvingKey, coin: LeadCoin) -> (r: LeadProof)
        ensures
            r.proof@.circuit == pk.circuit,
            r.proof@.publics == coin.public_inputs@,
    {
        let proof = Proof::create(pk, Vec::new(), &coin.public_inputs);
        LeadProof { proof }
    }

    /// Verifies the leadership proof against public inputs.
    pub fn verify(&self, vk: &VerifyingKey, public_inputs: &Vec<Base>) -> (r: Result<
        (),
        VerifyFailed,
    >)
        ensures
            r is Ok <==> (self.proof@.circuit == vk.circuit && self.proof@.publics
                == public_inputs@),
            r is Err ==> r->Err_0 == VerifyFailed::InvalidProof,
    {
        if self.proof.verify(vk, public_inputs) {
            Ok(())
        } else {
            Err(VerifyFailed::InvalidProof)
        }
    }
}

/// Why a verification was rejected.
#[derive(Clone, Copy, PartialEq, Eq, Structural, Debug)]
pub enum VerifyFailed {
    InvalidProof,
}

/// Block information used by the consensus protocol.
#[derive(Clone, Debug)]
pub struct Metadata {
    /// Block owner signature.
    pub signature: Signature,
    /// Block owner address.
    pub address: Address,
    /// Block owner slot competing coins public inputs.
    pub public_inputs: Vec<Base>,
    /// Block owner winning coin index.
    pub winning_index: usize,
    /// Response of the global random oracle, or its emulation.
    pub eta: Hash32,
    /// Leader proof.
    pub proof: LeadProof,
    /// Nodes participating in the consensus process.
    pub participants: Vec<Participant>,
}

impl Metadata {
    /// Assembles block metadata from its parts.
    pub fn new(
        signature: Signature,
        address: Address,
        public_inputs: Vec<Base>,
        winning_index: usize,
        eta: Hash32,
        proof: LeadProof,
        participants: Vec<Participant>,
    ) -> (r: Metadata)
        ensures
            r.signature == signature,
            r.address == address,
            r.public_inputs@ == public_inputs@,
            r.winning_index == winning_index,
            r.eta == eta,
            r.proof.proof@ == proof.proof@,
            r.participants@ == participants@,
    {
        Metadata { signature, address, public_inputs, winning_index, eta, proof, participants }
    }
}

/// Whether two metadata values agree in every field, the vector-holding
/// fields by contents.
pub open spec fn meta_matches(a: Metadata, b: Metadata) -> bool {
    a.signature == b.signature && a.address == b.address && a.public_inputs@ == b.public_inputs@
        && a.winning_index == b.winning_index && a.eta == b.eta && a.proof.proof@
        == b.proof.proof@ && a.participants@ == b.participants@
}

impl Metadata {
    /// A field-for-field copy.
    pub fn clone_meta(&self) -> (r: Metadata)
        ensures
            meta_matches(r, *self),
    {
        let public_inputs = crate::zk::copy_bases(&self.public_inputs);
        let proof = LeadProof {
            proof: Proof {
                circuit: self.proof.proof.circuit,
                publics: crate::zk::copy_bases(&self.proof.proof.publics),
            },
        };
        let mut participants: Vec<Participant> = Vec::new();
        let mut k: usize = 0;
        while k < self.participants.len()
            invariant
                0 <= k <= self.participants@.len(),
                participants@ == self.participants@.subrange(0, k as int),
            decreases self.participants@.len() - k,
        {
            participants.push(self.participants[k]);
            proof {
                assert(participants@ =~= self.participants@.subrange(0, k + 1));
            }
            k = k + 1;
        }
        proof {
            assert(self.participants@.subrange(0, self.participants@.len() as int)
                =~= self.participants@);
        }
        Metadata {
            signature: self.signature,
            address: self.address,
            public_inputs,
            winning_index: self.winning_index,
            eta: self.eta,
            proof,
            participants,
        }
    }
}

impl Default for Metadata {
    /// Placeholder metadata: a fresh random owner key, a dummy signature, no
    /// inputs, no participants, and the oracle response seeded from a fixed
    /// phrase.
    fn default() -> (r: Metadata)
        ensures
            r.signature.response.val() == 0,
            r.public_inputs@.len() == 0,
            r.winning_index == 0,
            r.participants@.len() == 0,
    {
        let secret = base_random();
        let public = PublicKey::from_secret(&secret);
        let address = Address::from_public(&public);
        let signature = Signature::dummy();
        let mut phrase: Vec<u8> = Vec::new();
        phrase.push(108);
        phrase.push(101);
        phrase.push(116);
        phrase.push(32);
        phrase.push(116);
        phrase.push(104);
        phrase.push(101);
        phrase.push(114);
        phrase.push(101);
        phrase.push(32);
        phrase.push(98);
        phrase.push(101);
        phrase.push(32);
        phrase.push(100);
        phrase.push(97);
        phrase.push(114);
        phrase.push(107);
        phrase.push(33);
        let eta = blake3_digest(&phrase);
        let proof = LeadProof {
            proof: Proof { circuit: crate::zk::CONSENSUS_ZKAS_LEAD_NS_V1, publics: Vec::new() },
        };
        Metadata {
            signature,
            address,
            public_inputs: Vec::new(),
            winning_index: 0,
            eta,
            proof,
            participants: Vec::new(),
        }
    }
}

} // verus!
