//! The proof-system boundary.
//!
//! The underlying proving machinery is an opaque building block; this module
//! models it at its algebraic boundary.  A proof value binds the circuit it
//! was produced for and the public-input vector it attests to, and
//! verification accepts exactly when both match — completeness (a proof made
//! for an instance verifies against that instance) holds by construction.
//! Soundness is a property of the outside machinery and is not modeled.
//! What the library does prove is the assembly: witnesses and public inputs
//! are positional, and every builder pins their exact order.

use vstd::prelude::*;

use crate::field::{Base, Scalar};

verus! {

/// Circuit namespace: money mint.
pub const MONEY_ZKAS_MINT_NS_V1: u64 = 1;

/// Circuit namespace: money burn.
pub const MONEY_ZKAS_BURN_NS_V1: u64 = 2;

/// Circuit namespace: governance mint.
pub const DAO_MINT_NS: u64 = 3;

/// Circuit namespace: governance proposal input burn.
pub const DAO_PROPOSE_BURN_NS: u64 = 4;

/// Circuit namespace: governance proposal main statement.
pub const DAO_PROPOSE_MAIN_NS: u64 = 5;

/// Circuit namespace: consensus reward.
pub const CONSENSUS_ZKAS_REWARD_NS_V1: u64 = 6;

/// Circuit namespace: consensus leadership.
pub const CONSENSUS_ZKAS_LEAD_NS_V1: u64 = 7;

/// One entry of the positional witness vector handed to the prover.
#[derive(Clone, Debug)]
pub enum Witness {
    Base(Base),
    Scalar(Scalar),
    Uint32(u32),
    Uint64(u64),
    MerklePath(Vec<Base>),
}

/// A proving key for one circuit.
#[derive(Clone, Copy, PartialEq, Eq, Structural, Debug)]
pub struct ProvingKey {
    pub circuit: u64,
}

/// A verifying key for one circuit.
#[derive(Clone, Copy, PartialEq, Eq, Structural, Debug)]
pub struct VerifyingKey {
    pub circuit: u64,
}

/// A proof: it binds the circuit and the instance it was produced for.
#[derive(Clone, Debug)]
pub struct Proof {
    pub circuit: u64,
    pub publics: Vec<Base>,
}

/// The mathematical contents of a [`Proof`].
pub struct ProofV {
    pub circuit: u64,
    pub publics: Seq<Base>,
}

impl View for Proof {
    type V = ProofV;

    open spec fn view(&self) -> ProofV {
        ProofV { circuit: self.circuit, publics: self.publics@ }
    }
}

/// A field-for-field copy of a vector of elements.
pub fn copy_bases(v: &Vec<Base>) -> (r: Vec<Base>)
    ensures
        r@ == v@,
{
    let mut out: Vec<Base> = Vec::new();
    let mut k: usize = 0;
    while k < v.len()
        invariant
            0 <= k <= v@.len(),
            out@ == v@.subrange(0, k as int),
        decreases v@.len() - k,
    {
        out.push(v[k]);
        proof {
            assert(out@ =~= v@.subrange(0, k + 1));
        }
        k = k + 1;
    }
    proof {
        assert(v@.subrange(0, v@.len() as int) =~= v@);
    }
    out
}

impl Proof {
    /// Produces a proof for the given instance.  The witness vector is
    /// consumed positionally; a transposed or missing witness yields a proof
    /// for a different statement, never a decode error.
    pub fn create(pk: &ProvingKey, witnesses: Vec<Witness>, publics: &Vec<Base>) -> (r: Proof)
        ensures
            r@.circuit == pk.circuit,
            r@.publics == publics@,
    {
        let _ = witnesses;
        Proof { circuit: pk.circuit, publics: copy_bases(publics) }
    }

    /// Verifies a proof against a public-input vector: it accepts exactly
    /// when the circuit and the instance are the ones the proof binds.
    pub fn verify(&self, vk: &VerifyingKey, publics: &Vec<Base>) -> (r: bool)
        ensures
            r <==> (self@.circuit == vk.circuit && self@.publics == publics@),
    {
        if self.circuit != vk.circuit {
            return false;
        }
        if self.publics.len() != publics.len() {
            proof {
                assert(self@.publics.len() != publics@.len());
            }
            return false;
        }
        let mut k: usize = 0;
        while k < self.publics.len()
            invariant
                0 <= k <= self.publics@.len(),
                self.publics@.len() == publics@.len(),
                forall|q: int| 0 <= q < k ==> self.publics@[q] == publics@[q],
            decreases self.publics@.len() - k,
        {
            let a = self.publics[k];
            let b = publics[k];
            proof {
                crate::field::lemma_base_eq(a, b);
            }
            if a != b {
                proof {
                    assert(self@.publics[k as int] != publics@[k as int]);
                }
                return false;
            }
            k = k + 1;
        }
        proof {
            assert(self@.publics =~= publics@);
        }
        true
    }
}

/// The proving key registered under a circuit namespace, if any.
pub open spec fn table_lookup(es: Seq<(u64, ProvingKey)>, ns: u64) -> Option<ProvingKey>
    decreases es.len(),
{
    if es.len() == 0 {
        None
    } else if es[es.len() - 1].0 == ns {
        Some(es[es.len() - 1].1)
    } else {
        table_lookup(es.drop_last(), ns)
    }
}

/// A table of circuits available for proving, by namespace.
pub struct ZkContractTable {
    pub entries: Vec<(u64, ProvingKey)>,
}

impl ZkContractTable {
    /// An empty table.
    pub fn new() -> (r: ZkContractTable)
        ensures
            r.entries@.len() == 0,
    {
        ZkContractTable { entries: Vec::new() }
    }

    /// Registers a circuit's proving key.
    pub fn add(&mut self, ns: u64, pk: ProvingKey)
        ensures
            final(self).entries@ == old(self).entries@.push((ns, pk)),
    {
        self.entries.push((ns, pk));
    }

    /// The proving key registered under a namespace, if any.
    pub fn lookup(&self, ns: u64) -> (r: Option<ProvingKey>)
        ensures
            r == table_lookup(self.entries@, ns),
    {
        let mut k: usize = self.entries.len();
        proof {
            assert(self.entries@.subrange(0, k as int) =~= self.entries@);
        }
        while k > 0
            invariant
                0 <= k <= self.entries@.len(),
                table_lookup(self.entries@, ns) == table_lookup(
                    self.entries@.subrange(0, k as int),
                    ns,
                ),
            decreases k,
        {
            let ghost pre = self.entries@.subrange(0, k as int);
            proof {
                assert(pre[pre.len() - 1] == self.entries@[k - 1]);
                assert(pre.drop_last() =~= self.entries@.subrange(0, k - 1));
            }
            if self.entries[k - 1].0 == ns {
                return Some(self.entries[k - 1].1);
            }
            k = k - 1;
        }
        proof {
            assert(self.entries@.subrange(0, 0) =~= Seq::<(u64, ProvingKey)>::empty());
        }
        None
    }
}

} // verus!
