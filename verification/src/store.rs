//! The ledger store: durable, namespaced, append-only state shared by all
//! contracts.
//!
//! Every write appends a row; a read takes the latest row for its key, so
//! the whole history stays in place and a batch of appends is atomic by
//! construction.  Per-contract tables, the nullifier set, the coin set and
//! the merkle-root history all live here, beside the block stores.

use vstd::prelude::*;

use crate::field::{blake3_of, blake3_digest, push_u64_le, u64_le, Base, Hash32};
use crate::merkle::{leaf_vals, root_of, tree_depth, MerkleTree};
use crate::metadata::{meta_matches, Metadata};
use crate::model::{calls_view, ContractCall, ContractCallV};
use crate::zk::Proof;

verus! {

/// One appended row of the namespaced key-value state.
#[derive(Debug)]
pub struct Row {
    pub cid: Base,
    pub table: Vec<u8>,
    pub key: Vec<u8>,
    pub value: Vec<u8>,
}

/// The mathematical contents of a [`Row`].
pub struct RowV {
    pub cid: Base,
    pub table: Seq<u8>,
    pub key: Seq<u8>,
    pub value: Seq<u8>,
}

impl View for Row {
    type V = RowV;

    open spec fn view(&self) -> RowV {
        RowV { cid: self.cid, table: self.table@, key: self.key@, value: self.value@ }
    }
}

/// The latest value written under `(cid, table, key)`, if any.
pub open spec fn lookup(rows: Seq<RowV>, cid: Base, table: Seq<u8>, key: Seq<u8>) -> Option<
    Seq<u8>,
>
    decreases rows.len(),
{
    if rows.len() == 0 {
        None
    } else {
        let last = rows[rows.len() - 1];
        if last.cid == cid && last.table == table && last.key == key {
            Some(last.value)
        } else {
            lookup(rows.drop_last(), cid, table, key)
        }
    }
}

/// Whether anything was ever written under `(cid, table, key)`.
pub open spec fn contains(rows: Seq<RowV>, cid: Base, table: Seq<u8>, key: Seq<u8>) -> bool {
    lookup(rows, cid, table, key) is Some
}

/// Appending one row changes only its own key.
pub proof fn lemma_lookup_push(rows: Seq<RowV>, row: RowV, cid: Base, table: Seq<u8>, key: Seq<u8>)
    ensures
        lookup(rows.push(row), cid, table, key) == if row.cid == cid && row.table == table
            && row.key == key {
            Some(row.value)
        } else {
            lookup(rows, cid, table, key)
        },
{
    let p = rows.push(row);
    assert(p[p.len() - 1] == row);
    assert(p.drop_last() =~= rows);
}

/// A key once present stays present under any later appends.
pub proof fn lemma_contains_append(rows: Seq<RowV>, added: Seq<RowV>, cid: Base, table: Seq<u8>, key: Seq<u8>)
    requires
        contains(rows, cid, table, key),
    ensures
        contains(rows + added, cid, table, key),
    decreases added.len(),
{
    if added.len() == 0 {
        assert(rows + added =~= rows);
    } else {
        let butlast = added.drop_last();
        lemma_contains_append(rows, butlast, cid, table, key);
        assert((rows + added).drop_last() =~= rows + butlast);
        assert((rows + added)[(rows + added).len() - 1] == added[added.len() - 1]);
    }
}

/// One merkle tree of the store, owned by a contract under a name.
pub struct TreeSlot {
    pub cid: Base,
    pub name: Vec<u8>,
    pub tree: MerkleTree,
}

/// The mathematical contents of a [`TreeSlot`].
pub struct TreeSlotV {
    pub cid: Base,
    pub name: Seq<u8>,
    pub leaves: Seq<Base>,
}

impl View for TreeSlot {
    type V = TreeSlotV;

    open spec fn view(&self) -> TreeSlotV {
        TreeSlotV { cid: self.cid, name: self.name@, leaves: self.tree@ }
    }
}

/// The views of the tree slots.
pub open spec fn trees_view(ts: Seq<TreeSlot>) -> Seq<TreeSlotV> {
    ts.map_values(|t: TreeSlot| t@)
}

/// The leaves of the latest tree slot under `(cid, name)`, if any.
pub open spec fn tree_lookup(ts: Seq<TreeSlotV>, cid: Base, name: Seq<u8>) -> Option<Seq<Base>>
    decreases ts.len(),
{
    if ts.len() == 0 {
        None
    } else {
        let last = ts[ts.len() - 1];
        if last.cid == cid && last.name == name {
            Some(last.leaves)
        } else {
            tree_lookup(ts.drop_last(), cid, name)
        }
    }
}

/// The leaves a contract's tree had, or none if the tree does not exist yet.
pub open spec fn old_leaves_of(ts: Seq<TreeSlotV>, cid: Base, name: Seq<u8>) -> Seq<Base> {
    match tree_lookup(ts, cid, name) {
        Some(l) => l,
        None => Seq::empty(),
    }
}

/// Compares two byte vectors.
pub fn bytes_eq(a: &Vec<u8>, b: &Vec<u8>) -> (r: bool)
    ensures
        r <==> a@ == b@,
{
    if a.len() != b.len() {
        return false;
    }
    let mut k: usize = 0;
    while k < a.len()
        invariant
            0 <= k <= a@.len(),
            a@.len() == b@.len(),
            forall|q: int| 0 <= q < k ==> a@[q] == b@[q],
        decreases a@.len() - k,
    {
        if a[k] != b[k] {
            return false;
        }
        k = k + 1;
    }
    proof {
        assert(a@ =~= b@);
    }
    true
}

/// A field-for-field copy of a byte vector.
pub fn copy_bytes(v: &Vec<u8>) -> (r: Vec<u8>)
    ensures
        r@ == v@,
{
    let mut out: Vec<u8> = Vec::new();
    let mut k: usize = 0;
    while k < v.len()
        invariant
            0 <= k <= v@.len(),
            out@ == v@.subrange(0, k as int),
        decreases v@.len() - k,
    {
        out.push(v[k]);
        proof {
            assert(out@ =~= v@.subrange(0, k + 1));
        }
        k = k + 1;
    }
    proof {
        assert(v@.subrange(0, v@.len() as int) =~= v@);
    }
    out
}

/// The per-contract state: namespaced key-value tables and merkle trees.
pub struct ContractStore {
    rows: Vec<Row>,
    trees: Vec<TreeSlot>,
}

impl ContractStore {
    /// The views of the rows.
    pub closed spec fn rows_v(self) -> Seq<RowV> {
        self.rows@.map_values(|r: Row| r@)
    }

    /// The views of the tree slots.
    pub closed spec fn trees_v(self) -> Seq<TreeSlotV> {
        trees_view(self.trees@)
    }

    /// Every tree is well-formed.
    pub closed spec fn wf(self) -> bool {
        forall|q: int| 0 <= q < self.trees@.len() ==> (#[trigger] self.trees@[q]).tree.wf()
    }

    /// An empty store.
    pub fn new() -> (r: ContractStore)
        ensures
            r.rows_v() == Seq::<RowV>::empty(),
            r.trees_v() == Seq::<TreeSlotV>::empty(),
            r.wf(),
    {
        let r = ContractStore { rows: Vec::new(), trees: Vec::new() };
        proof {
            assert(r.rows_v() =~= Seq::<RowV>::empty());
            assert(r.trees_v() =~= Seq::<TreeSlotV>::empty());
        }
        r
    }

    /// Whether a key was ever written in a contract's table.
    pub fn contains_key(&self, cid: &Base, table: &Vec<u8>, key: &Vec<u8>) -> (r: bool)
        ensures
            r == contains(self.rows_v(), *cid, table@, key@),
    {
        let mut k: usize = self.rows.len();
        proof {
            assert(self.rows_v().subrange(0, k as int) =~= self.rows_v());
        }
        while k > 0
            invariant
                0 <= k <= self.rows@.len(),
                self.rows_v().len() == self.rows@.len(),
                contains(self.rows_v(), *cid, table@, key@) == contains(
                    self.rows_v().subrange(0, k as int),
                    *cid,
                    table@,
                    key@,
                ),
            decreases k,
        {
            let row = &self.rows[k - 1];
            let ghost pre = self.rows_v().subrange(0, k as int);
            proof {
                assert(pre[pre.len() - 1] == self.rows_v()[k - 1]);
                assert(pre.drop_last() =~= self.rows_v().subrange(0, k - 1));
            }
            proof {
                crate::field::lemma_base_eq(row.cid, *cid);
            }
            if row.cid == *cid && bytes_eq(&row.table, table) && bytes_eq(&row.key, key) {
                return true;
            }
            k = k - 1;
        }
        proof {
            assert(self.rows_v().subrange(0, 0) =~= Seq::<RowV>::empty());
        }
        false
    }

    /// The latest value written under a key, if any.
    pub fn get(&self, cid: &Base, table: &Vec<u8>, key: &Vec<u8>) -> (r: Option<Vec<u8>>)
        ensures
            r is Some <==> contains(self.rows_v(), *cid, table@, key@),
            r is Some ==> Some(r->0@) == lookup(self.rows_v(), *cid, table@, key@),
    {
        let mut k: usize = self.rows.len();
        proof {
            assert(self.rows_v().subrange(0, k as int) =~= self.rows_v());
        }
        while k > 0
            invariant
                0 <= k <= self.rows@.len(),
                self.rows_v().len() == self.rows@.len(),
                lookup(self.rows_v(), *cid, table@, key@) == lookup(
                    self.rows_v().subrange(0, k as int),
                    *cid,
                    table@,
                    key@,
                ),
            decreases k,
        {
            let row = &self.rows[k - 1];
            let ghost pre = self.rows_v().subrange(0, k as int);
            proof {
                assert(pre[pre.len() - 1] == self.rows_v()[k - 1]);
                assert(pre.drop_last() =~= self.rows_v().subrange(0, k - 1));
            }
            proof {
                crate::field::lemma_base_eq(row.cid, *cid);
            }
            if row.cid == *cid && bytes_eq(&row.table, table) && bytes_eq(&row.key, key) {
                return Some(copy_bytes(&row.value));
            }
            k = k - 1;
        }
        proof {
            assert(self.rows_v().subrange(0, 0) =~= Seq::<RowV>::empty());
        }
        None
    }

    /// Appends a write.  Earlier rows stay in place; reads see the latest.
    pub fn set(&mut self, cid: &Base, table: &Vec<u8>, key: &Vec<u8>, value: &Vec<u8>)
        requires
            old(self).wf(),
        ensures
            final(self).rows_v() == old(self).rows_v().push(
                RowV { cid: *cid, table: table@, key: key@, value: value@ },
            ),
            final(self).trees_v() == old(self).trees_v(),
            final(self).wf(),
    {
        let row = Row {
            cid: *cid,
            table: copy_bytes(table),
            key: copy_bytes(key),
            value: copy_bytes(value),
        };
        self.rows.push(row);
        proof {
            assert(self.rows_v() =~= old(self).rows_v().push(
                RowV { cid: *cid, table: table@, key: key@, value: value@ },
            ));
        }
    }

    /// Appends leaves to a contract's tree (creating it on first use) and
    /// records each intermediate root in the contract's root-history table.
    /// Fails only when the tree would overflow its fixed depth; on failure
    /// nothing changes.
    pub fn merkle_append(
        &mut self,
        cid: &Base,
        tree_name: &Vec<u8>,
        roots_table: &Vec<u8>,
        leaves: &Vec<Base>,
    ) -> (r: Result<(), crate::model::ContractError>)
        requires
            old(self).wf(),
            forall|q: int| 0 <= q < leaves@.len() ==> (#[trigger] leaves@[q]).wf(),
        ensures
            final(self).wf(),
            r is Ok <==> old_leaves_of(old(self).trees_v(), *cid, tree_name@).len() + leaves@.len()
                <= vstd::arithmetic::power2::pow2(tree_depth()),
            r is Ok ==> final(self).trees_v() == old(self).trees_v().push(
                TreeSlotV {
                    cid: *cid,
                    name: tree_name@,
                    leaves: old_leaves_of(old(self).trees_v(), *cid, tree_name@) + leaves@,
                },
            ),
            r is Ok ==> forall|c: Base, t: Seq<u8>, k: Seq<u8>|
                contains(old(self).rows_v(), c, t, k) ==> #[trigger] contains(
                    final(self).rows_v(),
                    c,
                    t,
                    k,
                ),
            r is Ok ==> forall|c: Base, t: Seq<u8>, k: Seq<u8>|
                #[trigger] contains(final(self).rows_v(), c, t, k) ==> contains(
                    old(self).rows_v(),
                    c,
                    t,
                    k,
                ) || (c == *cid && t == roots_table@),
            r is Ok ==> exists|b: Base|
                (#[trigger] b.val()) == root_of(
                    leaf_vals(old_leaves_of(old(self).trees_v(), *cid, tree_name@) + leaves@),
                ) && contains(final(self).rows_v(), *cid, roots_table@, b.enc()),
            r is Err ==> final(self).rows_v() == old(self).rows_v() && final(self).trees_v() == old(
                self,
            ).trees_v(),
    {
        let mut tree: MerkleTree = MerkleTree::new();
        let mut found = false;
        let mut k: usize = self.trees.len();
        proof {
            assert(self.trees_v().subrange(0, k as int) =~= self.trees_v());
        }
        while k > 0 && !found
            invariant
                0 <= k <= self.trees@.len(),
                self.trees_v().len() == self.trees@.len(),
                self.wf(),
                tree.wf(),
                !found ==> tree@ == Seq::<Base>::empty(),
                !found ==> tree_lookup(self.trees_v(), *cid, tree_name@) == tree_lookup(
                    self.trees_v().subrange(0, k as int),
                    *cid,
                    tree_name@,
                ),
                found ==> tree_lookup(self.trees_v(), *cid, tree_name@) == Some(tree@),
            decreases k + if found { 0int } else { 1int },
        {
            let slot = &self.trees[k - 1];
            let ghost pre = self.trees_v().subrange(0, k as int);
            proof {
                assert(pre[pre.len() - 1] == self.trees_v()[k - 1]);
                assert(pre.drop_last() =~= self.trees_v().subrange(0, k - 1));
                crate::field::lemma_base_eq(slot.cid, *cid);
            }
            if slot.cid == *cid && bytes_eq(&slot.name, tree_name) {
                tree = slot.tree.duplicate();
                found = true;
            } else {
                k = k - 1;
            }
        }
        proof {
            if !found {
                assert(self.trees_v().subrange(0, 0) =~= Seq::<TreeSlotV>::empty());
                assert(tree_lookup(self.trees_v(), *cid, tree_name@) is None);
                assert(old_leaves_of(self.trees_v(), *cid, tree_name@) =~= tree@);
            } else {
                assert(old_leaves_of(self.trees_v(), *cid, tree_name@) == tree@);
            }
            vstd::arithmetic::power2::lemma2_to64();
        }
        if leaves.len() as u64 > 4294967296u64 || tree.len() as u64 > 4294967296u64 - (
        leaves.len() as u64) {
            proof {
                assert(tree@.len() + leaves@.len() > vstd::arithmetic::power2::pow2(tree_depth()));
            }
            return Err(crate::model::ContractError::Money(
                crate::model::MoneyError::DuplicateCoin,
            ));
        }
        let ghost old_leaves = tree@;
        let ghost rows0 = self.rows_v();
        let mut j: usize = 0;
        let empty: Vec<u8> = Vec::new();
        while j < leaves.len()
            invariant
                0 <= j <= leaves@.len(),
                forall|q: int| 0 <= q < leaves@.len() ==> (#[trigger] leaves@[q]).wf(),
                tree@ == old_leaves + leaves@.subrange(0, j as int),
                old_leaves.len() + leaves@.len() <= vstd::arithmetic::power2::pow2(tree_depth()),
                tree.wf(),
                self.wf(),
                self.trees_v() == old(self).trees_v(),
                forall|c: Base, t: Seq<u8>, k2: Seq<u8>|
                    contains(rows0, c, t, k2) ==> #[trigger] contains(self.rows_v(), c, t, k2),
                forall|c: Base, t: Seq<u8>, k2: Seq<u8>|
                    #[trigger] contains(self.rows_v(), c, t, k2) ==> contains(rows0, c, t, k2) || (
                    c == *cid && t == roots_table@),
                j > 0 ==> exists|b: Base|
                    (#[trigger] b.val()) == root_of(leaf_vals(tree@)) && contains(
                        self.rows_v(),
                        *cid,
                        roots_table@,
                        b.enc(),
                    ),
            decreases leaves@.len() - j,
        {
            let leaf = leaves[j];
            tree.append(&leaf);
            proof {
                assert(tree@ =~= old_leaves + leaves@.subrange(0, j + 1));
            }
            let root = tree.root();
            let mut key: Vec<u8> = Vec::new();
            root.encode(&mut key);
            let ghost rows_before = self.rows_v();
            self.set(cid, roots_table, &key, &empty);
            proof {
                let row = RowV { cid: *cid, table: roots_table@, key: key@, value: empty@ };
                assert forall|c: Base, t: Seq<u8>, k2: Seq<u8>|
                    contains(rows_before, c, t, k2) implies #[trigger] contains(
                    self.rows_v(),
                    c,
                    t,
                    k2,
                ) by {
                    lemma_lookup_push(rows_before, row, c, t, k2);
                }
                assert forall|c: Base, t: Seq<u8>, k2: Seq<u8>| #[trigger] contains(
                    self.rows_v(),
                    c,
                    t,
                    k2,
                ) implies contains(rows_before, c, t, k2) || (c == *cid && t
                    == roots_table@) by {
                    lemma_lookup_push(rows_before, row, c, t, k2);
                }
                lemma_lookup_push(rows_before, row, *cid, roots_table@, key@);
                assert(root.val() == root_of(leaf_vals(tree@)) && contains(
                    self.rows_v(),
                    *cid,
                    roots_table@,
                    root.enc(),
                ));
            }
            j = j + 1;
        }
        proof {
            assert(leaves@.subrange(0, leaves@.len() as int) =~= leaves@);
        }
        if leaves.len() == 0 {
            let root = tree.root();
            let mut key: Vec<u8> = Vec::new();
            root.encode(&mut key);
            let ghost rows_before = self.rows_v();
            self.set(cid, roots_table, &key, &empty);
            proof {
                let row = RowV { cid: *cid, table: roots_table@, key: key@, value: empty@ };
                assert forall|c: Base, t: Seq<u8>, k2: Seq<u8>|
                    contains(rows_before, c, t, k2) implies #[trigger] contains(
                    self.rows_v(),
                    c,
                    t,
                    k2,
                ) by {
                    lemma_lookup_push(rows_before, row, c, t, k2);
                }
                assert forall|c: Base, t: Seq<u8>, k2: Seq<u8>| #[trigger] contains(
                    self.rows_v(),
                    c,
                    t,
                    k2,
                ) implies contains(rows_before, c, t, k2) || (c == *cid && t
                    == roots_table@) by {
                    lemma_lookup_push(rows_before, row, c, t, k2);
                }
                lemma_lookup_push(rows_before, row, *cid, roots_table@, key@);
            }
        }
        let slot = TreeSlot { cid: *cid, name: copy_bytes(tree_name), tree };
        let ghost slot_v = slot@;
        self.trees.push(slot);
        proof {
            assert(self.trees_v() =~= old(self).trees_v().push(slot_v));
        }
        Ok(())
    }

    /// The leaves of a contract's tree, if the tree exists.
    pub fn tree_leaves_len(&self, cid: &Base, name: &Vec<u8>) -> (r: Option<usize>)
        ensures
            r is Some <==> tree_lookup(self.trees_v(), *cid, name@) is Some,
            r is Some ==> Some(r->0 as nat) == Some(
                tree_lookup(self.trees_v(), *cid, name@)->0.len(),
            ),
    {
        let mut k: usize = self.trees.len();
        proof {
            assert(self.trees_v().subrange(0, k as int) =~= self.trees_v());
        }
        while k > 0
            invariant
                0 <= k <= self.trees@.len(),
                self.trees_v().len() == self.trees@.len(),
                tree_lookup(self.trees_v(), *cid, name@) == tree_lookup(
                    self.trees_v().subrange(0, k as int),
                    *cid,
                    name@,
                ),
            decreases k,
        {
            let slot = &self.trees[k - 1];
            let ghost pre = self.trees_v().subrange(0, k as int);
            proof {
                assert(pre[pre.len() - 1] == self.trees_v()[k - 1]);
                assert(pre.drop_last() =~= self.trees_v().subrange(0, k - 1));
                crate::field::lemma_base_eq(slot.cid, *cid);
            }
            if slot.cid == *cid && bytes_eq(&slot.name, name) {
                return Some(slot.tree.len());
            }
            k = k - 1;
        }
        proof {
            assert(self.trees_v().subrange(0, 0) =~= Seq::<TreeSlotV>::empty());
        }
        None
    }
}

// ---------------------------------------------------------------------------
// Blocks and the block stores.
// ---------------------------------------------------------------------------

/// Errors of the block stores.
#[derive(Clone, Copy, PartialEq, Eq, Structural, Debug)]
pub enum StoreError {
    /// A requested block is not known.
    BlockNotFound,
    /// A requested transaction is not known.
    TransactionNotFound,
    /// The chain holds no blocks yet.
    EmptyChain,
}

/// A block header.
#[derive(Clone, Copy, PartialEq, Eq, Structural, Debug)]
pub struct Header {
    /// The slot this block was proposed for.
    pub slot: u64,
    /// Proposal time.
    pub timestamp: u64,
    /// The previous block's hash.
    pub previous: Hash32,
}

impl Header {
    /// The encoding the header hash commits to.
    pub open spec fn enc(self) -> Seq<u8> {
        u64_le(self.slot) + u64_le(self.timestamp) + self.previous.enc()
    }

    /// The header-hash value.
    pub open spec fn hash_val(self) -> nat {
        blake3_of(self.enc())
    }

    /// The block-hash digest of this header.
    pub fn headerhash(&self) -> (r: Hash32)
        ensures
            r.val() == self.hash_val(),
    {
        let mut bytes: Vec<u8> = Vec::new();
        push_u64_le(&mut bytes, self.slot);
        push_u64_le(&mut bytes, self.timestamp);
        self.previous.encode(&mut bytes);
        proof {
            assert(bytes@ =~= self.enc());
        }
        blake3_digest(&bytes)
    }
}

/// An ordered list of contract calls with one proof bundle and one signature
/// bundle per call.
#[derive(Debug)]
pub struct Transaction {
    pub calls: Vec<ContractCall>,
    pub proofs: Vec<Vec<Proof>>,
    pub signatures: Vec<Vec<crate::metadata::Signature>>,
}

/// The encoding of a call list, call by call.
pub open spec fn enc_calls(cs: Seq<ContractCallV>, i: int) -> Seq<u8>
    decreases cs.len() - i,
{
    if i < 0 || i >= cs.len() {
        Seq::empty()
    } else {
        cs[i].contract_id.enc() + seq![cs[i].func] + u64_le(cs[i].params.len() as u64) + cs[i].params
            + enc_calls(cs, i + 1)
    }
}

proof fn lemma_enc_calls_snoc(cs: Seq<ContractCallV>, k: int)
    requires
        0 <= k < cs.len(),
    ensures
        enc_calls(cs.subrange(0, k + 1), 0) == enc_calls(cs.subrange(0, k), 0) + (
        cs[k].contract_id.enc() + seq![cs[k].func] + u64_le(cs[k].params.len() as u64)
            + cs[k].params),
    decreases k,
{
    let a = cs.subrange(0, k + 1);
    let b = cs.subrange(0, k);
    let piece = cs[k].contract_id.enc() + seq![cs[k].func] + u64_le(cs[k].params.len() as u64)
        + cs[k].params;
    if k == 0 {
        assert(enc_calls(a, 1) =~= Seq::<u8>::empty());
        assert(enc_calls(b, 0) =~= Seq::<u8>::empty());
        assert(enc_calls(a, 0) =~= enc_calls(b, 0) + piece);
    } else {
        let at = a.subrange(1, a.len() as int);
        let bt = b.subrange(1, b.len() as int);
        let cst = cs.subrange(1, cs.len() as int);
        assert(at =~= cst.subrange(0, k));
        assert(bt =~= cst.subrange(0, k - 1));
        lemma_enc_calls_snoc(cst, k - 1);
        lemma_enc_calls_shift(a);
        lemma_enc_calls_shift(b);
        assert(cst[k - 1] == cs[k]);
        assert(enc_calls(a, 0) =~= enc_calls(b, 0) + piece);
    }
}

proof fn lemma_enc_calls_shift(cs: Seq<ContractCallV>)
    requires
        cs.len() > 0,
    ensures
        enc_calls(cs, 0) == (cs[0].contract_id.enc() + seq![cs[0].func] + u64_le(
            cs[0].params.len() as u64,
        ) + cs[0].params) + enc_calls(cs.subrange(1, cs.len() as int), 0),
    decreases cs.len(),
{
    let t = cs.subrange(1, cs.len() as int);
    lemma_enc_calls_shift_gen(cs, t, 1);
    assert(enc_calls(cs, 0) =~= (cs[0].contract_id.enc() + seq![cs[0].func] + u64_le(
        cs[0].params.len() as u64,
    ) + cs[0].params) + enc_calls(t, 0));
}

proof fn lemma_enc_calls_shift_gen(cs: Seq<ContractCallV>, t: Seq<ContractCallV>, i: int)
    requires
        1 <= i <= cs.len(),
        t == cs.subrange(1, cs.len() as int),
    ensures
        enc_calls(cs, i) == enc_calls(t, i - 1),
    decreases cs.len() - i,
{
    if i < cs.len() {
        lemma_enc_calls_shift_gen(cs, t, i + 1);
        assert(t[i - 1] == cs[i]);
    }
}

/// The transaction-hash value: the digest of the ordered call list.  Proof
/// and signature bundles are witness data and do not enter the identity.
pub open spec fn tx_hash_of(cs: Seq<ContractCallV>) -> nat {
    blake3_of(u64_le(cs.len() as u64) + enc_calls(cs, 0))
}

impl Transaction {
    /// The transaction hash.
    pub fn hash(&self) -> (r: Hash32)
        ensures
            r.val() == tx_hash_of(calls_view(self.calls@)),
    {
        let ghost cs = calls_view(self.calls@);
        let mut bytes: Vec<u8> = Vec::new();
        push_u64_le(&mut bytes, self.calls.len() as u64);
        let ghost head = bytes@;
        let mut k: usize = 0;
        while k < self.calls.len()
            invariant
                0 <= k <= self.calls@.len(),
                cs == calls_view(self.calls@),
                cs.len() == self.calls@.len(),
                bytes@ == head + enc_calls(cs.subrange(0, k as int), 0),
            decreases self.calls@.len() - k,
        {
            let call = &self.calls[k];
            call.contract_id.encode(&mut bytes);
            bytes.push(call.func);
            push_u64_le(&mut bytes, call.params.len() as u64);
            let ghost before_params = bytes@;
            let mut j: usize = 0;
            while j < call.params.len()
                invariant
                    0 <= j <= call.params@.len(),
                    bytes@ == before_params + call.params@.subrange(0, j as int),
                decreases call.params@.len() - j,
            {
                bytes.push(call.params[j]);
                proof {
                    assert(bytes@ =~= before_params + call.params@.subrange(0, j + 1));
                }
                j = j + 1;
            }
            proof {
                assert(call.params@.subrange(0, call.params@.len() as int) =~= call.params@);
                assert(cs[k as int] == self.calls@[k as int]@);
                lemma_enc_calls_snoc(cs, k as int);
                assert(bytes@ =~= head + enc_calls(cs.subrange(0, k + 1), 0));
            }
            k = k + 1;
        }
        proof {
            assert(cs.subrange(0, cs.len() as int) =~= cs);
            assert(bytes@ =~= u64_le(self.calls@.len() as u64) + enc_calls(cs, 0));
        }
        blake3_digest(&bytes)
    }

    /// A copy of the whole transaction: the calls, the proof bundles and
    /// the signature bundles, by contents.
    pub fn clone_tx(&self) -> (r: Transaction)
        ensures
            tx_matches(r, *self),
    {
        let mut calls: Vec<ContractCall> = Vec::new();
        let mut k: usize = 0;
        while k < self.calls.len()
            invariant
                0 <= k <= self.calls@.len(),
                calls@.len() == k,
                forall|q: int| 0 <= q < k ==> (#[trigger] calls@[q])@ == self.calls@[q]@,
            decreases self.calls@.len() - k,
        {
            let c = &self.calls[k];
            calls.push(
                ContractCall {
                    contract_id: c.contract_id,
                    func: c.func,
                    params: copy_bytes(&c.params),
                },
            );
            k = k + 1;
        }
        let mut proofs: Vec<Vec<Proof>> = Vec::new();
        let mut k: usize = 0;
        while k < self.proofs.len()
            invariant
                0 <= k <= self.proofs@.len(),
                proofs@.len() == k,
                forall|q: int|
                    0 <= q < k ==> proofs_view((#[trigger] proofs@[q])@) == proofs_view(
                        self.proofs@[q]@,
                    ),
            decreases self.proofs@.len() - k,
        {
            let bundle = &self.proofs[k];
            let mut copy: Vec<Proof> = Vec::new();
            let mut j: usize = 0;
            while j < bundle.len()
                invariant
                    0 <= j <= bundle@.len(),
                    copy@.len() == j,
                    forall|q: int| 0 <= q < j ==> (#[trigger] copy@[q])@ == bundle@[q]@,
                decreases bundle@.len() - j,
            {
                let p = &bundle[j];
                copy.push(Proof { circuit: p.circuit, publics: crate::zk::copy_bases(&p.publics) });
                j = j + 1;
            }
            proof {
                assert(proofs_view(copy@) =~= proofs_view(bundle@));
            }
            proofs.push(copy);
            k = k + 1;
        }
        let mut signatures: Vec<Vec<crate::metadata::Signature>> = Vec::new();
        let mut k: usize = 0;
        while k < self.signatures.len()
            invariant
                0 <= k <= self.signatures@.len(),
                signatures@.len() == k,
                forall|q: int|
                    0 <= q < k ==> (#[trigger] signatures@[q])@ == self.signatures@[q]@,
            decreases self.signatures@.len() - k,
        {
            let bundle = &self.signatures[k];
            let mut copy: Vec<crate::metadata::Signature> = Vec::new();
            let mut j: usize = 0;
            while j < bundle.len()
                invariant
                    0 <= j <= bundle@.len(),
                    copy@ == bundle@.subrange(0, j as int),
                decreases bundle@.len() - j,
            {
                copy.push(bundle[j]);
                proof {
                    assert(copy@ =~= bundle@.subrange(0, j + 1));
                }
                j = j + 1;
            }
            proof {
                assert(bundle@.subrange(0, bundle@.len() as int) =~= bundle@);
            }
            signatures.push(copy);
            k = k + 1;
        }
        proof {
            assert(calls_view(calls@) =~= calls_view(self.calls@));
        }
        Transaction { calls, proofs, signatures }
    }
}

/// The views of a proof bundle.
pub open spec fn proofs_view(s: Seq<Proof>) -> Seq<crate::zk::ProofV> {
    s.map_values(|p: Proof| p@)
}

/// Whether two transactions agree: same ordered calls, same proof bundles
/// and same signature bundles, by contents.
pub open spec fn tx_matches(a: Transaction, b: Transaction) -> bool {
    &&& calls_view(a.calls@) == calls_view(b.calls@)
    &&& a.proofs@.len() == b.proofs@.len()
    &&& forall|i: int|
        0 <= i < a.proofs@.len() ==> proofs_view((#[trigger] a.proofs@[i])@) == proofs_view(
            b.proofs@[i]@,
        )
    &&& a.signatures@.len() == b.signatures@.len()
    &&& forall|i: int|
        0 <= i < a.signatures@.len() ==> (#[trigger] a.signatures@[i])@ == b.signatures@[i]@
}

/// The latest entry under a hash key, if any.
pub open spec fn hash_index<T>(s: Seq<(Hash32, T)>, key: Hash32) -> Option<int>
    decreases s.len(),
{
    if s.len() == 0 {
        None
    } else if s[s.len() - 1].0 == key {
        Some(s.len() - 1)
    } else {
        hash_index(s.drop_last(), key)
    }
}

/// The latest entry under a slot key, if any.
pub open spec fn slot_index<T>(s: Seq<(u64, T)>, key: u64) -> Option<int>
    decreases s.len(),
{
    if s.len() == 0 {
        None
    } else if s[s.len() - 1].0 == key {
        Some(s.len() - 1)
    } else {
        slot_index(s.drop_last(), key)
    }
}

/// Finds the latest entry under a hash key.
fn find_by_hash<T>(s: &Vec<(Hash32, T)>, key: &Hash32) -> (r: Option<usize>)
    ensures
        r is Some <==> hash_index(s@, *key) is Some,
        r is Some ==> Some(r->0 as int) == hash_index(s@, *key) && r->0 < s@.len(),
{
    let mut k: usize = s.len();
    proof {
        assert(s@.subrange(0, k as int) =~= s@);
    }
    while k > 0
        invariant
            0 <= k <= s@.len(),
            hash_index(s@, *key) == hash_index(s@.subrange(0, k as int), *key),
        decreases k,
    {
        let ghost pre = s@.subrange(0, k as int);
        proof {
            assert(pre[pre.len() - 1] == s@[k - 1]);
            assert(pre.drop_last() =~= s@.subrange(0, k - 1));
            crate::field::lemma_hash32_eq(s@[k - 1].0, *key);
        }
        if s[k - 1].0 == *key {
            return Some(k - 1);
        }
        k = k - 1;
    }
    proof {
        assert(s@.subrange(0, 0) =~= Seq::<(Hash32, T)>::empty());
    }
    None
}

/// The index bound of a positive hash lookup.
proof fn lemma_hash_index_bound<T>(s: Seq<(Hash32, T)>, key: Hash32)
    ensures
        hash_index(s, key) matches Some(j) ==> 0 <= j < s.len() && s[j].0 == key,
    decreases s.len(),
{
    if s.len() > 0 && s[s.len() - 1].0 != key {
        lemma_hash_index_bound(s.drop_last(), key);
        let r = hash_index(s.drop_last(), key);
        if r is Some {
            let j = r->0;
            assert(s.drop_last()[j] == s[j]);
        }
    }
}

/// A slot key that occurs in the sequence is found.
proof fn lemma_slot_index_exists<T>(s: Seq<(u64, T)>, key: u64, w: int)
    requires
        0 <= w < s.len(),
        s[w].0 == key,
    ensures
        slot_index(s, key) is Some,
    decreases s.len(),
{
    if s.len() > 0 && s[s.len() - 1].0 != key {
        assert(w < s.len() - 1);
        assert(s.drop_last()[w] == s[w]);
        lemma_slot_index_exists(s.drop_last(), key, w);
    }
}

/// The index bound of a positive slot lookup.
proof fn lemma_slot_index_bound<T>(s: Seq<(u64, T)>, key: u64)
    ensures
        slot_index(s, key) matches Some(j) ==> 0 <= j < s.len() && s[j].0 == key,
    decreases s.len(),
{
    if s.len() > 0 && s[s.len() - 1].0 != key {
        lemma_slot_index_bound(s.drop_last(), key);
        let r = slot_index(s.drop_last(), key);
        if r is Some {
            let j = r->0;
            assert(s.drop_last()[j] == s[j]);
        }
    }
}

/// The body of a stored block: its header hash, the hashes of its
/// transactions, and the consensus metadata.
#[derive(Debug)]
pub struct Block {
    pub header: Hash32,
    pub txs: Vec<Hash32>,
    pub metadata: Metadata,
}

/// A block together with its full transactions, as it travels between nodes.
#[derive(Debug)]
pub struct BlockInfo {
    pub header: Header,
    pub txs: Vec<Transaction>,
    pub metadata: Metadata,
}

/// The structure holding all stores that define the concept of a blockchain.
pub struct Blockchain {
    /// Headers store.
    pub headers: Vec<(Hash32, Header)>,
    /// Blocks store.
    pub blocks: Vec<(Hash32, Block)>,
    /// Block-order store: slot to block hash.
    pub order: Vec<(u64, Hash32)>,
    /// Transactions store.
    pub transactions: Vec<(Hash32, Transaction)>,
    /// Contract states.
    pub contracts: ContractStore,
}

/// The hashes the ordering resolves for a slot list from index `i` on, in
/// order; slots with no ordered block contribute nothing.
pub open spec fn resolved_hashes(order: Seq<(u64, Hash32)>, slots: Seq<u64>, i: int) -> Seq<Hash32>
    decreases slots.len() - i,
{
    if i < 0 || i >= slots.len() {
        Seq::empty()
    } else {
        let rest = resolved_hashes(order, slots, i + 1);
        match slot_index(order, slots[i]) {
            Some(j) => seq![order[j].1] + rest,
            None => rest,
        }
    }
}

/// The first `left` ordered hashes, scanning the ordering from index `i`,
/// whose slots lie strictly after `slot`.
pub open spec fn after_hashes(order: Seq<(u64, Hash32)>, slot: u64, left: nat, i: int) -> Seq<
    Hash32,
>
    decreases order.len() - i,
{
    if i < 0 || i >= order.len() || left == 0 {
        Seq::empty()
    } else if order[i].0 > slot {
        seq![order[i].1] + after_hashes(order, slot, (left - 1) as nat, i + 1)
    } else {
        after_hashes(order, slot, left, i + 1)
    }
}

/// A header is on record: some entry holds it under its own hash.
pub open spec fn header_stored(headers: Seq<(Hash32, Header)>, hdr: Header) -> bool {
    exists|j: int|
        0 <= j < headers.len() && (#[trigger] headers[j]).1 == hdr && headers[j].0.val()
            == hdr.hash_val()
}

/// A transaction is on record under its own hash, by contents.
pub open spec fn tx_stored(txs: Seq<(Hash32, Transaction)>, tx: Transaction) -> bool {
    exists|j: int|
        0 <= j < txs.len() && tx_matches((#[trigger] txs[j]).1, tx) && txs[j].0.val()
            == tx_hash_of(calls_view(tx.calls@))
}

/// A block body is on record under the header's hash: it names the header,
/// the hash of every transaction, and the metadata.
pub open spec fn body_stored(bodies: Seq<(Hash32, Block)>, b: BlockInfo) -> bool {
    exists|j: int|
        0 <= j < bodies.len() && {
            let e = #[trigger] bodies[j];
            &&& e.0.val() == b.header.hash_val()
            &&& e.1.header.val() == b.header.hash_val()
            &&& e.1.txs@.len() == b.txs@.len()
            &&& (forall|t: int|
                0 <= t < b.txs@.len() ==> (#[trigger] e.1.txs@[t]).val() == tx_hash_of(
                    calls_view(b.txs@[t].calls@),
                ))
            &&& meta_matches(e.1.metadata, b.metadata)
        }
}

/// The ordering binds a slot to a block hash somewhere.
pub open spec fn slot_bound(order: Seq<(u64, Hash32)>, slot: u64, hval: nat) -> bool {
    exists|j: int|
        0 <= j < order.len() && (#[trigger] order[j]).0 == slot && order[j].1.val() == hval
}

/// A stored header stays stored when the store grows.
proof fn lemma_header_stored_prefix(pre: Seq<(Hash32, Header)>, post: Seq<(Hash32, Header)>, hdr: Header)
    requires
        header_stored(pre, hdr),
        pre.is_prefix_of(post),
    ensures
        header_stored(post, hdr),
{
    let j = choose|j: int|
        0 <= j < pre.len() && (#[trigger] pre[j]).1 == hdr && pre[j].0.val() == hdr.hash_val();
    assert(post.subrange(0, pre.len() as int)[j] == post[j]);
}

/// A stored transaction stays stored when the store grows.
proof fn lemma_tx_stored_prefix(pre: Seq<(Hash32, Transaction)>, post: Seq<(Hash32, Transaction)>, tx: Transaction)
    requires
        tx_stored(pre, tx),
        pre.is_prefix_of(post),
    ensures
        tx_stored(post, tx),
{
    let j = choose|j: int|
        0 <= j < pre.len() && tx_matches((#[trigger] pre[j]).1, tx) && pre[j].0.val()
            == tx_hash_of(calls_view(tx.calls@));
    assert(post.subrange(0, pre.len() as int)[j] == post[j]);
}

/// A stored body stays stored when the store grows.
proof fn lemma_body_stored_prefix(pre: Seq<(Hash32, Block)>, post: Seq<(Hash32, Block)>, b: BlockInfo)
    requires
        body_stored(pre, b),
        pre.is_prefix_of(post),
    ensures
        body_stored(post, b),
{
    let j = choose|j: int|
        0 <= j < pre.len() && {
            let e = #[trigger] pre[j];
            &&& e.0.val() == b.header.hash_val()
            &&& e.1.header.val() == b.header.hash_val()
            &&& e.1.txs@.len() == b.txs@.len()
            &&& (forall|t: int|
                0 <= t < b.txs@.len() ==> (#[trigger] e.1.txs@[t]).val() == tx_hash_of(
                    calls_view(b.txs@[t].calls@),
                ))
            &&& meta_matches(e.1.metadata, b.metadata)
        };
    assert(post.subrange(0, pre.len() as int)[j] == post[j]);
}

/// A slot binding stays in place when the ordering grows.
proof fn lemma_slot_bound_prefix(pre: Seq<(u64, Hash32)>, post: Seq<(u64, Hash32)>, slot: u64, hval: nat)
    requires
        slot_bound(pre, slot, hval),
        pre.is_prefix_of(post),
    ensures
        slot_bound(post, slot, hval),
{
    let j = choose|j: int|
        0 <= j < pre.len() && (#[trigger] pre[j]).0 == slot && pre[j].1.val() == hval;
    assert(post.subrange(0, pre.len() as int)[j] == post[j]);
}

/// Appending an ordering entry rebinds only its own slot.
proof fn lemma_order_push(order: Seq<(u64, Hash32)>, e: (u64, Hash32), slot: u64)
    ensures
        slot_index(order.push(e), slot) == if e.0 == slot {
            Some(order.len() as int)
        } else {
            slot_index(order, slot)
        },
{
    let p = order.push(e);
    assert(p[p.len() - 1] == e);
    assert(p.drop_last() =~= order);
}

impl Blockchain {
    /// The stored headers.
    pub open spec fn headers_v(self) -> Seq<(Hash32, Header)> {
        self.headers@
    }

    /// The stored slot ordering.
    pub open spec fn order_v(self) -> Seq<(u64, Hash32)> {
        self.order@
    }

    /// The block hash the ordering holds for a slot, if any.
    pub open spec fn order_hash(self, slot: u64) -> Option<Hash32> {
        match slot_index(self.order_v(), slot) {
            Some(j) => Some(self.order_v()[j].1),
            None => None,
        }
    }

    /// The header the store holds at a hash, if any.
    pub open spec fn header_at(self, h: Hash32) -> Option<Header> {
        match hash_index(self.headers@, h) {
            Some(j) => Some(self.headers@[j].1),
            None => None,
        }
    }

    /// Whether the store holds everything needed to reassemble the block at
    /// a hash: its header, its body, and every transaction the body names.
    pub open spec fn block_available(self, h: Hash32) -> bool {
        &&& hash_index(self.headers@, h) is Some
        &&& hash_index(self.blocks@, h) is Some
        &&& forall|t: int|
            0 <= t < self.blocks@[hash_index(self.blocks@, h)->0].1.txs@.len() ==> hash_index(
                self.transactions@,
                #[trigger] self.blocks@[hash_index(self.blocks@, h)->0].1.txs@[t],
            ) is Some
    }

    /// Whether every listed hash is fully available.
    pub open spec fn all_available(self, hashes: Seq<Hash32>) -> bool {
        forall|i: int| 0 <= i < hashes.len() ==> self.block_available(#[trigger] hashes[i])
    }

    /// Whether `out` is exactly the stored reassembly of the blocks at
    /// `hashes`, in order: the stored header, every stored transaction the
    /// body names, and the stored metadata.
    pub open spec fn blocks_match_store(self, hashes: Seq<Hash32>, out: Seq<BlockInfo>) -> bool {
        &&& out.len() == hashes.len()
        &&& forall|i: int|
            0 <= i < hashes.len() ==> {
                let hidx = hash_index(self.headers@, #[trigger] hashes[i]);
                let bidx = hash_index(self.blocks@, hashes[i]);
                &&& hidx is Some
                &&& bidx is Some
                &&& out[i].header == self.headers@[hidx->0].1
                &&& meta_matches(out[i].metadata, self.blocks@[bidx->0].1.metadata)
                &&& out[i].txs@.len() == self.blocks@[bidx->0].1.txs@.len()
                &&& forall|t: int|
                    0 <= t < self.blocks@[bidx->0].1.txs@.len() ==> {
                        let tidx = hash_index(
                            self.transactions@,
                            #[trigger] self.blocks@[bidx->0].1.txs@[t],
                        );
                        tidx is Some && tx_matches(out[i].txs@[t], self.transactions@[tidx->0].1)
                    }
            }
    }

    /// Whether a block is already known to the chain: its slot is bound to
    /// its header hash and that hash resolves to its header.
    pub open spec fn block_known(self, b: BlockInfo) -> bool {
        &&& self.order_hash(b.header.slot) matches Some(h) && h.val() == b.header.hash_val()
        &&& exists|hh: Hash32|
            (#[trigger] hh.val()) == b.header.hash_val() && self.header_at(hh) == Some(b.header)
    }

    /// Whether every part of a block is on record: its header, its body,
    /// its transactions, and its slot binding.
    pub open spec fn block_fully_stored(self, b: BlockInfo) -> bool {
        &&& header_stored(self.headers@, b.header)
        &&& body_stored(self.blocks@, b)
        &&& forall|t: int|
            0 <= t < b.txs@.len() ==> tx_stored(self.transactions@, #[trigger] b.txs@[t])
        &&& slot_bound(self.order@, b.header.slot, b.header.hash_val())
    }

    /// A fresh chain holding only the genesis block.
    pub fn new(genesis_ts: u64, genesis_data: Hash32) -> (r: Blockchain)
        ensures
            r.order_v().len() == 1,
            r.order_v()[0].0 == 0,
            r.headers_v().len() == 1,
            r.headers_v()[0].1 == (Header { slot: 0, timestamp: genesis_ts, previous: genesis_data }),
            r.headers_v()[0].0.val() == r.headers_v()[0].1.hash_val(),
            r.order_v()[0].1 == r.headers_v()[0].0,
            r.contracts.rows_v() == Seq::<RowV>::empty(),
            r.contracts.trees_v() == Seq::<TreeSlotV>::empty(),
            r.contracts.wf(),
    {
        let genesis = Header { slot: 0, timestamp: genesis_ts, previous: genesis_data };
        let ghash = genesis.headerhash();
        let mut headers: Vec<(Hash32, Header)> = Vec::new();
        headers.push((ghash, genesis));
        let mut blocks: Vec<(Hash32, Block)> = Vec::new();
        blocks.push((ghash, Block { header: ghash, txs: Vec::new(), metadata: Metadata::default() }));
        let mut order: Vec<(u64, Hash32)> = Vec::new();
        order.push((0, ghash));
        Blockchain {
            headers,
            blocks,
            order,
            transactions: Vec::new(),
            contracts: ContractStore::new(),
        }
    }

    /// Whether a block is already known: its slot must be ordered and the
    /// ordered hash must be the hash of its header.
    pub fn has_block(&self, block: &BlockInfo) -> (r: Result<bool, StoreError>)
        ensures
            r is Ok,
            r->Ok_0 <==> (self.order_hash(block.header.slot) matches Some(h) && h.val()
                == block.header.hash_val()),
    {
        let idx = match find_by_slot(&self.order, block.header.slot) {
            Some(i) => i,
            None => { return Ok(false) },
        };
        let stored = self.order[idx].1;
        let own = block.header.headerhash();
        proof {
            crate::field::lemma_hash32_eq(stored, own);
        }
        Ok(stored == own)
    }

    /// Inserts blocks into the chain.  Every block not already known gets
    /// its transactions, header, body and slot ordering recorded together;
    /// a block already known (its slot bound to its header hash, the header
    /// on record) is skipped, so re-adding known blocks is a no-op success
    /// that changes nothing.  Returns the hash of every given block.  When
    /// the given slots are pairwise distinct, each slot ends up bound to
    /// its own block's hash.
    #[verifier::loop_isolation(false)]
    #[verifier::rlimit(100)]
    pub fn add(&mut self, blocks: &Vec<BlockInfo>) -> (r: Result<Vec<Hash32>, StoreError>)
        requires
            old(self).contracts.wf(),
        ensures
            r is Ok,
            r->Ok_0@.len() == blocks@.len(),
            forall|i: int|
                0 <= i < blocks@.len() ==> (#[trigger] r->Ok_0@[i]).val()
                    == blocks@[i].header.hash_val(),
            forall|i: int|
                0 <= i < blocks@.len() ==> old(self).block_known(#[trigger] blocks@[i])
                    || final(self).block_fully_stored(blocks@[i]),
            forall|i: int|
                0 <= i < blocks@.len() ==> (#[trigger] final(self).order_hash(
                    blocks@[i].header.slot,
                )) is Some,
            (forall|i: int, j: int|
                0 <= i < blocks@.len() && 0 <= j < blocks@.len() && i != j
                    ==> blocks@[i].header.slot != blocks@[j].header.slot) ==> forall|i: int|
                0 <= i < blocks@.len() ==> ((#[trigger] final(self).order_hash(
                    blocks@[i].header.slot,
                )) matches Some(h) && h.val() == blocks@[i].header.hash_val()),
            (forall|i: int| 0 <= i < blocks@.len() ==> old(self).block_known(#[trigger] blocks@[i]))
                ==> final(self).headers@ == old(self).headers@ && final(self).blocks@ == old(
                self,
            ).blocks@ && final(self).order@ == old(self).order@ && final(self).transactions@
                == old(self).transactions@,
            final(self).contracts.rows_v() == old(self).contracts.rows_v(),
            final(self).contracts.trees_v() == old(self).contracts.trees_v(),
            final(self).contracts.wf(),
    {
        // First pass, read-only: which blocks the chain already knows.
        let mut known_flags: Vec<bool> = Vec::new();
        let mut i: usize = 0;
        while i < blocks.len()
            invariant
                0 <= i <= blocks@.len(),
                known_flags@.len() == i,
                forall|q: int|
                    0 <= q < i ==> (#[trigger] known_flags@[q]) == self.block_known(blocks@[q]),
            decreases blocks@.len() - i,
        {
            let block = &blocks[i];
            let headerhash = block.header.headerhash();
            let ordered = match self.has_block(block) {
                Ok(b) => b,
                Err(_) => false,
            };
            let mut known = false;
            if ordered {
                match find_by_hash(&self.headers, &headerhash) {
                    Some(j) => {
                        if self.headers[j].1 == block.header {
                            known = true;
                            proof {
                                assert(self.header_at(headerhash) == Some(block.header));
                            }
                        }
                    },
                    None => {},
                }
            }
            proof {
                if known {
                    assert(self.block_known(blocks@[i as int]));
                } else if ordered {
                    // Any witness hash with this value is the computed one.
                    assert forall|hh: Hash32|
                        (#[trigger] hh.val()) == blocks@[i as int].header.hash_val() implies self.header_at(
                        hh,
                    ) != Some(blocks@[i as int].header) by {
                        crate::field::lemma_hash32_eq(hh, headerhash);
                    }
                    assert(!self.block_known(blocks@[i as int]));
                } else {
                    assert(!self.block_known(blocks@[i as int]));
                }
            }
            known_flags.push(known);
            i = i + 1;
        }

        // Second pass: record every block the chain did not know.
        let ghost pre0 = *self;
        let mut ret: Vec<Hash32> = Vec::new();
        let mut i: usize = 0;
        while i < blocks.len()
            invariant
                0 <= i <= blocks@.len(),
                known_flags@.len() == blocks@.len(),
                forall|q: int|
                    0 <= q < blocks@.len() ==> (#[trigger] known_flags@[q]) == pre0.block_known(
                        blocks@[q],
                    ),
                ret@.len() == i,
                forall|q: int|
                    0 <= q < i ==> (#[trigger] ret@[q]).val() == blocks@[q].header.hash_val(),
                pre0.headers@.is_prefix_of(self.headers@),
                pre0.blocks@.is_prefix_of(self.blocks@),
                pre0.order@.is_prefix_of(self.order@),
                pre0.transactions@.is_prefix_of(self.transactions@),
                forall|q: int|
                    0 <= q < i ==> pre0.block_known(#[trigger] blocks@[q])
                        || self.block_fully_stored(blocks@[q]),
                forall|q: int|
                    0 <= q < i ==> (#[trigger] self.order_hash(blocks@[q].header.slot)) is Some,
                (forall|a: int, b: int|
                    0 <= a < blocks@.len() && 0 <= b < blocks@.len() && a != b
                        ==> blocks@[a].header.slot != blocks@[b].header.slot) ==> forall|q: int|
                    0 <= q < i ==> ((#[trigger] self.order_hash(
                        blocks@[q].header.slot,
                    )) matches Some(h) && h.val() == blocks@[q].header.hash_val()),
                (forall|a: int, b: int|
                    0 <= a < blocks@.len() && 0 <= b < blocks@.len() && a != b
                        ==> blocks@[a].header.slot != blocks@[b].header.slot) ==> forall|q: int|
                    0 <= q < blocks@.len() && known_flags@[q] ==> ((#[trigger] self.order_hash(
                        blocks@[q].header.slot,
                    )) matches Some(h) && h.val() == blocks@[q].header.hash_val()),
                (forall|q: int| 0 <= q < i ==> pre0.block_known(#[trigger] blocks@[q]))
                    ==> self.headers@ == pre0.headers@ && self.blocks@ == pre0.blocks@
                    && self.order@ == pre0.order@ && self.transactions@ == pre0.transactions@,
                self.contracts.rows_v() == old(self).contracts.rows_v(),
                self.contracts.trees_v() == old(self).contracts.trees_v(),
                self.contracts.wf(),
            decreases blocks@.len() - i,
        {
            let ghost pre = *self;
            let block = &blocks[i];
            let headerhash = block.header.headerhash();
            if !known_flags[i] {
                let mut tx_hashes: Vec<Hash32> = Vec::new();
                let ghost pre_txs = self.transactions@;
                let mut t: usize = 0;
                while t < block.txs.len()
                    invariant
                        0 <= t <= block.txs@.len(),
                        tx_hashes@.len() == t,
                        pre_txs.is_prefix_of(self.transactions@),
                        self.headers@ == pre.headers@,
                        self.blocks@ == pre.blocks@,
                        self.order@ == pre.order@,
                        self.contracts.rows_v() == old(self).contracts.rows_v(),
                        self.contracts.trees_v() == old(self).contracts.trees_v(),
                        self.contracts.wf(),
                        forall|u: int|
                            0 <= u < t ==> tx_stored(
                                self.transactions@,
                                #[trigger] block.txs@[u],
                            ),
                        forall|u: int|
                            0 <= u < t ==> (#[trigger] tx_hashes@[u]).val() == tx_hash_of(
                                calls_view(block.txs@[u].calls@),
                            ),
                    decreases block.txs@.len() - t,
                {
                    let tx = &block.txs[t];
                    let txh = tx.hash();
                    let ghost before = self.transactions@;
                    self.transactions.push((txh, tx.clone_tx()));
                    tx_hashes.push(txh);
                    proof {
                        assert(self.transactions@.drop_last() =~= before);
                        assert(before.is_prefix_of(self.transactions@));
                        assert(tx_stored(self.transactions@, block.txs@[t as int])) by {
                            let j = self.transactions@.len() - 1;
                            assert(tx_matches(
                                self.transactions@[j].1,
                                block.txs@[t as int],
                            ) && self.transactions@[j].0.val() == tx_hash_of(
                                calls_view(block.txs@[t as int].calls@),
                            ));
                        }
                        assert forall|u: int| 0 <= u < t implies tx_stored(
                            self.transactions@,
                            #[trigger] block.txs@[u],
                        ) by {
                            assert(tx_stored(before, block.txs@[u]));
                            lemma_tx_stored_prefix(
                                before,
                                self.transactions@,
                                block.txs@[u],
                            );
                        }
                    }
                    t = t + 1;
                }
                self.headers.push((headerhash, block.header));
                self.blocks.push(
                    (
                        headerhash,
                        Block {
                            header: headerhash,
                            txs: tx_hashes,
                            metadata: block.metadata.clone_meta(),
                        },
                    ),
                );
                self.order.push((block.header.slot, headerhash));
                proof {
                    assert(self.headers@.drop_last() =~= pre.headers@);
                    assert(self.blocks@.drop_last() =~= pre.blocks@);
                    assert(self.order@.drop_last() =~= pre.order@);
                    assert(pre.headers@.is_prefix_of(self.headers@));
                    assert(pre.blocks@.is_prefix_of(self.blocks@));
                    assert(pre.order@.is_prefix_of(self.order@));
                    assert(header_stored(self.headers@, block.header)) by {
                        let j = self.headers@.len() - 1;
                        assert(self.headers@[j].1 == block.header && self.headers@[j].0.val()
                            == block.header.hash_val());
                    }
                    assert(body_stored(self.blocks@, *block)) by {
                        let j = self.blocks@.len() - 1;
                        let e = self.blocks@[j];
                        assert(e.0.val() == block.header.hash_val() && e.1.header.val()
                            == block.header.hash_val() && e.1.txs@.len() == block.txs@.len() && (
                        forall|t: int|
                            0 <= t < block.txs@.len() ==> (#[trigger] e.1.txs@[t]).val()
                                == tx_hash_of(calls_view(block.txs@[t].calls@))) && meta_matches(
                            e.1.metadata,
                            block.metadata,
                        ));
                    }
                    assert(slot_bound(self.order@, block.header.slot, block.header.hash_val()))
                        by {
                        let j = self.order@.len() - 1;
                        assert(self.order@[j].0 == block.header.slot && self.order@[j].1.val()
                            == block.header.hash_val());
                    }
                    lemma_order_push(
                        pre.order@,
                        (block.header.slot, headerhash),
                        block.header.slot,
                    );
                    assert(forall|t: int|
                        0 <= t < block.txs@.len() ==> tx_stored(
                            self.transactions@,
                            #[trigger] block.txs@[t],
                        ));
                    assert(blocks@[i as int] == *block);
                    assert(self.block_fully_stored(blocks@[i as int]));
                }
            }
            ret.push(headerhash);
            proof {
                let b = blocks@[i as int];
                assert(pre0.headers@.is_prefix_of(self.headers@));
                assert(pre0.blocks@.is_prefix_of(self.blocks@));
                assert(pre0.order@.is_prefix_of(self.order@));
                assert(pre0.transactions@.is_prefix_of(self.transactions@));
                if known_flags@[i as int] {
                    // A known block keeps its binding; nothing was written.
                    assert(*self == pre);
                    assert(pre0.order_hash(b.header.slot) is Some);
                    let jj = slot_index(pre0.order@, b.header.slot);
                    lemma_slot_index_bound(pre0.order@, b.header.slot);
                    lemma_slot_order_preserved(pre0.order@, self.order@, b.header.slot);
                }
                assert(self.order_hash(b.header.slot) is Some) by {
                    if !known_flags@[i as int] {
                        lemma_order_push(
                            pre.order@,
                            (b.header.slot, ret@[i as int]),
                            b.header.slot,
                        );
                    } else {
                        lemma_slot_order_preserved(pre0.order@, self.order@, b.header.slot);
                    }
                }
                assert forall|q: int| 0 <= q < i implies pre0.block_known(#[trigger] blocks@[q])
                    || self.block_fully_stored(blocks@[q]) by {
                    if !pre0.block_known(blocks@[q]) {
                        assert(pre.block_fully_stored(blocks@[q]));
                        lemma_header_stored_prefix(
                            pre.headers@,
                            self.headers@,
                            blocks@[q].header,
                        );
                        lemma_body_stored_prefix(pre.blocks@, self.blocks@, blocks@[q]);
                        assert forall|u: int| 0 <= u < blocks@[q].txs@.len() implies tx_stored(
                            self.transactions@,
                            #[trigger] blocks@[q].txs@[u],
                        ) by {
                            lemma_tx_stored_prefix(
                                pre.transactions@,
                                self.transactions@,
                                blocks@[q].txs@[u],
                            );
                        }
                        lemma_slot_bound_prefix(
                            pre.order@,
                            self.order@,
                            blocks@[q].header.slot,
                            blocks@[q].header.hash_val(),
                        );
                    }
                }
                assert forall|q: int| 0 <= q < i implies (#[trigger] self.order_hash(
                    blocks@[q].header.slot,
                )) is Some by {
                    assert(pre.order_hash(blocks@[q].header.slot) is Some);
                    lemma_slot_index_bound(pre.order@, blocks@[q].header.slot);
                    lemma_slot_order_preserved(pre.order@, self.order@, blocks@[q].header.slot);
                }
                if forall|a: int, c: int|
                    0 <= a < blocks@.len() && 0 <= c < blocks@.len() && a != c
                        ==> blocks@[a].header.slot != blocks@[c].header.slot {
                    if !known_flags@[i as int] {
                        assert(self.order@ == pre.order@.push((b.header.slot, headerhash)));
                        assert forall|q: int|
                            0 <= q < blocks@.len() && known_flags@[q] implies ((
                        #[trigger] self.order_hash(blocks@[q].header.slot)) matches Some(h)
                            && h.val() == blocks@[q].header.hash_val()) by {
                            assert(q != i);
                            assert(blocks@[q].header.slot != b.header.slot);
                            assert(pre.order_hash(blocks@[q].header.slot) is Some
                                && pre.order_hash(blocks@[q].header.slot)->0.val()
                                == blocks@[q].header.hash_val());
                            lemma_slot_index_bound(pre.order@, blocks@[q].header.slot);
                            lemma_order_push(
                                pre.order@,
                                (b.header.slot, headerhash),
                                blocks@[q].header.slot,
                            );
                            let j = slot_index(pre.order@, blocks@[q].header.slot)->0;
                            assert(self.order@[j] == pre.order@[j]);
                        }
                    } else {
                        assert(*self == pre);
                    }
                    assert forall|q: int| 0 <= q < i + 1 implies ((#[trigger] self.order_hash(
                        blocks@[q].header.slot,
                    )) matches Some(h) && h.val() == blocks@[q].header.hash_val()) by {
                        if q == i {
                            if known_flags@[i as int] {
                                assert(pre.order_hash(b.header.slot) is Some && pre.order_hash(
                                    b.header.slot,
                                )->0.val() == b.header.hash_val());
                            } else {
                                lemma_order_push(
                                    pre.order@,
                                    (b.header.slot, headerhash),
                                    b.header.slot,
                                );
                                assert(self.order_hash(b.header.slot) == Some(headerhash));
                            }
                        } else {
                            assert(pre.order_hash(blocks@[q].header.slot) is Some
                                && pre.order_hash(blocks@[q].header.slot)->0.val()
                                == blocks@[q].header.hash_val());
                            if !known_flags@[i as int] {
                                assert(blocks@[q].header.slot != b.header.slot);
                                lemma_slot_index_bound(pre.order@, blocks@[q].header.slot);
                                lemma_order_push(
                                    pre.order@,
                                    (b.header.slot, headerhash),
                                    blocks@[q].header.slot,
                                );
                                let j = slot_index(pre.order@, blocks@[q].header.slot)->0;
                                assert(self.order@[j] == pre.order@[j]);
                            }
                        }
                    }
                }
            }
            i = i + 1;
        }
        proof {
            assert(final(self).headers@ == self.headers@);
        }
        Ok(ret)
    }

    /// Retrieves blocks by their hashes.  It succeeds exactly when every
    /// hash has a stored header and body and every transaction the body
    /// names is stored; then each returned block is, in order, the exact
    /// stored reassembly.  No partial vector is ever returned.
    #[verifier::loop_isolation(false)]
    #[verifier::rlimit(100)]
    pub fn get_blocks_by_hash(&self, hashes: &Vec<Hash32>) -> (r: Result<Vec<BlockInfo>, StoreError>)
        ensures
            r is Ok <==> self.all_available(hashes@),
            r is Ok ==> self.blocks_match_store(hashes@, r->Ok_0@),
            r is Err ==> r->Err_0 == StoreError::BlockNotFound || r->Err_0
                == StoreError::TransactionNotFound,
    {
        let mut ret: Vec<BlockInfo> = Vec::new();
        let mut i: usize = 0;
        while i < hashes.len()
            invariant
                0 <= i <= hashes@.len(),
                self.all_available(hashes@.subrange(0, i as int)),
                self.blocks_match_store(hashes@.subrange(0, i as int), ret@),
            decreases hashes@.len() - i,
        {
            let h = hashes[i];
            let hidx = match find_by_hash(&self.headers, &h) {
                Some(v) => v,
                None => {
                    proof {
                        assert(!self.block_available(hashes@[i as int]));
                    }
                    return Err(StoreError::BlockNotFound);
                },
            };
            let header = self.headers[hidx].1;
            let bidx = match find_by_hash(&self.blocks, &h) {
                Some(v) => v,
                None => {
                    proof {
                        assert(!self.block_available(hashes@[i as int]));
                    }
                    return Err(StoreError::BlockNotFound);
                },
            };
            let ghost body = self.blocks@[bidx as int].1;
            let mut txs: Vec<Transaction> = Vec::new();
            let ntx = self.blocks[bidx].1.txs.len();
            let mut t: usize = 0;
            while t < ntx
                invariant
                    0 <= t <= ntx,
                    txs@.len() == t,
                    forall|u: int|
                        0 <= u < t ==> {
                            let tidx = hash_index(
                                self.transactions@,
                                #[trigger] body.txs@[u],
                            );
                            tidx is Some && tx_matches(txs@[u], self.transactions@[tidx->0].1)
                        },
                decreases ntx - t,
            {
                let txh = self.blocks[bidx].1.txs[t];
                let tidx = match find_by_hash(&self.transactions, &txh) {
                    Some(v) => v,
                    None => {
                        proof {
                            assert(hash_index(self.transactions@, body.txs@[t as int]) is None);
                            assert(!self.block_available(hashes@[i as int]));
                        }
                        return Err(StoreError::TransactionNotFound);
                    },
                };
                txs.push(self.transactions[tidx].1.clone_tx());
                t = t + 1;
            }
            let metadata = self.blocks[bidx].1.metadata.clone_meta();
            ret.push(BlockInfo { header, txs, metadata });
            proof {
                assert(self.block_available(hashes@[i as int]));
                assert(hashes@.subrange(0, i + 1).drop_last() =~= hashes@.subrange(0, i as int));
                assert forall|q: int|
                    0 <= q < i + 1 implies self.block_available(
                    #[trigger] hashes@.subrange(0, i + 1)[q],
                ) by {
                    assert(hashes@.subrange(0, i + 1)[q] == hashes@[q]);
                    if q < i {
                        assert(self.block_available(hashes@.subrange(0, i as int)[q]));
                    }
                }
                assert(self.blocks_match_store(hashes@.subrange(0, i + 1), ret@));
            }
            i = i + 1;
        }
        proof {
            assert(hashes@.subrange(0, hashes@.len() as int) =~= hashes@);
        }
        Ok(ret)
    }

    /// Retrieves blocks by slots; a slot with no ordered block is skipped.
    /// It succeeds exactly when every resolved hash is fully available, and
    /// then returns the stored reassembly of each resolved block, in order.
    #[verifier::loop_isolation(false)]
    pub fn get_blocks_by_slot(&self, slots: &Vec<u64>) -> (r: Result<Vec<BlockInfo>, StoreError>)
        ensures
            r is Ok <==> self.all_available(resolved_hashes(self.order@, slots@, 0)),
            r is Ok ==> self.blocks_match_store(
                resolved_hashes(self.order@, slots@, 0),
                r->Ok_0@,
            ),
            r is Err ==> r->Err_0 == StoreError::BlockNotFound || r->Err_0
                == StoreError::TransactionNotFound,
    {
        let mut hashes: Vec<Hash32> = Vec::new();
        let mut i: usize = 0;
        while i < slots.len()
            invariant
                0 <= i <= slots@.len(),
                resolved_hashes(self.order@, slots@, 0) == hashes@ + resolved_hashes(
                    self.order@,
                    slots@,
                    i as int,
                ),
            decreases slots@.len() - i,
        {
            let ghost pre = hashes@;
            match find_by_slot(&self.order, slots[i]) {
                Some(j) => {
                    hashes.push(self.order[j].1);
                    proof {
                        assert(resolved_hashes(self.order@, slots@, i as int) == seq![
                            self.order@[j as int].1,
                        ] + resolved_hashes(self.order@, slots@, i + 1));
                        assert(pre + (seq![self.order@[j as int].1] + resolved_hashes(
                            self.order@,
                            slots@,
                            i + 1,
                        )) =~= hashes@ + resolved_hashes(self.order@, slots@, i + 1));
                    }
                },
                None => {},
            }
            i = i + 1;
        }
        proof {
            assert(resolved_hashes(self.order@, slots@, slots@.len() as int)
                =~= Seq::<Hash32>::empty());
            assert(hashes@ + Seq::<Hash32>::empty() =~= hashes@);
        }
        self.get_blocks_by_hash(&hashes)
    }

    /// Retrieves up to `n` blocks whose slots lie strictly after the given
    /// slot, in stored order, skipping none until the count is reached.  It
    /// succeeds exactly when every such block is fully available, and then
    /// returns the stored reassembly of each.
    #[verifier::loop_isolation(false)]
    pub fn get_blocks_after(&self, slot: u64, n: u64) -> (r: Result<Vec<BlockInfo>, StoreError>)
        ensures
            r is Ok <==> self.all_available(after_hashes(self.order@, slot, n as nat, 0)),
            r is Ok ==> self.blocks_match_store(
                after_hashes(self.order@, slot, n as nat, 0),
                r->Ok_0@,
            ),
            r is Err ==> r->Err_0 == StoreError::BlockNotFound || r->Err_0
                == StoreError::TransactionNotFound,
    {
        let mut hashes: Vec<Hash32> = Vec::new();
        let mut i: usize = 0;
        while i < self.order.len()
            invariant
                0 <= i <= self.order@.len(),
                hashes@.len() <= n,
                after_hashes(self.order@, slot, n as nat, 0) == hashes@ + after_hashes(
                    self.order@,
                    slot,
                    (n - hashes@.len()) as nat,
                    i as int,
                ),
            decreases self.order@.len() - i,
        {
            let ghost pre = hashes@;
            if self.order[i].0 > slot && (hashes.len() as u64) < n {
                hashes.push(self.order[i].1);
                proof {
                    assert(after_hashes(self.order@, slot, (n - pre.len()) as nat, i as int)
                        == seq![self.order@[i as int].1] + after_hashes(
                        self.order@,
                        slot,
                        (n - hashes@.len()) as nat,
                        i + 1,
                    ));
                    assert(pre + (seq![self.order@[i as int].1] + after_hashes(
                        self.order@,
                        slot,
                        (n - hashes@.len()) as nat,
                        i + 1,
                    )) =~= hashes@ + after_hashes(
                        self.order@,
                        slot,
                        (n - hashes@.len()) as nat,
                        i + 1,
                    ));
                }
            } else {
                proof {
                    assert(after_hashes(self.order@, slot, (n - hashes@.len()) as nat, i as int)
                        == after_hashes(self.order@, slot, (n - hashes@.len()) as nat, i + 1));
                }
            }
            i = i + 1;
        }
        proof {
            assert(after_hashes(self.order@, slot, (n - hashes@.len()) as nat, self.order@.len() as int)
                =~= Seq::<Hash32>::empty());
            assert(hashes@ + Seq::<Hash32>::empty() =~= hashes@);
        }
        self.get_blocks_by_hash(&hashes)
    }

    /// The slot and hash of the latest block (the one with the highest
    /// slot): the maximal ordered slot and the hash the ordering binds it
    /// to.
    pub fn last(&self) -> (r: Result<(u64, Hash32), StoreError>)
        ensures
            r is Ok <==> self.order_v().len() > 0,
            r is Ok ==> r->Ok_0.0 == max_slot(self.order_v()) && self.order_hash(r->Ok_0.0)
                == Some(r->Ok_0.1),
    {
        if self.order.len() == 0 {
            return Err(StoreError::EmptyChain);
        }
        let mut best: usize = 0;
        let mut i: usize = 1;
        while i < self.order.len()
            invariant
                0 < self.order@.len(),
                0 <= best < self.order@.len(),
                1 <= i <= self.order@.len(),
                forall|q: int|
                    0 <= q < i ==> (#[trigger] self.order_v()[q]).0 <= self.order_v()[best as int].0,
            decreases self.order@.len() - i,
        {
            if self.order[i].0 >= self.order[best].0 {
                best = i;
            }
            i = i + 1;
        }
        let slot = self.order[best].0;
        proof {
            lemma_max_slot_attained(self.order_v());
            assert(slot == max_slot(self.order_v())) by {
                let w = choose|j: int|
                    0 <= j < self.order_v().len() && (#[trigger] self.order_v()[j]).0 == max_slot(
                        self.order_v(),
                    );
                assert(self.order_v()[w].0 <= slot);
            }
            lemma_slot_index_exists(self.order_v(), slot, best as int);
        }
        let idx = match find_by_slot(&self.order, slot) {
            Some(v) => v,
            None => { return Err(StoreError::EmptyChain) },
        };
        proof {
            lemma_slot_index_bound(self.order_v(), slot);
        }
        Ok((slot, self.order[idx].1))
    }
}

/// The highest slot the ordering holds (zero when it is empty).
pub open spec fn max_slot(order: Seq<(u64, Hash32)>) -> u64
    decreases order.len(),
{
    if order.len() == 0 {
        0
    } else if order.last().0 >= max_slot(order.drop_last()) {
        order.last().0
    } else {
        max_slot(order.drop_last())
    }
}

/// The maximum dominates every slot and is attained by some entry.
proof fn lemma_max_slot_attained(order: Seq<(u64, Hash32)>)
    requires
        order.len() > 0,
    ensures
        forall|q: int| 0 <= q < order.len() ==> (#[trigger] order[q]).0 <= max_slot(order),
        exists|j: int| 0 <= j < order.len() && (#[trigger] order[j]).0 == max_slot(order),
    decreases order.len(),
{
    if order.len() == 1 {
        assert(order[0].0 == max_slot(order));
    } else {
        lemma_max_slot_attained(order.drop_last());
        if order.last().0 >= max_slot(order.drop_last()) {
            assert(order[order.len() - 1].0 == max_slot(order));
        } else {
            let j = choose|j: int|
                0 <= j < order.drop_last().len() && (#[trigger] order.drop_last()[j]).0
                    == max_slot(order.drop_last());
            assert(order[j].0 == max_slot(order));
        }
        assert forall|q: int| 0 <= q < order.len() implies (#[trigger] order[q]).0 <= max_slot(
            order,
        ) by {
            if q < order.len() - 1 {
                assert(order.drop_last()[q] == order[q]);
            }
        }
    }
}

/// The digest a stored leadership proof hashes to.
pub open spec fn proof_hash_of(p: crate::zk::ProofV) -> nat {
    blake3_of(
        u64_le(p.circuit) + u64_le(p.publics.len() as u64) + crate::model::enc_bases(p.publics, 0),
    )
}

impl Blockchain {
    /// The digest of the latest block's leadership proof: it exists exactly
    /// when the chain is non-empty and the highest ordered slot's block body
    /// is stored, and it is the digest of that body's proof.
    pub fn get_last_proof_hash(&self) -> (r: Result<Hash32, StoreError>)
        ensures
            r is Ok <==> (self.order_v().len() > 0 && hash_index(
                self.blocks@,
                self.order_hash(max_slot(self.order_v()))->0,
            ) is Some),
            r is Ok ==> r->Ok_0.val() == proof_hash_of(
                self.blocks@[hash_index(
                    self.blocks@,
                    self.order_hash(max_slot(self.order_v()))->0,
                )->0].1.metadata.proof.proof@,
            ),
    {
        let last = match self.last() {
            Ok(v) => v,
            Err(e) => { return Err(e) },
        };
        let hash = last.1;
        let bidx = match find_by_hash(&self.blocks, &hash) {
            Some(v) => v,
            None => { return Err(StoreError::BlockNotFound) },
        };
        let p = &self.blocks[bidx].1.metadata.proof.proof;
        let mut bytes: Vec<u8> = Vec::new();
        push_u64_le(&mut bytes, p.circuit);
        push_u64_le(&mut bytes, p.publics.len() as u64);
        let ghost head = bytes@;
        let mut k: usize = 0;
        while k < p.publics.len()
            invariant
                0 <= k <= p.publics@.len(),
                bytes@ == head + crate::model::enc_bases(p.publics@.subrange(0, k as int), 0),
            decreases p.publics@.len() - k,
        {
            p.publics[k].encode(&mut bytes);
            proof {
                crate::model::lemma_enc_bases_snoc_pub(p.publics@, k as int);
                assert(bytes@ =~= head + crate::model::enc_bases(
                    p.publics@.subrange(0, k + 1),
                    0,
                ));
            }
            k = k + 1;
        }
        proof {
            assert(p.publics@.subrange(0, p.publics@.len() as int) =~= p.publics@);
            assert(bytes@ =~= u64_le(p.circuit) + u64_le(p.publics@.len() as u64)
                + crate::model::enc_bases(p.publics@, 0));
        }
        let d = blake3_digest(&bytes);
        proof {
            assert(0 <= bidx < self.blocks@.len() && d.val() == proof_hash_of(
                self.blocks@[bidx as int].1.metadata.proof.proof@,
            ));
        }
        Ok(d)
    }
}

/// A slot once ordered stays ordered under later appends.
proof fn lemma_slot_order_preserved(older: Seq<(u64, Hash32)>, newer: Seq<(u64, Hash32)>, slot: u64)
    requires
        slot_index(older, slot) is Some,
        older.is_prefix_of(newer),
    ensures
        slot_index(newer, slot) is Some,
    decreases newer.len(),
{
    if newer.len() > older.len() {
        assert(older.is_prefix_of(newer.drop_last()));
        lemma_slot_order_preserved(older, newer.drop_last(), slot);
    } else {
        assert(older =~= newer);
    }
}

/// Finds the latest entry under a slot key.
fn find_by_slot<T>(s: &Vec<(u64, T)>, key: u64) -> (r: Option<usize>)
    ensures
        r is Some <==> slot_index(s@, key) is Some,
        r is Some ==> Some(r->0 as int) == slot_index(s@, key) && r->0 < s@.len(),
{
    let mut k: usize = s.len();
    proof {
        assert(s@.subrange(0, k as int) =~= s@);
    }
    while k > 0
        invariant
            0 <= k <= s@.len(),
            slot_index(s@, key) == slot_index(s@.subrange(0, k as int), key),
        decreases k,
    {
        let ghost pre = s@.subrange(0, k as int);
        proof {
            assert(pre[pre.len() - 1] == s@[k - 1]);
            assert(pre.drop_last() =~= s@.subrange(0, k - 1));
        }
        if s[k - 1].0 == key {
            return Some(k - 1);
        }
        k = k - 1;
    }
    proof {
        assert(s@.subrange(0, 0) =~= Seq::<(u64, T)>::empty());
    }
    None
}

} // verus!
