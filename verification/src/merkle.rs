//! The incremental append-only merkle tree over coins.
//!
//! Leaves are only ever appended, so a leaf's index and the path shape above
//! it are stable for the whole life of the tree; the store keeps every root
//! the tree ever had, and an inclusion proof verifies against any state whose
//! root history still holds the root it was built for.

use vstd::arithmetic::div_mod::{lemma_mod_breakdown, lemma_small_mod};
use vstd::arithmetic::power2::{
    lemma2_to64, lemma_pow2_adds, lemma_pow2_pos, lemma_pow2_strictly_increases, pow2,
};
use vstd::prelude::*;

use crate::field::{base_from_u64, hash_fields, hash_of, Base};

verus! {

/// The fixed depth of the coin tree.
pub open spec fn tree_depth() -> nat {
    32
}

/// The hash combining two child nodes.
pub open spec fn combine_of(l: nat, r: nat) -> nat {
    hash_of(seq![l, r])
}

/// The values of a sequence of leaves.
pub open spec fn leaf_vals(s: Seq<Base>) -> Seq<nat> {
    s.map_values(|b: Base| b.val())
}

/// The first `n` entries, or all of them if fewer.
pub open spec fn take_upto(s: Seq<nat>, n: int) -> Seq<nat> {
    if n <= s.len() {
        s.subrange(0, n)
    } else {
        s
    }
}

/// Everything from entry `n` on, or nothing if the sequence is shorter.
pub open spec fn skip_from(s: Seq<nat>, n: int) -> Seq<nat> {
    if n <= s.len() {
        s.subrange(n, s.len() as int)
    } else {
        Seq::empty()
    }
}

/// The root of the empty subtree of a given height.
pub open spec fn empty_node(level: nat) -> nat
    decreases level,
{
    if level == 0 {
        0
    } else {
        combine_of(empty_node((level - 1) as nat), empty_node((level - 1) as nat))
    }
}

/// The root of the subtree of a given height holding the given leaves (in
/// order, left-packed; missing leaves are empty).
pub open spec fn subtree_root(level: nat, leaves: Seq<nat>) -> nat
    decreases level,
{
    if level == 0 {
        if leaves.len() == 0 {
            0
        } else {
            leaves[0]
        }
    } else {
        let h = pow2((level - 1) as nat) as int;
        combine_of(
            subtree_root((level - 1) as nat, take_upto(leaves, h)),
            subtree_root((level - 1) as nat, skip_from(leaves, h)),
        )
    }
}

/// The root of the whole coin tree over the given leaves.
pub open spec fn root_of(leaves: Seq<nat>) -> nat {
    subtree_root(tree_depth(), leaves)
}

/// The authentication path of the leaf at `pos`: one sibling per level, from
/// the bottom up.
pub open spec fn path_spec(level: nat, leaves: Seq<nat>, pos: nat) -> Seq<nat>
    decreases level,
{
    if level == 0 {
        Seq::empty()
    } else {
        let h = pow2((level - 1) as nat);
        if pos < h {
            path_spec((level - 1) as nat, take_upto(leaves, h as int), pos) + seq![
                subtree_root((level - 1) as nat, skip_from(leaves, h as int)),
            ]
        } else {
            path_spec((level - 1) as nat, skip_from(leaves, h as int), (pos - h) as nat) + seq![
                subtree_root((level - 1) as nat, take_upto(leaves, h as int)),
            ]
        }
    }
}

/// Folding a leaf up an authentication path: at each level the position's
/// low bit says on which side the running node stands.
pub open spec fn fold_path(cur: nat, pos: nat, path: Seq<nat>) -> nat
    decreases path.len(),
{
    if path.len() == 0 {
        cur
    } else {
        fold_path(
            if pos % 2 == 0 {
                combine_of(cur, path[0])
            } else {
                combine_of(path[0], cur)
            },
            pos / 2,
            path.subrange(1, path.len() as int),
        )
    }
}

// ---------------------------------------------------------------------------
// Spec-level lemmas.
// ---------------------------------------------------------------------------

/// An authentication path has one entry per level.
pub proof fn lemma_path_len(level: nat, leaves: Seq<nat>, pos: nat)
    ensures
        path_spec(level, leaves, pos).len() == level,
    decreases level,
{
    if level > 0 {
        let h = pow2((level - 1) as nat);
        if pos < h {
            lemma_path_len((level - 1) as nat, take_upto(leaves, h as int), pos);
        } else {
            lemma_path_len((level - 1) as nat, skip_from(leaves, h as int), (pos - h) as nat);
        }
    }
}

/// The empty subtree's root, at any height.
pub proof fn lemma_empty_subtree(level: nat)
    ensures
        subtree_root(level, Seq::empty()) == empty_node(level),
    decreases level,
{
    if level > 0 {
        let h = pow2((level - 1) as nat) as int;
        assert(take_upto(Seq::empty(), h) =~= Seq::<nat>::empty());
        assert(skip_from(Seq::empty(), h) =~= Seq::<nat>::empty());
        lemma_empty_subtree((level - 1) as nat);
    }
}

/// Folding over a path with one more sibling on top: the last step combines
/// with the bit of the position at that height.
proof fn lemma_fold_append(cur: nat, pos: nat, p1: Seq<nat>, x: nat)
    ensures
        fold_path(cur, pos, p1 + seq![x]) == if (pos / pow2(p1.len())) % 2 == 0 {
            combine_of(fold_path(cur, pos, p1), x)
        } else {
            combine_of(x, fold_path(cur, pos, p1))
        },
    decreases p1.len(),
{
    if p1.len() == 0 {
        let whole = p1 + seq![x];
        assert(whole =~= seq![x]);
        assert(whole.len() == 1 && whole[0] == x);
        assert(whole.subrange(1, 1) =~= Seq::<nat>::empty());
        lemma2_to64();
        vstd::arithmetic::div_mod::lemma_div_basics(pos as int);
        assert(pos / pow2(0) == pos);
        let step = if pos % 2 == 0 {
            combine_of(cur, x)
        } else {
            combine_of(x, cur)
        };
        assert(fold_path(cur, pos, whole) == fold_path(step, pos / 2, whole.subrange(1, 1)));
        assert(fold_path(step, pos / 2, whole.subrange(1, 1)) == step);
    } else {
        let whole = p1 + seq![x];
        assert(whole.len() == p1.len() + 1);
        assert(whole[0] == p1[0]);
        let step = if pos % 2 == 0 {
            combine_of(cur, p1[0])
        } else {
            combine_of(p1[0], cur)
        };
        let t1 = p1.subrange(1, p1.len() as int);
        assert(whole.subrange(1, whole.len() as int) =~= t1 + seq![x]);
        assert(fold_path(cur, pos, whole) == fold_path(step, pos / 2, t1 + seq![x]));
        assert(fold_path(cur, pos, p1) == fold_path(step, pos / 2, t1));
        lemma_fold_append(step, pos / 2, t1, x);
        lemma_pow2_adds(1, (p1.len() - 1) as nat);
        lemma_pow2_pos((p1.len() - 1) as nat);
        lemma2_to64();
        assert(pow2(p1.len()) == 2 * pow2((p1.len() - 1) as nat));
        vstd::arithmetic::div_mod::lemma_div_denominator(
            pos as int,
            2,
            pow2((p1.len() - 1) as nat) as int,
        );
        assert((pos / 2) / pow2(t1.len()) == pos / pow2(p1.len()));
    }
}

/// A fold only reads as many position bits as the path is long.
proof fn lemma_fold_mod(cur: nat, pos: nat, path: Seq<nat>)
    ensures
        fold_path(cur, pos, path) == fold_path(cur, pos % pow2(path.len()), path),
    decreases path.len(),
{
    if path.len() == 0 {
        lemma2_to64();
        vstd::arithmetic::div_mod::lemma_mod_bound(pos as int, 1);
        assert(pos % pow2(0) == 0);
    } else {
        let n = path.len();
        let m = pow2((n - 1) as nat);
        lemma_pow2_adds(1, (n - 1) as nat);
        lemma_pow2_pos((n - 1) as nat);
        lemma2_to64();
        assert(pow2(n) == 2 * m);
        let q = pos % (2 * m);
        lemma_mod_breakdown(pos as int, 2, m as int);
        assert(q == 2 * ((pos / 2) % m) + pos % 2);
        let a = (pos / 2) % m;
        let b = pos % 2;
        assert(q % 2 == b && q / 2 == a) by {
            assert((2 * (a as int) + (b as int)) % 2 == b as int && (2 * (a as int) + (
            b as int)) / 2 == a as int) by (nonlinear_arith)
                requires
                    0 <= (b as int) < 2,
                    0 <= (a as int),
            ;
        }
        let step = if pos % 2 == 0 {
            combine_of(cur, path[0])
        } else {
            combine_of(path[0], cur)
        };
        let t = path.subrange(1, path.len() as int);
        assert(t.len() == (n - 1) as nat);
        assert(fold_path(cur, pos, path) == fold_path(step, pos / 2, t));
        assert(fold_path(cur, q, path) == fold_path(step, q / 2, t));
        lemma_fold_mod(step, pos / 2, t);
        lemma_fold_mod(step, a, t);
        vstd::arithmetic::div_mod::lemma_mod_bound((pos / 2) as int, m as int);
        lemma_small_mod(a, m);
        assert(fold_path(step, pos / 2, t) == fold_path(step, a, t));
    }
}

// ---------------------------------------------------------------------------
// The executable tree.
// ---------------------------------------------------------------------------

/// A power of two that fits a word.
fn pow2_exec(k: u8) -> (r: u64)
    requires
        k <= 62,
    ensures
        r == pow2(k as nat),
{
    let mut r: u64 = 1;
    let mut i: u8 = 0;
    proof {
        lemma2_to64();
        vstd::arithmetic::power2::lemma2_to64_rest();
    }
    while i < k
        invariant
            0 <= i <= k <= 62,
            r == pow2(i as nat),
        decreases k - i,
    {
        proof {
            lemma_pow2_adds(i as nat, 1);
            lemma2_to64();
            vstd::arithmetic::power2::lemma2_to64_rest();
            if i + 1 < 62 {
                lemma_pow2_strictly_increases((i + 1) as nat, 62);
            }
            assert(pow2((i + 1) as nat) <= pow2(62));
        }
        r = r * 2;
        i = i + 1;
    }
    r
}

/// The combining hash of two nodes.
fn combine(l: &Base, r: &Base) -> (c: Base)
    requires
        l.wf(),
        r.wf(),
    ensures
        c.wf(),
        c.val() == combine_of(l.val(), r.val()),
{
    let mut elems: Vec<Base> = Vec::new();
    elems.push(*l);
    elems.push(*r);
    let c = hash_fields(&elems);
    proof {
        assert(elems@.map_values(|x: Base| x.val()) =~= seq![l.val(), r.val()]);
    }
    c
}

/// The root of an empty subtree of the given height.
fn empty_node_exec(level: u8) -> (r: Base)
    ensures
        r.wf(),
        r.val() == empty_node(level as nat),
    decreases level,
{
    if level == 0 {
        base_from_u64(0)
    } else {
        let below = empty_node_exec(level - 1);
        combine(&below, &below)
    }
}

/// The root of the subtree of height `level` over `leaves[lo..hi]`.
fn subtree_node(leaves: &Vec<Base>, level: u8, lo: usize, hi: usize) -> (r: Base)
    requires
        lo <= hi <= leaves@.len(),
        hi - lo <= pow2(level as nat),
        level <= 32,
        forall|q: int| 0 <= q < leaves@.len() ==> (#[trigger] leaves@[q]).wf(),
    ensures
        r.wf(),
        r.val() == subtree_root(level as nat, leaf_vals(leaves@).subrange(lo as int, hi as int)),
    decreases level,
{
    let ghost seg = leaf_vals(leaves@).subrange(lo as int, hi as int);
    proof {
        assert(leaf_vals(leaves@).len() == leaves@.len());
    }
    if lo == hi {
        proof {
            assert(seg =~= Seq::<nat>::empty());
            lemma_empty_subtree(level as nat);
        }
        return empty_node_exec(level);
    }
    if level == 0 {
        proof {
            assert(seg[0] == leaf_vals(leaves@)[lo as int]);
        }
        return leaves[lo];
    }
    let h64 = pow2_exec(level - 1);
    proof {
        lemma_pow2_strictly_increases((level - 1) as nat, 32);
        lemma2_to64();
    }
    let h = h64 as usize;
    let mid = if hi - lo <= h {
        hi
    } else {
        lo + h
    };
    let left = subtree_node(leaves, level - 1, lo, mid);
    let right = subtree_node(leaves, level - 1, mid, hi);
    proof {
        assert(take_upto(seg, h as int) =~= leaf_vals(leaves@).subrange(lo as int, mid as int));
        assert(skip_from(seg, h as int) =~= leaf_vals(leaves@).subrange(mid as int, hi as int));
    }
    combine(&left, &right)
}

/// Appends the authentication path of the leaf at relative position `pos`
/// within `leaves[lo..hi]`, for a subtree of height `level`.
fn build_path(leaves: &Vec<Base>, level: u8, lo: usize, hi: usize, pos: usize, out: &mut Vec<Base>)
    requires
        lo <= hi <= leaves@.len(),
        hi - lo <= pow2(level as nat),
        pos < hi - lo,
        level <= 32,
        forall|q: int| 0 <= q < leaves@.len() ==> (#[trigger] leaves@[q]).wf(),
        forall|q: int| 0 <= q < old(out)@.len() ==> (#[trigger] old(out)@[q]).wf(),
    ensures
        leaf_vals(final(out)@) == leaf_vals(old(out)@) + path_spec(
            level as nat,
            leaf_vals(leaves@).subrange(lo as int, hi as int),
            pos as nat,
        ),
        forall|q: int| 0 <= q < final(out)@.len() ==> (#[trigger] final(out)@[q]).wf(),
    decreases level,
{
    let ghost seg = leaf_vals(leaves@).subrange(lo as int, hi as int);
    if level == 0 {
        proof {
            assert(leaf_vals(out@) =~= leaf_vals(out@) + path_spec(0, seg, pos as nat));
        }
        return ;
    }
    let h64 = pow2_exec(level - 1);
    proof {
        lemma_pow2_strictly_increases((level - 1) as nat, 32);
        lemma2_to64();
    }
    let h = h64 as usize;
    let mid = if hi - lo <= h {
        hi
    } else {
        lo + h
    };
    proof {
        assert(take_upto(seg, h as int) =~= leaf_vals(leaves@).subrange(lo as int, mid as int));
        assert(skip_from(seg, h as int) =~= leaf_vals(leaves@).subrange(mid as int, hi as int));
    }
    if pos < h {
        build_path(leaves, level - 1, lo, mid, pos, out);
        let sib = subtree_node(leaves, level - 1, mid, hi);
        let ghost before = out@;
        out.push(sib);
        proof {
            assert(leaf_vals(out@) =~= leaf_vals(before) + seq![sib.val()]);
            assert(leaf_vals(out@) =~= leaf_vals(old(out)@) + path_spec(
                level as nat,
                seg,
                pos as nat,
            ));
        }
    } else {
        build_path(leaves, level - 1, mid, hi, pos - h, out);
        let sib = subtree_node(leaves, level - 1, lo, mid);
        let ghost before = out@;
        out.push(sib);
        proof {
            assert(leaf_vals(out@) =~= leaf_vals(before) + seq![sib.val()]);
            assert(leaf_vals(out@) =~= leaf_vals(old(out)@) + path_spec(
                level as nat,
                seg,
                pos as nat,
            ));
        }
    }
}

/// The incremental append-only tree of coins.
pub struct MerkleTree {
    leaves: Vec<Base>,
}

impl View for MerkleTree {
    type V = Seq<Base>;

    closed spec fn view(&self) -> Seq<Base> {
        self.leaves@
    }
}

impl MerkleTree {
    /// Every leaf is a well-formed element and the tree is not over-full.
    pub open spec fn wf(self) -> bool {
        (forall|q: int| 0 <= q < self@.len() ==> (#[trigger] self@[q]).wf()) && self@.len() <= pow2(
            tree_depth(),
        )
    }

    /// An empty tree.
    pub fn new() -> (r: MerkleTree)
        ensures
            r@ == Seq::<Base>::empty(),
            r.wf(),
    {
        MerkleTree { leaves: Vec::new() }
    }

    /// How many leaves the tree holds.
    pub fn len(&self) -> (r: usize)
        ensures
            r == self@.len(),
    {
        self.leaves.len()
    }

    /// Appends a leaf and returns its position, which never changes again.
    pub fn append(&mut self, leaf: &Base) -> (pos: u64)
        requires
            old(self).wf(),
            leaf.wf(),
            old(self)@.len() < pow2(tree_depth()),
        ensures
            final(self)@ == old(self)@.push(*leaf),
            final(self).wf(),
            pos == old(self)@.len(),
    {
        proof {
            lemma_pow2_strictly_increases(tree_depth(), 62);
            lemma2_to64();
        }
        let pos = self.leaves.len() as u64;
        self.leaves.push(*leaf);
        pos
    }

    /// A leaf-for-leaf copy.
    pub fn duplicate(&self) -> (r: MerkleTree)
        ensures
            r@ == self@,
    {
        let mut leaves: Vec<Base> = Vec::new();
        let mut k: usize = 0;
        while k < self.leaves.len()
            invariant
                0 <= k <= self.leaves@.len(),
                leaves@ == self.leaves@.subrange(0, k as int),
            decreases self.leaves@.len() - k,
        {
            leaves.push(self.leaves[k]);
            proof {
                assert(leaves@ =~= self.leaves@.subrange(0, k + 1));
            }
            k = k + 1;
        }
        proof {
            assert(self.leaves@.subrange(0, self.leaves@.len() as int) =~= self.leaves@);
        }
        MerkleTree { leaves }
    }

    /// The current root.
    pub fn root(&self) -> (r: Base)
        requires
            self.wf(),
        ensures
            r.wf(),
            r.val() == root_of(leaf_vals(self@)),
    {
        proof {
            lemma2_to64();
            assert(leaf_vals(self@).subrange(0, self@.len() as int) =~= leaf_vals(self@));
        }
        subtree_node(&self.leaves, 32, 0, self.leaves.len())
    }

    /// The authentication path of the leaf at `pos`: one sibling per level.
    pub fn authentication_path(&self, pos: u64) -> (r: Vec<Base>)
        requires
            self.wf(),
            pos < self@.len(),
        ensures
            leaf_vals(r@) == path_spec(tree_depth(), leaf_vals(self@), pos as nat),
            r@.len() == tree_depth(),
            forall|q: int| 0 <= q < r@.len() ==> (#[trigger] r@[q]).wf(),
    {
        let mut out: Vec<Base> = Vec::new();
        proof {
            lemma2_to64();
            assert(leaf_vals(self@).subrange(0, self@.len() as int) =~= leaf_vals(self@));
            lemma_path_len(tree_depth(), leaf_vals(self@), pos as nat);
        }
        build_path(&self.leaves, 32, 0, self.leaves.len(), pos as usize, &mut out);
        proof {
            assert(leaf_vals(out@) =~= path_spec(tree_depth(), leaf_vals(self@), pos as nat));
            assert(out@.len() == leaf_vals(out@).len());
        }
        out
    }
}

/// Folds a leaf up an authentication path, reproducing the root the path was
/// built against.
pub fn merkle_root_from_path(leaf: &Base, pos: u64, path: &Vec<Base>) -> (r: Base)
    requires
        leaf.wf(),
        forall|q: int| 0 <= q < path@.len() ==> (#[trigger] path@[q]).wf(),
    ensures
        r.wf(),
        r.val() == fold_path(leaf.val(), pos as nat, leaf_vals(path@)),
{
    let mut cur: Base = *leaf;
    let mut p: u64 = pos;
    let mut i: usize = 0;
    proof {
        assert(leaf_vals(path@).subrange(0, path@.len() as int) =~= leaf_vals(path@));
    }
    while i < path.len()
        invariant
            0 <= i <= path@.len(),
            cur.wf(),
            forall|q: int| 0 <= q < path@.len() ==> (#[trigger] path@[q]).wf(),
            fold_path(leaf.val(), pos as nat, leaf_vals(path@)) == fold_path(
                cur.val(),
                p as nat,
                leaf_vals(path@).subrange(i as int, path@.len() as int),
            ),
        decreases path@.len() - i,
    {
        let ghost rest = leaf_vals(path@).subrange(i as int, path@.len() as int);
        proof {
            assert(rest.len() > 0);
            assert(rest[0] == path@[i as int].val());
            assert(rest.subrange(1, rest.len() as int) =~= leaf_vals(path@).subrange(
                i + 1,
                path@.len() as int,
            ));
        }
        let sib = path[i];
        cur = if p % 2 == 0 {
            combine(&cur, &sib)
        } else {
            combine(&sib, &cur)
        };
        p = p / 2;
        i = i + 1;
    }
    proof {
        assert(leaf_vals(path@).subrange(path@.len() as int, path@.len() as int)
            =~= Seq::<nat>::empty());
    }
    cur
}

/// Inclusion proofs outlive later appends: a path built for a leaf folds to
/// the root the tree had then, the leaf's position is stable under any
/// extension of the leaves, and a root history that held that root still
/// holds it after any further roots are recorded.
pub proof fn lemma_historical_root_verifies(
    leaves: Seq<nat>,
    ext: Seq<nat>,
    pos: nat,
    history: Seq<nat>,
    more: Seq<nat>,
)
    requires
        pos < leaves.len(),
        leaves.len() <= pow2(tree_depth()),
        history.contains(root_of(leaves)),
    ensures
        fold_path(leaves[pos as int], pos, path_spec(tree_depth(), leaves, pos)) == root_of(
            leaves,
        ),
        (leaves + ext)[pos as int] == leaves[pos as int],
        (history + more).contains(root_of(leaves)),
{
    lemma_fold_complete(tree_depth(), leaves, pos);
    let w = choose|q: int| 0 <= q < history.len() && history[q] == root_of(leaves);
    assert((history + more)[w] == root_of(leaves));
}

/// Completeness of inclusion proofs: for any leaf of the tree, folding the
/// leaf up its authentication path reproduces the subtree root.
pub proof fn lemma_fold_complete(level: nat, leaves: Seq<nat>, pos: nat)
    requires
        pos < leaves.len(),
        leaves.len() <= pow2(level),
    ensures
        fold_path(leaves[pos as int], pos, path_spec(level, leaves, pos)) == subtree_root(
            level,
            leaves,
        ),
    decreases level,
{
    if level == 0 {
        lemma2_to64();
        assert(leaves.len() == 1 && pos == 0);
    } else {
        let h = pow2((level - 1) as nat);
        let left = take_upto(leaves, h as int);
        let right = skip_from(leaves, h as int);
        lemma_pow2_adds(1, (level - 1) as nat);
        lemma2_to64();
        assert(pow2(level) == 2 * h);
        if pos < h {
            let p1 = path_spec((level - 1) as nat, left, pos);
            let x = subtree_root((level - 1) as nat, right);
            lemma_path_len((level - 1) as nat, left, pos);
            assert(pos < left.len());
            assert(left[pos as int] == leaves[pos as int]);
            lemma_fold_complete((level - 1) as nat, left, pos);
            lemma_fold_append(leaves[pos as int], pos, p1, x);
            lemma_small_mod(0, 2);
            assert(pos / h == 0) by {
                vstd::arithmetic::div_mod::lemma_basic_div(pos as int, h as int);
            }
        } else {
            let p1 = path_spec((level - 1) as nat, right, (pos - h) as nat);
            let x = subtree_root((level - 1) as nat, left);
            lemma_path_len((level - 1) as nat, right, (pos - h) as nat);
            assert(leaves.len() > h);
            assert(right.len() == leaves.len() - h);
            assert(pos - h < right.len());
            assert(right[pos - h] == leaves[pos as int]);
            lemma_fold_complete((level - 1) as nat, right, (pos - h) as nat);
            lemma_fold_append(leaves[pos as int], pos, p1, x);
            // pos / h == 1 since h <= pos < 2h
            assert(pos / h == 1) by {
                vstd::arithmetic::div_mod::lemma_fundamental_div_mod_converse(
                    pos as int,
                    h as int,
                    1,
                    (pos - h) as int,
                );
            }
            // the low bits of pos agree with pos - h
            lemma_fold_mod(leaves[pos as int], pos, p1);
            lemma_fold_mod(leaves[pos as int], (pos - h) as nat, p1);
            assert(pos % h == pos - h) by {
                vstd::arithmetic::div_mod::lemma_fundamental_div_mod_converse(
                    pos as int,
                    h as int,
                    1,
                    (pos - h) as int,
                );
            }
            lemma_small_mod((pos - h) as nat, h);
        }
    }
}

} // verus!
