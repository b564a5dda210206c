//! Client-side assembly of a money transfer: witnesses, commitments and
//! public inputs in their fixed positional order.
//!
//! Builders are pure value producers: they touch no ledger state, and all but
//! the last output's value blind are drawn fresh, the last being the
//! arithmetic remainder that makes the blinds telescope to zero — which is
//! what lets the instruction phase check conservation homomorphically,
//! without ever learning an amount.

use vstd::arithmetic::div_mod::{
    lemma_add_mod_noop, lemma_mod_bound, lemma_mod_add_multiples_vanish, lemma_small_mod,
};
use vstd::prelude::*;

use crate::field::{
    commit_of, hash_fields, hash_of, pedersen_commit_base, pedersen_commit_u64, r_mod, scalar_add,
    scalar_random, scalar_sub, Base, Point, Scalar,
};
use crate::merkle::{fold_path, leaf_vals, merkle_root_from_path};
use crate::model::{
    ClearInput, EncryptedNote, Input, MoneyTransferParamsV1, Note, Output, PublicKey,
};
use crate::zk::{Proof, ProvingKey};

verus! {

/// The nullifier derived from a secret key and an output's serial: published
/// when the coin is spent, never removed again.
pub open spec fn nullifier_of(secret: nat, serial: nat) -> nat {
    hash_of(seq![secret, serial])
}

/// The coin: the hash commitment over a note's public-affecting fields and
/// the owner key's coordinates.
pub open spec fn coin_of(
    pub_x: nat,
    pub_y: nat,
    value: nat,
    token_id: nat,
    serial: nat,
    spend_hook: nat,
    user_data: nat,
    coin_blind: nat,
) -> nat {
    hash_of(seq![pub_x, pub_y, value, token_id, serial, spend_hook, user_data, coin_blind])
}

/// The blinded user data an input reveals.
pub open spec fn user_data_enc_of(user_data: nat, blind: nat) -> nat {
    hash_of(seq![user_data, blind])
}

/// Derives the nullifier of a coin.
pub fn derive_nullifier(secret: &Base, serial: &Base) -> (r: Base)
    requires
        secret.wf(),
        serial.wf(),
    ensures
        r.wf(),
        r.val() == nullifier_of(secret.val(), serial.val()),
{
    let mut elems: Vec<Base> = Vec::new();
    elems.push(*secret);
    elems.push(*serial);
    let r = hash_fields(&elems);
    proof {
        assert(elems@.map_values(|x: Base| x.val()) =~= seq![secret.val(), serial.val()]);
    }
    r
}

/// Computes the coin of a note owned by a key.
pub fn compute_coin(public: &PublicKey, note: &Note) -> (r: Base)
    requires
        public.wf(),
        note@.wf(),
    ensures
        r.wf(),
        r.val() == coin_of(
            public.x.val(),
            public.y.val(),
            note.value as nat,
            note.token_id.val(),
            note.serial.val(),
            note.spend_hook.val(),
            note.user_data.val(),
            note.coin_blind.val(),
        ),
{
    let value_fe = crate::field::base_from_u64(note.value);
    let mut elems: Vec<Base> = Vec::new();
    elems.push(public.x);
    elems.push(public.y);
    elems.push(value_fe);
    elems.push(note.token_id);
    elems.push(note.serial);
    elems.push(note.spend_hook);
    elems.push(note.user_data);
    elems.push(note.coin_blind);
    let r = hash_fields(&elems);
    proof {
        assert(elems@.map_values(|x: Base| x.val()) =~= seq![
            public.x.val(),
            public.y.val(),
            note.value as nat,
            note.token_id.val(),
            note.serial.val(),
            note.spend_hook.val(),
            note.user_data.val(),
            note.coin_blind.val(),
        ]);
    }
    r
}

/// Computes the blinded user data of an input.
pub fn compute_user_data_enc(user_data: &Base, blind: &Base) -> (r: Base)
    requires
        user_data.wf(),
        blind.wf(),
    ensures
        r.wf(),
        r.val() == user_data_enc_of(user_data.val(), blind.val()),
{
    let mut elems: Vec<Base> = Vec::new();
    elems.push(*user_data);
    elems.push(*blind);
    let r = hash_fields(&elems);
    proof {
        assert(elems@.map_values(|x: Base| x.val()) =~= seq![user_data.val(), blind.val()]);
    }
    r
}

// ---------------------------------------------------------------------------
// Blind accumulation.
// ---------------------------------------------------------------------------

/// Left fold of modular additions, starting from `a0`.
pub open spec fn fold_add(a0: nat, s: Seq<nat>) -> nat
    decreases s.len(),
{
    if s.len() == 0 {
        a0
    } else {
        (fold_add(a0, s.drop_last()) + s.last()) % r_mod()
    }
}

/// Left fold of modular subtractions, starting from `a0`.
pub open spec fn fold_sub(a0: nat, s: Seq<nat>) -> nat
    decreases s.len(),
{
    if s.len() == 0 {
        a0
    } else {
        ((fold_sub(a0, s.drop_last()) + r_mod() - s.last()) % (r_mod() as int)) as nat
    }
}

/// The blind values of a scalar list.
pub open spec fn blind_vals(s: Seq<Scalar>) -> Seq<nat> {
    s.map_values(|b: Scalar| b.val())
}

/// Folding the subtractions back onto the additions cancels: adding a list
/// of blinds and then its fold-subtracted remainder telescopes to the sum
/// that was subtracted from.
pub proof fn lemma_blind_telescoping(total: nat, prior: Seq<nat>)
    requires
        total < r_mod(),
    ensures
        (fold_add(0, prior) + fold_sub(total, prior)) % r_mod() == total,
    decreases prior.len(),
{
    if prior.len() == 0 {
        lemma_small_mod(total, r_mod());
    } else {
        let l = prior.last();
        let x = fold_add(0, prior.drop_last());
        let y = fold_sub(total, prior.drop_last());
        lemma_blind_telescoping(total, prior.drop_last());
        lemma_mod_bound((x + l) as int, r_mod() as int);
        lemma_mod_bound((y + r_mod() - l) as int, r_mod() as int);
        lemma_add_mod_noop((x + l) as int, (y + r_mod() - l) as int, r_mod() as int);
        assert((x + l + (y + r_mod() - l)) == (x + y) + r_mod());
        lemma_mod_add_multiples_vanish((x + y) as int, r_mod() as int);
        lemma_add_mod_noop(x as int, y as int, r_mod() as int);
        lemma_mod_bound(x as int, r_mod() as int);
        lemma_mod_bound(y as int, r_mod() as int);
        lemma_small_mod(x % r_mod(), r_mod());
        lemma_small_mod(y % r_mod(), r_mod());
    }
}

/// Conservation under the commitment homomorphism: whenever the hidden
/// values balance and the blinds telescope, the commitment to what enters
/// equals the commitment to what leaves — for any values, never revealed.
pub proof fn lemma_commitment_conservation(v_in: nat, v_out: nat, b_in: nat, b_out: nat)
    requires
        v_in == v_out,
        b_in % r_mod() == b_out % r_mod(),
    ensures
        commit_of(v_in, b_in) == commit_of(v_out, b_out),
{
}

/// For a fixed (secret, serial) pair the derived nullifier is one value:
/// any two derivations from equal pairs agree.
pub proof fn lemma_nullifier_deterministic(s1: Base, n1: Base, s2: Base, n2: Base)
    requires
        s1.val() == s2.val(),
        n1.val() == n2.val(),
    ensures
        nullifier_of(s1.val(), n1.val()) == nullifier_of(s2.val(), n2.val()),
{
}

/// Two spends of one coin publish one nullifier: any two elements pinned to
/// the nullifier of equal (secret, serial) pairs are the same element — so
/// the second submission meets the duplicate already recorded by the first.
pub proof fn lemma_equal_nullifiers(a: Base, b: Base, s1: Base, n1: Base, s2: Base, n2: Base)
    requires
        a.val() == nullifier_of(s1.val(), n1.val()),
        b.val() == nullifier_of(s2.val(), n2.val()),
        s1.val() == s2.val(),
        n1.val() == n2.val(),
    ensures
        a == b,
{
    crate::field::lemma_base_eq(a, b);
}

/// The plain sum of a value list.
pub open spec fn nat_sum(s: Seq<nat>) -> nat
    decreases s.len(),
{
    if s.len() == 0 {
        0
    } else {
        nat_sum(s.drop_last()) + s.last()
    }
}

/// A fold of modular additions from zero is the plain sum, reduced.
pub proof fn lemma_fold_add_is_mod_sum(s: Seq<nat>)
    ensures
        fold_add(0, s) == nat_sum(s) % r_mod(),
    decreases s.len(),
{
    if s.len() == 0 {
        lemma_small_mod(0, r_mod());
    } else {
        lemma_fold_add_is_mod_sum(s.drop_last());
        let a = nat_sum(s.drop_last());
        let b = s.last();
        vstd::arithmetic::div_mod::lemma_fundamental_div_mod(a as int, r_mod() as int);
        vstd::arithmetic::div_mod::lemma_mod_multiples_vanish(
            (a as int) / (r_mod() as int),
            (a % r_mod() + b) as int,
            r_mod() as int,
        );
        assert((a + b) as int == (r_mod() as int) * ((a as int) / (r_mod() as int)) + (a % r_mod()
            + b) as int);
    }
}

/// The commitments to a value list under a blind list, element by element.
pub open spec fn commit_list(values: Seq<u64>, blinds: Seq<Scalar>) -> Seq<nat> {
    Seq::new(values.len(), |q: int| commit_of(values[q] as nat, blinds[q].val()))
}

/// Conservation in group-sum form, the homomorphic identity the instruction
/// phase checks: whenever the hidden values balance and the blind folds
/// agree (as the remainder blind arranges), the group sum of the entering
/// commitments equals the group sum of the leaving commitments — for every
/// input, with no value revealed.  The returned pair is the two equal sums.
#[verifier::loop_isolation(false)]
pub fn commitment_sums_balance(
    values_in: &Vec<u64>,
    blinds_in: &Vec<Scalar>,
    values_out: &Vec<u64>,
    blinds_out: &Vec<Scalar>,
) -> (r: (Point, Point))
    requires
        values_in@.len() == blinds_in@.len(),
        values_out@.len() == blinds_out@.len(),
        values_in@.len() > 0,
        values_out@.len() > 0,
        forall|q: int| 0 <= q < blinds_in@.len() ==> (#[trigger] blinds_in@[q]).wf(),
        forall|q: int| 0 <= q < blinds_out@.len() ==> (#[trigger] blinds_out@[q]).wf(),
        nat_sum(values_in@.map_values(|v: u64| v as nat)) == nat_sum(
            values_out@.map_values(|v: u64| v as nat),
        ),
        fold_add(0, blind_vals(blinds_in@)) == fold_add(0, blind_vals(blinds_out@)),
    ensures
        r.0 == r.1,
        r.0.val() == crate::entrypoint::pt_sum(commit_list(values_in@, blinds_in@)),
        r.1.val() == crate::entrypoint::pt_sum(commit_list(values_out@, blinds_out@)),
{
    let in_sum = sum_commit_side(values_in, blinds_in);
    let out_sum = sum_commit_side(values_out, blinds_out);
    proof {
        lemma_fold_add_is_mod_sum(blind_vals(blinds_in@));
        lemma_fold_add_is_mod_sum(blind_vals(blinds_out@));
        lemma_commitment_conservation(
            nat_sum(values_in@.map_values(|v: u64| v as nat)),
            nat_sum(values_out@.map_values(|v: u64| v as nat)),
            nat_sum(blind_vals(blinds_in@)),
            nat_sum(blind_vals(blinds_out@)),
        );
        crate::field::lemma_point_eq(in_sum, out_sum);
    }
    (in_sum, out_sum)
}

/// The group sum of one side's commitments; by the homomorphism it is the
/// single commitment to the summed values under the summed blinds.
#[verifier::loop_isolation(false)]
fn sum_commit_side(values: &Vec<u64>, blinds: &Vec<Scalar>) -> (r: Point)
    requires
        values@.len() == blinds@.len(),
        values@.len() > 0,
        forall|q: int| 0 <= q < blinds@.len() ==> (#[trigger] blinds@[q]).wf(),
    ensures
        r.val() == crate::entrypoint::pt_sum(commit_list(values@, blinds@)),
        r.val() == commit_of(
            nat_sum(values@.map_values(|v: u64| v as nat)),
            nat_sum(blind_vals(blinds@)),
        ),
{
    let ghost cl = commit_list(values@, blinds@);
    let ghost vals = values@.map_values(|v: u64| v as nat);
    let ghost bvals = blind_vals(blinds@);
    let mut acc = pedersen_commit_u64(values[0], &blinds[0]);
    proof {
        assert(cl.subrange(0, 1).len() == 1 && cl.subrange(0, 1)[0] == cl[0]);
        assert(vals.subrange(0, 1).drop_last() =~= Seq::<nat>::empty());
        assert(bvals.subrange(0, 1).drop_last() =~= Seq::<nat>::empty());
        assert(nat_sum(Seq::<nat>::empty()) == 0);
        assert(vals.subrange(0, 1).len() == 1 && bvals.subrange(0, 1).len() == 1);
        assert(vals.subrange(0, 1).last() == vals[0] && vals[0] == values@[0] as nat);
        assert(bvals.subrange(0, 1).last() == bvals[0] && bvals[0] == blinds@[0].val());
        assert(nat_sum(vals.subrange(0, 1)) == values@[0] as nat);
        assert(nat_sum(bvals.subrange(0, 1)) == blinds@[0].val());
    }
    let mut k: usize = 1;
    while k < values.len()
        invariant
            1 <= k <= values@.len(),
            cl == commit_list(values@, blinds@),
            vals == values@.map_values(|v: u64| v as nat),
            bvals == blind_vals(blinds@),
            acc.val() == crate::entrypoint::pt_sum(cl.subrange(0, k as int)),
            acc.val() == commit_of(
                nat_sum(vals.subrange(0, k as int)),
                nat_sum(bvals.subrange(0, k as int)),
            ),
        decreases values@.len() - k,
    {
        let next = pedersen_commit_u64(values[k], &blinds[k]);
        let prev = acc;
        acc = crate::field::point_add(&prev, &next);
        proof {
            let pre = cl.subrange(0, k + 1);
            assert(pre.drop_last() =~= cl.subrange(0, k as int));
            assert(pre.last() == cl[k as int]);
            assert(vals.subrange(0, k + 1).drop_last() =~= vals.subrange(0, k as int));
            assert(bvals.subrange(0, k + 1).drop_last() =~= bvals.subrange(0, k as int));
            assert(acc.val() == commit_of(
                nat_sum(vals.subrange(0, k as int)) + values@[k as int] as nat,
                nat_sum(bvals.subrange(0, k as int)) + blinds@[k as int].val(),
            ));
        }
        k = k + 1;
    }
    proof {
        assert(cl.subrange(0, cl.len() as int) =~= cl);
        assert(vals.subrange(0, vals.len() as int) =~= vals);
        assert(bvals.subrange(0, bvals.len() as int) =~= bvals);
    }
    acc
}

// ---------------------------------------------------------------------------
// The transfer builder.
// ---------------------------------------------------------------------------

/// A revealed input of a transfer under construction.
pub struct TransferClearInput {
    pub value: u64,
    pub token_id: Base,
    pub signature_secret: Base,
}

/// An anonymous input of a transfer under construction.
pub struct TransferInput {
    pub leaf_position: u64,
    pub merkle_path: Vec<Base>,
    pub secret: Base,
    pub note: Note,
    pub user_data_blind: Base,
    pub value_blind: Scalar,
    pub signature_secret: Base,
}

/// An output of a transfer under construction.
pub struct TransferOutput {
    pub value: u64,
    pub token_id: Base,
    pub public: PublicKey,
    pub serial: Base,
    pub coin_blind: Base,
    pub spend_hook: Base,
    pub user_data: Base,
}

/// A transfer under construction.
pub struct TransferCall {
    pub clear_inputs: Vec<TransferClearInput>,
    pub inputs: Vec<TransferInput>,
    pub outputs: Vec<TransferOutput>,
}

impl TransferClearInput {
    pub open spec fn wf(self) -> bool {
        self.token_id.wf() && self.signature_secret.wf()
    }
}

impl TransferInput {
    pub open spec fn wf(self) -> bool {
        self.secret.wf() && self.note@.wf() && self.user_data_blind.wf() && self.value_blind.wf()
            && self.signature_secret.wf() && (forall|q: int|
            0 <= q < self.merkle_path@.len() ==> (#[trigger] self.merkle_path@[q]).wf())
    }
}

impl TransferOutput {
    pub open spec fn wf(self) -> bool {
        self.token_id.wf() && self.public.wf() && self.serial.wf() && self.coin_blind.wf()
            && self.spend_hook.wf() && self.user_data.wf()
    }
}

impl TransferCall {
    /// The value-blinding scalar of the last output: the arithmetic
    /// remainder that makes all input and output blinds telescope to zero.
    pub fn compute_remainder_blind(
        clear_inputs: &Vec<ClearInput>,
        input_blinds: &Vec<Scalar>,
        output_blinds: &Vec<Scalar>,
    ) -> (r: Scalar)
        requires
            forall|q: int|
                0 <= q < clear_inputs@.len() ==> (#[trigger] clear_inputs@[q]).value_blind.wf(),
            forall|q: int| 0 <= q < input_blinds@.len() ==> (#[trigger] input_blinds@[q]).wf(),
            forall|q: int| 0 <= q < output_blinds@.len() ==> (#[trigger] output_blinds@[q]).wf(),
        ensures
            r.wf(),
            r.val() == fold_sub(
                fold_add(
                    fold_add(
                        0,
                        blind_vals(
                            clear_inputs@.map_values(|ci: ClearInput| ci.value_blind),
                        ),
                    ),
                    blind_vals(input_blinds@),
                ),
                blind_vals(output_blinds@),
            ),
    {
        let ghost cvals = blind_vals(clear_inputs@.map_values(|ci: ClearInput| ci.value_blind));
        let mut total = crate::field::scalar_from_u64(0);
        let mut k: usize = 0;
        while k < clear_inputs.len()
            invariant
                0 <= k <= clear_inputs@.len(),
                forall|q: int|
                    0 <= q < clear_inputs@.len() ==> (#[trigger] clear_inputs@[q]).value_blind.wf(),
                cvals == blind_vals(clear_inputs@.map_values(|ci: ClearInput| ci.value_blind)),
                cvals.len() == clear_inputs@.len(),
                total.wf(),
                total.val() == fold_add(0, cvals.subrange(0, k as int)),
            decreases clear_inputs@.len() - k,
        {
            total = scalar_add(&total, &clear_inputs[k].value_blind);
            proof {
                let pre = cvals.subrange(0, k + 1);
                assert(pre.drop_last() =~= cvals.subrange(0, k as int));
                assert(pre.last() == cvals[k as int]);
            }
            k = k + 1;
        }
        proof {
            assert(cvals.subrange(0, cvals.len() as int) =~= cvals);
        }
        let ghost a1 = fold_add(0, cvals);
        let ghost ivals = blind_vals(input_blinds@);
        let mut k: usize = 0;
        while k < input_blinds.len()
            invariant
                0 <= k <= input_blinds@.len(),
                forall|q: int| 0 <= q < input_blinds@.len() ==> (#[trigger] input_blinds@[q]).wf(),
                ivals == blind_vals(input_blinds@),
                ivals.len() == input_blinds@.len(),
                total.wf(),
                total.val() == fold_add(a1, ivals.subrange(0, k as int)),
            decreases input_blinds@.len() - k,
        {
            total = scalar_add(&total, &input_blinds[k]);
            proof {
                let pre = ivals.subrange(0, k + 1);
                assert(pre.drop_last() =~= ivals.subrange(0, k as int));
                assert(pre.last() == ivals[k as int]);
            }
            k = k + 1;
        }
        proof {
            assert(ivals.subrange(0, ivals.len() as int) =~= ivals);
        }
        let ghost a2 = fold_add(a1, ivals);
        let ghost ovals = blind_vals(output_blinds@);
        let mut k: usize = 0;
        while k < output_blinds.len()
            invariant
                0 <= k <= output_blinds@.len(),
                forall|q: int|
                    0 <= q < output_blinds@.len() ==> (#[trigger] output_blinds@[q]).wf(),
                ovals == blind_vals(output_blinds@),
                ovals.len() == output_blinds@.len(),
                total.wf(),
                total.val() == fold_sub(a2, ovals.subrange(0, k as int)),
            decreases output_blinds@.len() - k,
        {
            total = scalar_sub(&total, &output_blinds[k]);
            proof {
                let pre = ovals.subrange(0, k + 1);
                assert(pre.drop_last() =~= ovals.subrange(0, k as int));
                assert(pre.last() == ovals[k as int]);
            }
            k = k + 1;
        }
        proof {
            assert(ovals.subrange(0, ovals.len() as int) =~= ovals);
        }
        total
    }

    /// Assembles the call parameters and proofs of a transfer.  Every
    /// commitment, nullifier, coin and membership root is pinned to its
    /// defining formula; the blinds telescope (the fold of the input blinds
    /// equals the fold of the output blinds), which is what the instruction
    /// phase's homomorphic conservation check rests on.
    #[verifier::loop_isolation(false)]
    #[verifier::rlimit(100)]
    pub fn make(self, mint_pk: &ProvingKey, burn_pk: &ProvingKey) -> (r: (
        MoneyTransferParamsV1,
        Vec<Proof>,
    ))
        requires
            self.clear_inputs@.len() + self.inputs@.len() > 0,
            self.outputs@.len() > 0,
            forall|q: int| 0 <= q < self.clear_inputs@.len() ==> (#[trigger] self.clear_inputs@[q]).wf(),
            forall|q: int| 0 <= q < self.inputs@.len() ==> (#[trigger] self.inputs@[q]).wf(),
            forall|q: int| 0 <= q < self.outputs@.len() ==> (#[trigger] self.outputs@[q]).wf(),
        ensures
            ({
                let pv = r.0@;
                let proofs = r.1@;
                let tb = pv.outputs[0].note.payload.token_blind;
                pv.clear_inputs.len() == self.clear_inputs@.len() && pv.inputs.len()
                    == self.inputs@.len() && pv.outputs.len() == self.outputs@.len() && tb.wf() && (
                forall|q: int|
                    0 <= q < pv.clear_inputs.len() ==> {
                        let ci = #[trigger] pv.clear_inputs[q];
                        let src = self.clear_inputs@[q];
                        ci.value == src.value && ci.token_id == src.token_id && ci.value_blind.wf()
                            && ci.token_blind == tb && ci.signature_public.wf()
                            && ci.signature_public.x.val() == crate::model::pubkey_of(
                            src.signature_secret.val(),
                        ).0 && ci.signature_public.y.val() == crate::model::pubkey_of(
                            src.signature_secret.val(),
                        ).1
                    }) && (forall|q: int|
                    0 <= q < pv.inputs.len() ==> {
                        let inp = #[trigger] pv.inputs[q];
                        let src = self.inputs@[q];
                        inp.wf() && inp.nullifier.val() == nullifier_of(
                            src.secret.val(),
                            src.note.serial.val(),
                        ) && inp.merkle_root.val() == fold_path(
                            coin_of(
                                crate::model::pubkey_of(src.secret.val()).0,
                                crate::model::pubkey_of(src.secret.val()).1,
                                src.note.value as nat,
                                src.note.token_id.val(),
                                src.note.serial.val(),
                                src.note.spend_hook.val(),
                                src.note.user_data.val(),
                                src.note.coin_blind.val(),
                            ),
                            src.leaf_position as nat,
                            leaf_vals(src.merkle_path@),
                        ) && inp.value_commit.val() == commit_of(
                            src.note.value as nat,
                            src.value_blind.val(),
                        ) && inp.token_commit.val() == commit_of(
                            src.note.token_id.val(),
                            tb.val(),
                        ) && inp.spend_hook == src.note.spend_hook && inp.user_data_enc.val()
                            == user_data_enc_of(
                            src.note.user_data.val(),
                            src.user_data_blind.val(),
                        ) && inp.signature_public.x.val() == crate::model::pubkey_of(
                            src.signature_secret.val(),
                        ).0 && inp.signature_public.y.val() == crate::model::pubkey_of(
                            src.signature_secret.val(),
                        ).1
                    }) && (forall|q: int|
                    0 <= q < pv.outputs.len() ==> {
                        let out = #[trigger] pv.outputs[q];
                        let src = self.outputs@[q];
                        let nb = out.note.payload.value_blind;
                        out.coin.wf() && nb.wf() && out.coin.val() == coin_of(
                            src.public.x.val(),
                            src.public.y.val(),
                            src.value as nat,
                            src.token_id.val(),
                            src.serial.val(),
                            src.spend_hook.val(),
                            src.user_data.val(),
                            src.coin_blind.val(),
                        ) && out.value_commit.val() == commit_of(src.value as nat, nb.val())
                            && out.token_commit.val() == commit_of(src.token_id.val(), tb.val())
                            && out.note.recipient == src.public && out.note.payload.serial
                            == src.serial && out.note.payload.value == src.value
                            && out.note.payload.token_id == src.token_id
                            && out.note.payload.spend_hook == src.spend_hook
                            && out.note.payload.user_data == src.user_data
                            && out.note.payload.coin_blind == src.coin_blind
                            && out.note.payload.token_blind == tb && out.note.payload.memo.len()
                            == 0
                    }) && fold_add(
                    fold_add(
                        0,
                        blind_vals(pv.clear_inputs.map_values(|ci: ClearInput| ci.value_blind)),
                    ),
                    blind_vals(self.inputs@.map_values(|i: TransferInput| i.value_blind)),
                ) == fold_add(
                    0,
                    blind_vals(
                        pv.outputs.map_values(
                            |o: crate::model::OutputV| o.note.payload.value_blind,
                        ),
                    ),
                ) && proofs.len() == pv.inputs.len() + pv.outputs.len() && (forall|q: int|
                    0 <= q < pv.inputs.len() ==> (#[trigger] proofs[q])@.circuit == burn_pk.circuit
                        && proofs[q]@.publics.len() == 10 && proofs[q]@.publics[0]
                        == pv.inputs[q].nullifier) && (forall|q: int|
                    0 <= q < pv.outputs.len() ==> (#[trigger] proofs[pv.inputs.len() + q])@.circuit
                        == mint_pk.circuit && proofs[pv.inputs.len() + q]@.publics.len() == 5
                        && proofs[pv.inputs.len() + q]@.publics[0] == pv.outputs[q].coin)
            }),
    {
        let mut clear_inputs: Vec<ClearInput> = Vec::new();
        let token_blind = scalar_random();
        let mut k: usize = 0;
        while k < self.clear_inputs.len()
            invariant
                0 <= k <= self.clear_inputs@.len(),
                clear_inputs@.len() == k,
                forall|q: int|
                    0 <= q < k ==> {
                        let ci = #[trigger] clear_inputs@[q];
                        let src = self.clear_inputs@[q];
                        ci.value == src.value && ci.token_id == src.token_id && ci.value_blind.wf()
                            && ci.token_blind == token_blind && ci.signature_public.wf()
                            && ci.signature_public.x.val() == crate::model::pubkey_of(
                            src.signature_secret.val(),
                        ).0 && ci.signature_public.y.val() == crate::model::pubkey_of(
                            src.signature_secret.val(),
                        ).1
                    },
            decreases self.clear_inputs@.len() - k,
        {
            let src = &self.clear_inputs[k];
            let signature_public = PublicKey::from_secret(&src.signature_secret);
            let value_blind = scalar_random();
            clear_inputs.push(
                ClearInput {
                    value: src.value,
                    token_id: src.token_id,
                    value_blind,
                    token_blind,
                    signature_public,
                },
            );
            k = k + 1;
        }

        let mut proofs: Vec<Proof> = Vec::new();
        let mut inputs: Vec<Input> = Vec::new();
        let mut input_blinds: Vec<Scalar> = Vec::new();
        let mut k: usize = 0;
        while k < self.inputs.len()
            invariant
                0 <= k <= self.inputs@.len(),
                inputs@.len() == k,
                input_blinds@.len() == k,
                proofs@.len() == k,
                forall|q: int|
                    0 <= q < k ==> (#[trigger] input_blinds@[q]) == self.inputs@[q].value_blind,
                forall|q: int|
                    0 <= q < k ==> {
                        let inp = #[trigger] inputs@[q];
                        let src = self.inputs@[q];
                        inp.wf() && inp.nullifier.val() == nullifier_of(
                            src.secret.val(),
                            src.note.serial.val(),
                        ) && inp.merkle_root.val() == fold_path(
                            coin_of(
                                crate::model::pubkey_of(src.secret.val()).0,
                                crate::model::pubkey_of(src.secret.val()).1,
                                src.note.value as nat,
                                src.note.token_id.val(),
                                src.note.serial.val(),
                                src.note.spend_hook.val(),
                                src.note.user_data.val(),
                                src.note.coin_blind.val(),
                            ),
                            src.leaf_position as nat,
                            leaf_vals(src.merkle_path@),
                        ) && inp.value_commit.val() == commit_of(
                            src.note.value as nat,
                            src.value_blind.val(),
                        ) && inp.token_commit.val() == commit_of(
                            src.note.token_id.val(),
                            token_blind.val(),
                        ) && inp.spend_hook == src.note.spend_hook && inp.user_data_enc.val()
                            == user_data_enc_of(
                            src.note.user_data.val(),
                            src.user_data_blind.val(),
                        ) && inp.signature_public.x.val() == crate::model::pubkey_of(
                            src.signature_secret.val(),
                        ).0 && inp.signature_public.y.val() == crate::model::pubkey_of(
                            src.signature_secret.val(),
                        ).1
                    },
                forall|q: int|
                    0 <= q < k ==> (#[trigger] proofs@[q])@.circuit == burn_pk.circuit
                        && proofs@[q]@.publics.len() == 10 && proofs@[q]@.publics[0]
                        == inputs@[q].nullifier,
            decreases self.inputs@.len() - k,
        {
            let src = &self.inputs[k];
            let own_public = PublicKey::from_secret(&src.secret);
            let coin = compute_coin(&own_public, &src.note);
            let nullifier = derive_nullifier(&src.secret, &src.note.serial);
            let merkle_root = merkle_root_from_path(&coin, src.leaf_position, &src.merkle_path);
            let value_commit = pedersen_commit_u64(src.note.value, &src.value_blind);
            let token_commit = pedersen_commit_base(&src.note.token_id, &token_blind);
            let user_data_enc = compute_user_data_enc(&src.note.user_data, &src.user_data_blind);
            let signature_public = PublicKey::from_secret(&src.signature_secret);
            let input = Input {
                value_commit,
                token_commit,
                nullifier,
                merkle_root,
                spend_hook: src.note.spend_hook,
                user_data_enc,
                signature_public,
            };
            let (vcx, vcy) = crate::field::point_coords(&value_commit);
            let (tcx, tcy) = crate::field::point_coords(&token_commit);
            let mut publics: Vec<Base> = Vec::new();
            publics.push(nullifier);
            publics.push(vcx);
            publics.push(vcy);
            publics.push(tcx);
            publics.push(tcy);
            publics.push(merkle_root);
            publics.push(input.spend_hook);
            publics.push(user_data_enc);
            publics.push(signature_public.x);
            publics.push(signature_public.y);
            let proof = Proof::create(burn_pk, Vec::new(), &publics);
            proofs.push(proof);
            input_blinds.push(src.value_blind);
            inputs.push(input);
            k = k + 1;
        }

        let mut outputs: Vec<Output> = Vec::new();
        let mut output_blinds: Vec<Scalar> = Vec::new();
        let n_out = self.outputs.len();
        let mut k: usize = 0;
        while k < n_out
            invariant
                0 <= k <= n_out,
                n_out == self.outputs@.len(),
                outputs@.len() == k,
                output_blinds@.len() == k,
                proofs@.len() == self.inputs@.len() + k,
                forall|q: int|
                    0 <= q < k ==> (#[trigger] output_blinds@[q])
                        == outputs@[q]@.note.payload.value_blind,
                forall|q: int| 0 <= q < k ==> (#[trigger] output_blinds@[q]).wf(),
                forall|q: int|
                    0 <= q < k ==> {
                        let out = (#[trigger] outputs@[q])@;
                        let src = self.outputs@[q];
                        let nb = out.note.payload.value_blind;
                        out.coin.wf() && nb.wf() && out.coin.val() == coin_of(
                            src.public.x.val(),
                            src.public.y.val(),
                            src.value as nat,
                            src.token_id.val(),
                            src.serial.val(),
                            src.spend_hook.val(),
                            src.user_data.val(),
                            src.coin_blind.val(),
                        ) && out.value_commit.val() == commit_of(src.value as nat, nb.val())
                            && out.token_commit.val() == commit_of(
                            src.token_id.val(),
                            token_blind.val(),
                        ) && out.note.recipient == src.public && out.note.payload.serial
                            == src.serial && out.note.payload.value == src.value
                            && out.note.payload.token_id == src.token_id
                            && out.note.payload.spend_hook == src.spend_hook
                            && out.note.payload.user_data == src.user_data
                            && out.note.payload.coin_blind == src.coin_blind
                            && out.note.payload.token_blind == token_blind
                            && out.note.payload.memo.len() == 0
                    },
                k == n_out ==> blind_vals(output_blinds@) == blind_vals(
                    output_blinds@.subrange(0, n_out - 1),
                ).push(
                    fold_sub(
                        fold_add(
                            fold_add(
                                0,
                                blind_vals(
                                    clear_inputs@.map_values(|ci: ClearInput| ci.value_blind),
                                ),
                            ),
                            blind_vals(input_blinds@),
                        ),
                        blind_vals(output_blinds@.subrange(0, n_out - 1)),
                    ),
                ),
                forall|q: int|
                    0 <= q < self.inputs@.len() ==> (#[trigger] proofs@[q])@.circuit
                        == burn_pk.circuit && proofs@[q]@.publics.len() == 10
                        && proofs@[q]@.publics[0] == inputs@[q].nullifier,
                forall|q: int|
                    self.inputs@.len() <= q < proofs@.len() ==> (#[trigger] proofs@[q])@.circuit
                        == mint_pk.circuit && proofs@[q]@.publics.len() == 5
                        && proofs@[q]@.publics[0] == outputs@[q - self.inputs@.len()]@.coin,
            decreases n_out - k,
        {
            let src = &self.outputs[k];
            let ghost pre_blinds = output_blinds@;
            let value_blind = if k == n_out - 1 {
                TransferCall::compute_remainder_blind(&clear_inputs, &input_blinds, &output_blinds)
            } else {
                scalar_random()
            };
            let value_commit = pedersen_commit_u64(src.value, &value_blind);
            let token_commit = pedersen_commit_base(&src.token_id, &token_blind);
            let note = Note {
                serial: src.serial,
                value: src.value,
                token_id: src.token_id,
                spend_hook: src.spend_hook,
                user_data: src.user_data,
                coin_blind: src.coin_blind,
                value_blind,
                token_blind,
                memo: Vec::new(),
            };
            let coin = compute_coin(&src.public, &note);
            let encrypted_note = EncryptedNote::encrypt(note, &src.public);
            let output = Output { value_commit, token_commit, coin, note: encrypted_note };
            let (vcx, vcy) = crate::field::point_coords(&value_commit);
            let (tcx, tcy) = crate::field::point_coords(&token_commit);
            let mut publics: Vec<Base> = Vec::new();
            publics.push(coin);
            publics.push(vcx);
            publics.push(vcy);
            publics.push(tcx);
            publics.push(tcy);
            let proof = Proof::create(mint_pk, Vec::new(), &publics);
            proofs.push(proof);
            output_blinds.push(value_blind);
            outputs.push(output);
            proof {
                if k + 1 == n_out {
                    assert(output_blinds@.subrange(0, n_out - 1) =~= pre_blinds);
                    assert(blind_vals(output_blinds@) =~= blind_vals(pre_blinds).push(
                        value_blind.val(),
                    ));
                }
            }
            k = k + 1;
        }
        proof {
            let prior = blind_vals(output_blinds@.subrange(0, n_out - 1));
            let total = fold_add(
                fold_add(
                    0,
                    blind_vals(clear_inputs@.map_values(|ci: ClearInput| ci.value_blind)),
                ),
                blind_vals(input_blinds@),
            );
            if blind_vals(output_blinds@).len() > 0 {
                assert(blind_vals(output_blinds@).drop_last() =~= prior);
            }
            lemma_fold_add_bound(
                0,
                blind_vals(clear_inputs@.map_values(|ci: ClearInput| ci.value_blind)),
            );
            lemma_fold_add_bound(
                fold_add(
                    0,
                    blind_vals(clear_inputs@.map_values(|ci: ClearInput| ci.value_blind)),
                ),
                blind_vals(input_blinds@),
            );
            lemma_blind_telescoping(total, prior);
            lemma_small_mod(total, r_mod());
            assert(fold_add(0, blind_vals(output_blinds@)) == total);
        }
        let params = MoneyTransferParamsV1 { clear_inputs, inputs, outputs };
        proof {
            assert(blind_vals(
                params@.outputs.map_values(|o: crate::model::OutputV| o.note.payload.value_blind),
            ) =~= blind_vals(output_blinds@));
            assert(blind_vals(params@.clear_inputs.map_values(|ci: ClearInput| ci.value_blind))
                =~= blind_vals(params.clear_inputs@.map_values(|ci: ClearInput| ci.value_blind)));
            assert(blind_vals(self.inputs@.map_values(|i: TransferInput| i.value_blind))
                =~= blind_vals(input_blinds@));
        }
        (params, proofs)
    }
}

/// A fold of modular additions from a reduced start stays reduced.
pub proof fn lemma_fold_add_bound(a0: nat, s: Seq<nat>)
    requires
        a0 < r_mod(),
    ensures
        fold_add(a0, s) < r_mod(),
    decreases s.len(),
{
    if s.len() > 0 {
        lemma_fold_add_bound(a0, s.drop_last());
        lemma_mod_bound((fold_add(a0, s.drop_last()) + s.last()) as int, r_mod() as int);
    }
}

} // verus!
