//! The per-call validation/state-transition pipeline of the money contract.
//!
//! Each contract function runs in three phases, in this order and never
//! reordered: metadata extraction (a pure function of call data),
//! instruction validation (read-only against a store snapshot and the
//! sibling calls), and update application (mutates the store, assuming the
//! update was validated).  Any failed check rejects the whole transaction;
//! nothing is written before the update phase.

use vstd::prelude::*;

use crate::field::{
    base_from_u64, commit_of, pedersen_commit_base, pedersen_commit_u64, point_add, point_add_of,
    Base, Point,
};
use crate::model::{
    calls_view, ClearInput, ContractCall, ContractCallV, ContractError, Input, MoneyError,
    MoneyTransferParamsV1, MoneyTransferParamsV1V, MoneyTransferUpdateV1, MoneyTransferUpdateV1V,
    MoneyUnstakeParamsV1, MoneyUnstakeUpdateV1, OutputV, PublicKey,
};
use crate::store::{contains, old_leaves_of, Blockchain, RowV, TreeSlotV};

verus! {

/// The native token identifier.
pub open spec fn dark_token_id_val() -> nat {
    1
}

/// The native token identifier, as a field element.
pub fn dark_token_id() -> (r: Base)
    ensures
        r.val() == dark_token_id_val(),
        r.wf(),
{
    base_from_u64(1)
}

/// The money contract's identifier.
pub open spec fn money_contract_id_spec() -> Base {
    Base::from_limbs(2, 0, 0, 0)
}

/// The money contract's identifier, as a field element.
pub fn money_contract_id() -> (r: Base)
    ensures
        r == money_contract_id_spec(),
        r.wf(),
{
    let r = base_from_u64(2);
    proof {
        crate::field::lemma_base_from_limbs_val(2, 0, 0, 0);
        crate::field::lemma_base_eq(r, money_contract_id_spec());
    }
    r
}

/// The consensus contract's identifier.
pub open spec fn consensus_contract_id_spec() -> Base {
    Base::from_limbs(3, 0, 0, 0)
}

/// The consensus contract's identifier, as a field element.
pub fn consensus_contract_id() -> (r: Base)
    ensures
        r == consensus_contract_id_spec(),
        r.wf(),
{
    let r = base_from_u64(3);
    proof {
        crate::field::lemma_base_from_limbs_val(3, 0, 0, 0);
        crate::field::lemma_base_eq(r, consensus_contract_id_spec());
    }
    r
}

/// Table tag: the money contract's coin set.
pub open spec fn money_coins_table() -> Seq<u8> {
    seq![1u8]
}

/// Table tag: the money contract's merkle-root history.
pub open spec fn money_coin_roots_table() -> Seq<u8> {
    seq![2u8]
}

/// Table tag: the money contract's nullifier set.
pub open spec fn money_nullifiers_table() -> Seq<u8> {
    seq![3u8]
}

/// Tree tag: the money contract's coin tree.
pub open spec fn money_coin_merkle_tree() -> Seq<u8> {
    seq![4u8]
}

/// Table tag: the consensus contract's merkle-root history.
pub open spec fn consensus_coin_roots_table() -> Seq<u8> {
    seq![6u8]
}

/// Table tag: the consensus contract's nullifier set.
pub open spec fn consensus_nullifiers_table() -> Seq<u8> {
    seq![7u8]
}

/// One-byte table tag as a vector.
pub fn table_tag(tag: u8) -> (r: Vec<u8>)
    ensures
        r@ == seq![tag],
{
    let mut v: Vec<u8> = Vec::new();
    v.push(tag);
    proof {
        assert(v@ =~= seq![tag]);
    }
    v
}

/// What the verifier needs for one call: the circuit/public-input pairs of
/// the proofs to check, and the keys of the signatures to check.
pub struct CallMetadata {
    pub zk_public_inputs: Vec<(u64, Vec<Base>)>,
    pub signature_pubkeys: Vec<PublicKey>,
}

// ---------------------------------------------------------------------------
// Unstake.
// ---------------------------------------------------------------------------

/// The whole instruction phase of an unstake, as a function of the call
/// data, the call list and the store snapshot.  Checks, in order: the burnt
/// token is the native one; the output's value commitment equals the
/// input's; the input's membership root is in the consensus root history;
/// the input's nullifier was not recorded; the previous call exists, is the
/// consensus contract's matching function, reports the same input, and that
/// input's spend hook names the consensus contract; a further spend hook, if
/// set, names the next call's contract; and the new coin does not exist yet.
pub open spec fn unstake_instruction_spec(
    cid: Base,
    call_idx: u32,
    calls: Seq<ContractCallV>,
    rows: Seq<RowV>,
) -> Result<MoneyUnstakeUpdateV1, ContractError> {
    if call_idx as int >= calls.len() {
        Err(ContractError::CallIndexOutOfBounds)
    } else {
        match MoneyUnstakeParamsV1::dec_at(calls[call_idx as int].params, 0) {
            None => Err(ContractError::DecodeFailed),
            Some((p, _)) => {
                if p.output.token_commit.val() != commit_of(
                    dark_token_id_val(),
                    p.token_blind.val(),
                ) {
                    Err(ContractError::Money(MoneyError::StakeInputNonNativeToken))
                } else if p.output.value_commit != p.input.value_commit {
                    Err(ContractError::Money(MoneyError::ValueMismatch))
                } else if !contains(
                    rows,
                    consensus_contract_id_spec(),
                    consensus_coin_roots_table(),
                    p.input.merkle_root.enc(),
                ) {
                    Err(ContractError::Money(MoneyError::TransferMerkleRootNotFound))
                } else if contains(
                    rows,
                    consensus_contract_id_spec(),
                    consensus_nullifiers_table(),
                    p.input.nullifier.enc(),
                ) {
                    Err(ContractError::Money(MoneyError::DuplicateNullifier))
                } else if call_idx == 0 {
                    Err(ContractError::Money(MoneyError::SpendHookOutOfBounds))
                } else if calls[call_idx - 1].contract_id != consensus_contract_id_spec() {
                    Err(ContractError::Money(MoneyError::UnstakePreviousCallNotConsensusContract))
                } else if calls[call_idx - 1].func != 0x02 {
                    Err(ContractError::Money(MoneyError::PreviousCallFunctionMismatch))
                } else {
                    match crate::model::ConsensusUnstakeParamsV1::dec_at(
                        calls[call_idx - 1].params,
                        0,
                    ) {
                        None => Err(ContractError::DecodeFailed),
                        Some((pp, _)) => {
                            if pp.input != p.input {
                                Err(ContractError::Money(MoneyError::PreviousCallInputMismatch))
                            } else if pp.input.spend_hook != consensus_contract_id_spec() {
                                Err(ContractError::Money(MoneyError::SpendHookMismatch))
                            } else if p.spend_hook.val() != 0 && call_idx + 1 >= calls.len() {
                                Err(ContractError::Money(MoneyError::SpendHookOutOfBounds))
                            } else if p.spend_hook.val() != 0 && calls[call_idx + 1].contract_id
                                != p.spend_hook {
                                Err(ContractError::Money(MoneyError::SpendHookMismatch))
                            } else if contains(
                                rows,
                                cid,
                                money_coins_table(),
                                p.output.coin.enc(),
                            ) {
                                Err(ContractError::Money(MoneyError::DuplicateCoin))
                            } else {
                                Ok(MoneyUnstakeUpdateV1 { coin: p.output.coin })
                            }
                        },
                    }
                }
            },
        }
    }
}

/// Metadata phase of an unstake: the one mint statement over the fresh
/// output, and the input's signature key.  A pure function of call data.
pub fn money_unstake_get_metadata_v1(cid: &Base, call_idx: u32, calls: &Vec<ContractCall>) -> (r:
    Result<CallMetadata, ContractError>)
    ensures
        r is Ok <==> ((call_idx as int) < calls@.len() && MoneyUnstakeParamsV1::dec_at(
            calls_view(calls@)[call_idx as int].params,
            0,
        ) is Some),
        r is Ok ==> ({
            let p = MoneyUnstakeParamsV1::dec_at(
                calls_view(calls@)[call_idx as int].params,
                0,
            )->Some_0.0;
            let m = r->Ok_0;
            m.zk_public_inputs@.len() == 1 && m.zk_public_inputs@[0].0
                == crate::zk::MONEY_ZKAS_MINT_NS_V1 && m.zk_public_inputs@[0].1@.len() == 5
                && m.zk_public_inputs@[0].1@[0] == p.output.coin && m.zk_public_inputs@[0].1@[1].val()
                == crate::field::coords_of(p.output.value_commit.val()).0
                && m.zk_public_inputs@[0].1@[2].val() == crate::field::coords_of(
                p.output.value_commit.val(),
            ).1 && m.zk_public_inputs@[0].1@[3].val() == crate::field::coords_of(
                p.output.token_commit.val(),
            ).0 && m.zk_public_inputs@[0].1@[4].val() == crate::field::coords_of(
                p.output.token_commit.val(),
            ).1 && m.signature_pubkeys@ == seq![p.input.signature_public]
        }),
        r is Err ==> (r->Err_0 == ContractError::CallIndexOutOfBounds <==> call_idx as int
            >= calls@.len()),
{
    let _ = cid;
    if call_idx as usize >= calls.len() {
        return Err(ContractError::CallIndexOutOfBounds);
    }
    let this_call = &calls[call_idx as usize];
    proof {
        assert(calls_view(calls@)[call_idx as int] == calls@[call_idx as int]@);
    }
    let params = match MoneyUnstakeParamsV1::decode(&this_call.params, 0) {
        Some(v) => v.0,
        None => { return Err(ContractError::DecodeFailed) },
    };
    let (vcx, vcy) = crate::field::point_coords(&params.output.value_commit);
    let (tcx, tcy) = crate::field::point_coords(&params.output.token_commit);
    let mut publics: Vec<Base> = Vec::new();
    publics.push(params.output.coin);
    publics.push(vcx);
    publics.push(vcy);
    publics.push(tcx);
    publics.push(tcy);
    let mut zk_public_inputs: Vec<(u64, Vec<Base>)> = Vec::new();
    zk_public_inputs.push((crate::zk::MONEY_ZKAS_MINT_NS_V1, publics));
    let mut signature_pubkeys: Vec<PublicKey> = Vec::new();
    signature_pubkeys.push(params.input.signature_public);
    proof {
        assert(signature_pubkeys@ =~= seq![
            MoneyUnstakeParamsV1::dec_at(
                calls_view(calls@)[call_idx as int].params,
                0,
            )->Some_0.0.input.signature_public,
        ]);
    }
    Ok(CallMetadata { zk_public_inputs, signature_pubkeys })
}

/// Instruction phase of an unstake: validates the call against the snapshot
/// and the sibling calls, and returns the encoded update on success.  Never
/// mutates state; the result is the spec function of its inputs above.
pub fn money_unstake_process_instruction_v1(
    cid: &Base,
    call_idx: u32,
    calls: &Vec<ContractCall>,
    store: &Blockchain,
) -> (r: Result<Vec<u8>, ContractError>)
    ensures
        ({
            let spec_r = unstake_instruction_spec(
                *cid,
                call_idx,
                calls_view(calls@),
                store.contracts.rows_v(),
            );
            (r is Err ==> spec_r == Err::<MoneyUnstakeUpdateV1, ContractError>(r->Err_0)) && (
            r is Ok ==> spec_r is Ok && r->Ok_0@ == seq![0x06u8] + spec_r->Ok_0.enc())
        }),
{
    let ghost cs = calls_view(calls@);
    let ghost rows = store.contracts.rows_v();
    if call_idx as usize >= calls.len() {
        return Err(ContractError::CallIndexOutOfBounds);
    }
    let this_call = &calls[call_idx as usize];
    proof {
        assert(cs[call_idx as int] == calls@[call_idx as int]@);
    }
    let params = match MoneyUnstakeParamsV1::decode(&this_call.params, 0) {
        Some(v) => v.0,
        None => { return Err(ContractError::DecodeFailed) },
    };
    let ghost p = MoneyUnstakeParamsV1::dec_at(cs[call_idx as int].params, 0)->Some_0.0;
    let consensus_id = consensus_contract_id();
    let dark = dark_token_id();

    // Only the native token can be unstaked.
    let expected_token = pedersen_commit_base(&dark, &params.token_blind);
    proof {
        crate::field::lemma_point_eq(params.output.token_commit, expected_token);
    }
    if params.output.token_commit != expected_token {
        return Err(ContractError::Money(MoneyError::StakeInputNonNativeToken));
    }

    // The value commitments must match.
    if params.output.value_commit != params.input.value_commit {
        return Err(ContractError::Money(MoneyError::ValueMismatch));
    }

    // The membership root must be a historical consensus root.
    let mut root_key: Vec<u8> = Vec::new();
    params.input.merkle_root.encode(&mut root_key);
    if !store.contracts.contains_key(&consensus_id, &table_tag(6), &root_key) {
        return Err(ContractError::Money(MoneyError::TransferMerkleRootNotFound));
    }

    // The nullifier must not have been recorded.
    let mut nf_key: Vec<u8> = Vec::new();
    params.input.nullifier.encode(&mut nf_key);
    if store.contracts.contains_key(&consensus_id, &table_tag(7), &nf_key) {
        return Err(ContractError::Money(MoneyError::DuplicateNullifier));
    }

    // The previous call must be the consensus contract's matching half.
    if call_idx == 0 {
        return Err(ContractError::Money(MoneyError::SpendHookOutOfBounds));
    }
    let previous = &calls[(call_idx - 1) as usize];
    proof {
        assert(cs[call_idx - 1] == calls@[call_idx - 1]@);
    }
    if previous.contract_id != consensus_id {
        return Err(ContractError::Money(MoneyError::UnstakePreviousCallNotConsensusContract));
    }
    if previous.func != 0x02 {
        return Err(ContractError::Money(MoneyError::PreviousCallFunctionMismatch));
    }
    let prev_params = match crate::model::ConsensusUnstakeParamsV1::decode(&previous.params, 0) {
        Some(v) => v.0,
        None => { return Err(ContractError::DecodeFailed) },
    };
    if prev_params.input != params.input {
        return Err(ContractError::Money(MoneyError::PreviousCallInputMismatch));
    }
    if prev_params.input.spend_hook != consensus_id {
        return Err(ContractError::Money(MoneyError::SpendHookMismatch));
    }

    // A further spend hook, if set, must name the next call's contract.
    let zero = base_from_u64(0);
    proof {
        crate::field::lemma_base_eq(params.spend_hook, zero);
    }
    if params.spend_hook != zero {
        if call_idx as usize + 1 >= calls.len() {
            return Err(ContractError::Money(MoneyError::SpendHookOutOfBounds));
        }
        let next = &calls[call_idx as usize + 1];
        proof {
            assert(cs[call_idx + 1] == calls@[call_idx + 1]@);
        }
        if next.contract_id != params.spend_hook {
            return Err(ContractError::Money(MoneyError::SpendHookMismatch));
        }
    }

    // The fresh coin must not exist yet.
    let mut coin_key: Vec<u8> = Vec::new();
    params.output.coin.encode(&mut coin_key);
    if store.contracts.contains_key(cid, &table_tag(1), &coin_key) {
        return Err(ContractError::Money(MoneyError::DuplicateCoin));
    }

    let update = MoneyUnstakeUpdateV1 { coin: params.output.coin };
    let mut update_data: Vec<u8> = Vec::new();
    update_data.push(0x06);
    update.encode(&mut update_data);
    proof {
        assert(update_data@ =~= seq![0x06u8] + unstake_instruction_spec(
            *cid,
            call_idx,
            cs,
            rows,
        )->Ok_0.enc());
    }
    Ok(update_data)
}

// ---------------------------------------------------------------------------
// Transfer.
// ---------------------------------------------------------------------------

/// The first membership failure among the anonymous inputs, scanning from
/// index `i`: each input's root must be historical and its nullifier unseen.
pub open spec fn first_input_error(cid: Base, rows: Seq<RowV>, inputs: Seq<Input>, i: int) -> Option<
    MoneyError,
>
    decreases inputs.len() - i,
{
    if i < 0 || i >= inputs.len() {
        None
    } else if !contains(rows, cid, money_coin_roots_table(), inputs[i].merkle_root.enc()) {
        Some(MoneyError::TransferMerkleRootNotFound)
    } else if contains(rows, cid, money_nullifiers_table(), inputs[i].nullifier.enc()) {
        Some(MoneyError::DuplicateNullifier)
    } else {
        first_input_error(cid, rows, inputs, i + 1)
    }
}

/// The first freshness failure among the outputs, scanning from index `i`:
/// each output's coin must not exist yet.
pub open spec fn first_output_error(cid: Base, rows: Seq<RowV>, outputs: Seq<OutputV>, i: int) -> Option<
    MoneyError,
>
    decreases outputs.len() - i,
{
    if i < 0 || i >= outputs.len() {
        None
    } else if contains(rows, cid, money_coins_table(), outputs[i].coin.enc()) {
        Some(MoneyError::DuplicateCoin)
    } else {
        first_output_error(cid, rows, outputs, i + 1)
    }
}

/// All token commitments agree: the anonymous inputs and the outputs carry
/// one commitment, and each clear input's token opens to it under its blind.
pub open spec fn token_commits_consistent(p: MoneyTransferParamsV1V) -> bool {
    let tc = p.outputs[0].token_commit;
    (forall|q: int| 0 <= q < p.outputs.len() ==> (#[trigger] p.outputs[q]).token_commit == tc) && (
    forall|q: int| 0 <= q < p.inputs.len() ==> (#[trigger] p.inputs[q]).token_commit == tc) && (
    forall|q: int|
        0 <= q < p.clear_inputs.len() ==> commit_of(
            (#[trigger] p.clear_inputs[q]).token_id.val(),
            p.clear_inputs[q].token_blind.val(),
        ) == tc.val())
}

/// The group sum of a non-empty list of point encodings, left to right.
pub open spec fn pt_sum(s: Seq<nat>) -> nat
    recommends
        s.len() > 0,
    decreases s.len(),
{
    if s.len() <= 1 {
        if s.len() == 1 {
            s[0]
        } else {
            0
        }
    } else {
        point_add_of(pt_sum(s.drop_last()), s.last())
    }
}

/// The value commitments entering a transfer: one opening commitment per
/// clear input, then the anonymous inputs' commitments.
pub open spec fn transfer_input_commits(p: MoneyTransferParamsV1V) -> Seq<nat> {
    p.clear_inputs.map_values(|ci: ClearInput| commit_of(ci.value as nat, ci.value_blind.val()))
        + p.inputs.map_values(|i: Input| i.value_commit.val())
}

/// The value commitments leaving a transfer.
pub open spec fn transfer_output_commits(p: MoneyTransferParamsV1V) -> Seq<nat> {
    p.outputs.map_values(|o: OutputV| o.value_commit.val())
}

/// The homomorphic conservation check: the group sum of what enters equals
/// the group sum of what leaves, without revealing any amount.
pub open spec fn value_conserved(p: MoneyTransferParamsV1V) -> bool {
    pt_sum(transfer_input_commits(p)) == pt_sum(transfer_output_commits(p))
}

/// The whole instruction phase of a transfer, as a function of the call
/// data, the call list and the store snapshot.  Checks, in order: some input
/// and some output exist; every anonymous input's root is historical and its
/// nullifier unseen; every output's coin is fresh; the token commitments
/// agree; and the value-commitment algebra balances.
pub open spec fn transfer_instruction_spec(
    cid: Base,
    call_idx: u32,
    calls: Seq<ContractCallV>,
    rows: Seq<RowV>,
) -> Result<MoneyTransferUpdateV1V, ContractError> {
    if call_idx as int >= calls.len() {
        Err(ContractError::CallIndexOutOfBounds)
    } else {
        match MoneyTransferParamsV1::dec_at(calls[call_idx as int].params, 0) {
            None => Err(ContractError::DecodeFailed),
            Some((p, _)) => {
                if p.clear_inputs.len() + p.inputs.len() == 0 {
                    Err(ContractError::Money(MoneyError::TransferMissingInputs))
                } else if p.outputs.len() == 0 {
                    Err(ContractError::Money(MoneyError::TransferMissingOutputs))
                } else if first_input_error(cid, rows, p.inputs, 0) is Some {
                    Err(ContractError::Money(first_input_error(cid, rows, p.inputs, 0)->0))
                } else if first_output_error(cid, rows, p.outputs, 0) is Some {
                    Err(ContractError::Money(first_output_error(cid, rows, p.outputs, 0)->0))
                } else if !token_commits_consistent(p) {
                    Err(ContractError::Money(MoneyError::TokenMismatch))
                } else if !value_conserved(p) {
                    Err(ContractError::Money(MoneyError::ValueMismatch))
                } else {
                    Ok(
                        MoneyTransferUpdateV1V {
                            nullifiers: p.inputs.map_values(|i: Input| i.nullifier),
                            coins: p.outputs.map_values(|o: OutputV| o.coin),
                        },
                    )
                }
            },
        }
    }
}

/// Instruction phase of a transfer.  Never mutates state; the result is the
/// spec function of its inputs above, so re-validating an unchanged snapshot
/// gives the identical outcome.
#[verifier::loop_isolation(false)]
#[verifier::rlimit(100)]
pub fn money_transfer_process_instruction_v1(
    cid: &Base,
    call_idx: u32,
    calls: &Vec<ContractCall>,
    store: &Blockchain,
) -> (r: Result<Vec<u8>, ContractError>)
    ensures
        ({
            let spec_r = transfer_instruction_spec(
                *cid,
                call_idx,
                calls_view(calls@),
                store.contracts.rows_v(),
            );
            (r is Err ==> spec_r == Err::<MoneyTransferUpdateV1V, ContractError>(r->Err_0)) && (
            r is Ok ==> spec_r is Ok && r->Ok_0@ == seq![0x00u8] + spec_r->Ok_0.enc())
        }),
{
    let ghost cs = calls_view(calls@);
    let ghost rows = store.contracts.rows_v();
    if call_idx as usize >= calls.len() {
        return Err(ContractError::CallIndexOutOfBounds);
    }
    let this_call = &calls[call_idx as usize];
    proof {
        assert(cs[call_idx as int] == calls@[call_idx as int]@);
    }
    let params = match MoneyTransferParamsV1::decode(&this_call.params, 0) {
        Some(v) => v.0,
        None => { return Err(ContractError::DecodeFailed) },
    };
    let ghost p = MoneyTransferParamsV1::dec_at(cs[call_idx as int].params, 0)->Some_0.0;

    if params.clear_inputs.len() == 0 && params.inputs.len() == 0 {
        return Err(ContractError::Money(MoneyError::TransferMissingInputs));
    }
    if params.outputs.len() == 0 {
        return Err(ContractError::Money(MoneyError::TransferMissingOutputs));
    }

    // Membership and double-spend checks, input by input.
    let mut k: usize = 0;
    while k < params.inputs.len()
        invariant
            0 <= k <= params.inputs@.len(),
            p.inputs == params.inputs@,
            rows == store.contracts.rows_v(),
            first_input_error(*cid, rows, p.inputs, 0) == first_input_error(
                *cid,
                rows,
                p.inputs,
                k as int,
            ),
        decreases params.inputs@.len() - k,
    {
        let input = &params.inputs[k];
        let mut root_key: Vec<u8> = Vec::new();
        input.merkle_root.encode(&mut root_key);
        if !store.contracts.contains_key(cid, &table_tag(2), &root_key) {
            return Err(ContractError::Money(MoneyError::TransferMerkleRootNotFound));
        }
        let mut nf_key: Vec<u8> = Vec::new();
        input.nullifier.encode(&mut nf_key);
        if store.contracts.contains_key(cid, &table_tag(3), &nf_key) {
            return Err(ContractError::Money(MoneyError::DuplicateNullifier));
        }
        k = k + 1;
    }

    // Freshness checks, output by output.
    let mut k: usize = 0;
    while k < params.outputs.len()
        invariant
            0 <= k <= params.outputs@.len(),
            p.outputs == crate::model::outputs_view(params.outputs@),
            p.outputs.len() == params.outputs@.len(),
            rows == store.contracts.rows_v(),
            first_output_error(*cid, rows, p.outputs, 0) == first_output_error(
                *cid,
                rows,
                p.outputs,
                k as int,
            ),
        decreases params.outputs@.len() - k,
    {
        let output = &params.outputs[k];
        proof {
            assert(p.outputs[k as int] == params.outputs@[k as int]@);
        }
        let mut coin_key: Vec<u8> = Vec::new();
        output.coin.encode(&mut coin_key);
        if store.contracts.contains_key(cid, &table_tag(1), &coin_key) {
            return Err(ContractError::Money(MoneyError::DuplicateCoin));
        }
        k = k + 1;
    }

    // The token commitments must all agree.
    let reference = params.outputs[0].token_commit;
    proof {
        assert(p.outputs[0] == params.outputs@[0]@);
    }
    let mut k: usize = 0;
    while k < params.outputs.len()
        invariant
            0 <= k <= params.outputs@.len(),
            p.outputs == crate::model::outputs_view(params.outputs@),
            p.outputs.len() == params.outputs@.len(),
            reference == p.outputs[0].token_commit,
            forall|q: int| 0 <= q < k ==> (#[trigger] p.outputs[q]).token_commit == reference,
        decreases params.outputs@.len() - k,
    {
        proof {
            assert(p.outputs[k as int] == params.outputs@[k as int]@);
        }
        if params.outputs[k].token_commit != reference {
            return Err(ContractError::Money(MoneyError::TokenMismatch));
        }
        k = k + 1;
    }
    let mut k: usize = 0;
    while k < params.inputs.len()
        invariant
            0 <= k <= params.inputs@.len(),
            p.inputs == params.inputs@,
            forall|q: int| 0 <= q < k ==> (#[trigger] p.inputs[q]).token_commit == reference,
        decreases params.inputs@.len() - k,
    {
        if params.inputs[k].token_commit != reference {
            return Err(ContractError::Money(MoneyError::TokenMismatch));
        }
        k = k + 1;
    }
    let mut k: usize = 0;
    while k < params.clear_inputs.len()
        invariant
            0 <= k <= params.clear_inputs@.len(),
            p.clear_inputs == params.clear_inputs@,
            forall|q: int|
                0 <= q < p.clear_inputs.len() ==> (#[trigger] p.clear_inputs[q]).wf(),
            forall|q: int|
                0 <= q < k ==> commit_of(
                    (#[trigger] p.clear_inputs[q]).token_id.val(),
                    p.clear_inputs[q].token_blind.val(),
                ) == reference.val(),
        decreases params.clear_inputs@.len() - k,
    {
        let ci = &params.clear_inputs[k];
        let open_commit = pedersen_commit_base(&ci.token_id, &ci.token_blind);
        proof {
            crate::field::lemma_point_eq(open_commit, reference);
        }
        if open_commit != reference {
            return Err(ContractError::Money(MoneyError::TokenMismatch));
        }
        k = k + 1;
    }
    proof {
        assert(token_commits_consistent(p));
    }

    // The value-commitment algebra must balance.
    let mut terms: Vec<Point> = Vec::new();
    let mut k: usize = 0;
    while k < params.clear_inputs.len()
        invariant
            0 <= k <= params.clear_inputs@.len(),
            p.clear_inputs == params.clear_inputs@,
            forall|q: int|
                0 <= q < p.clear_inputs.len() ==> (#[trigger] p.clear_inputs[q]).wf(),
            terms@.len() == k,
            forall|q: int|
                0 <= q < k ==> (#[trigger] terms@[q]).val() == commit_of(
                    p.clear_inputs[q].value as nat,
                    p.clear_inputs[q].value_blind.val(),
                ),
        decreases params.clear_inputs@.len() - k,
    {
        let ci = &params.clear_inputs[k];
        terms.push(pedersen_commit_u64(ci.value, &ci.value_blind));
        k = k + 1;
    }
    let mut k: usize = 0;
    while k < params.inputs.len()
        invariant
            0 <= k <= params.inputs@.len(),
            p.inputs == params.inputs@,
            terms@.len() == p.clear_inputs.len() + k,
            forall|q: int|
                0 <= q < p.clear_inputs.len() ==> (#[trigger] terms@[q]).val() == commit_of(
                    p.clear_inputs[q].value as nat,
                    p.clear_inputs[q].value_blind.val(),
                ),
            forall|q: int|
                p.clear_inputs.len() <= q < p.clear_inputs.len() + k ==> (#[trigger] terms@[q]).val()
                    == p.inputs[q - p.clear_inputs.len()].value_commit.val(),
        decreases params.inputs@.len() - k,
    {
        terms.push(params.inputs[k].value_commit);
        k = k + 1;
    }
    proof {
        assert forall|q: int| 0 <= q < terms@.len() implies (#[trigger] terms@[q]).val()
            == transfer_input_commits(p)[q] by {}
        assert(terms@.map_values(|t: Point| t.val()) =~= transfer_input_commits(p));
    }
    let in_sum = sum_points(&terms);
    let mut out_terms: Vec<Point> = Vec::new();
    let mut k: usize = 0;
    while k < params.outputs.len()
        invariant
            0 <= k <= params.outputs@.len(),
            p.outputs == crate::model::outputs_view(params.outputs@),
            p.outputs.len() == params.outputs@.len(),
            out_terms@.len() == k,
            forall|q: int|
                0 <= q < k ==> (#[trigger] out_terms@[q]).val() == p.outputs[q].value_commit.val(),
        decreases params.outputs@.len() - k,
    {
        proof {
            assert(p.outputs[k as int] == params.outputs@[k as int]@);
        }
        out_terms.push(params.outputs[k].value_commit);
        k = k + 1;
    }
    proof {
        assert(out_terms@.map_values(|t: Point| t.val()) =~= transfer_output_commits(p));
    }
    let out_sum = sum_points(&out_terms);
    proof {
        crate::field::lemma_point_eq(in_sum, out_sum);
    }
    if in_sum != out_sum {
        return Err(ContractError::Money(MoneyError::ValueMismatch));
    }

    // Gather the state update: the spent nullifiers and the fresh coins.
    let mut nullifiers: Vec<Base> = Vec::new();
    let mut k: usize = 0;
    while k < params.inputs.len()
        invariant
            0 <= k <= params.inputs@.len(),
            p.inputs == params.inputs@,
            nullifiers@.len() == k,
            forall|q: int| 0 <= q < k ==> nullifiers@[q] == (#[trigger] p.inputs[q]).nullifier,
        decreases params.inputs@.len() - k,
    {
        nullifiers.push(params.inputs[k].nullifier);
        k = k + 1;
    }
    let mut coins: Vec<Base> = Vec::new();
    let mut k: usize = 0;
    while k < params.outputs.len()
        invariant
            0 <= k <= params.outputs@.len(),
            p.outputs == crate::model::outputs_view(params.outputs@),
            p.outputs.len() == params.outputs@.len(),
            coins@.len() == k,
            forall|q: int| 0 <= q < k ==> coins@[q] == (#[trigger] p.outputs[q]).coin,
        decreases params.outputs@.len() - k,
    {
        proof {
            assert(p.outputs[k as int] == params.outputs@[k as int]@);
        }
        coins.push(params.outputs[k].coin);
        k = k + 1;
    }
    let update = MoneyTransferUpdateV1 { nullifiers, coins };
    proof {
        assert(update@.nullifiers =~= p.inputs.map_values(|i: Input| i.nullifier));
        assert(update@.coins =~= p.outputs.map_values(|o: OutputV| o.coin));
    }
    let mut update_data: Vec<u8> = Vec::new();
    update_data.push(0x00);
    update.encode(&mut update_data);
    proof {
        assert(update_data@ =~= seq![0x00u8] + transfer_instruction_spec(
            *cid,
            call_idx,
            cs,
            rows,
        )->Ok_0.enc());
    }
    Ok(update_data)
}

/// The group sum of a non-empty list of points.
fn sum_points(terms: &Vec<Point>) -> (r: Point)
    requires
        terms@.len() > 0,
    ensures
        r.val() == pt_sum(terms@.map_values(|t: Point| t.val())),
{
    let ghost vals = terms@.map_values(|t: Point| t.val());
    let mut acc = terms[0];
    let mut k: usize = 1;
    proof {
        assert(vals.subrange(0, 1).len() == 1 && vals.subrange(0, 1)[0] == vals[0]);
    }
    while k < terms.len()
        invariant
            1 <= k <= terms@.len(),
            vals == terms@.map_values(|t: Point| t.val()),
            vals.len() == terms@.len(),
            acc.val() == pt_sum(vals.subrange(0, k as int)),
        decreases terms@.len() - k,
    {
        let next = terms[k];
        acc = point_add(&acc, &next);
        proof {
            let pre = vals.subrange(0, k + 1);
            assert(pre.drop_last() =~= vals.subrange(0, k as int));
            assert(pre.last() == vals[k as int]);
        }
        k = k + 1;
    }
    proof {
        assert(vals.subrange(0, vals.len() as int) =~= vals);
    }
    acc
}

/// Update phase of a transfer: records every spent nullifier, every fresh
/// coin, and appends the coins to the coin tree, recording the new roots.
/// Assumed validated; this phase only writes, atomically: it succeeds
/// exactly when the coin tree has room, it touches nothing but the
/// nullifier set, the coin set and the root history of `cid`, and on
/// failure nothing changes.
pub fn money_transfer_process_update_v1(
    cid: &Base,
    store: &mut Blockchain,
    update: &MoneyTransferUpdateV1,
) -> (r: Result<(), ContractError>)
    requires
        old(store).contracts.wf(),
        forall|q: int| 0 <= q < update.coins@.len() ==> (#[trigger] update.coins@[q]).wf(),
    ensures
        final(store).contracts.wf(),
        r is Ok <==> old_leaves_of(
            old(store).contracts.trees_v(),
            *cid,
            money_coin_merkle_tree(),
        ).len() + update.coins@.len() <= vstd::arithmetic::power2::pow2(
            crate::merkle::tree_depth(),
        ),
        r is Ok ==> forall|q: int|
            0 <= q < update.nullifiers@.len() ==> contains(
                final(store).contracts.rows_v(),
                *cid,
                money_nullifiers_table(),
                (#[trigger] update.nullifiers@[q]).enc(),
            ),
        r is Ok ==> forall|q: int|
            0 <= q < update.coins@.len() ==> contains(
                final(store).contracts.rows_v(),
                *cid,
                money_coins_table(),
                (#[trigger] update.coins@[q]).enc(),
            ),
        r is Ok ==> final(store).contracts.trees_v() == old(store).contracts.trees_v().push(
            TreeSlotV {
                cid: *cid,
                name: money_coin_merkle_tree(),
                leaves: old_leaves_of(
                    old(store).contracts.trees_v(),
                    *cid,
                    money_coin_merkle_tree(),
                ) + update.coins@,
            },
        ),
        r is Ok ==> exists|b: Base|
            (#[trigger] b.val()) == crate::merkle::root_of(
                crate::merkle::leaf_vals(
                    old_leaves_of(old(store).contracts.trees_v(), *cid, money_coin_merkle_tree())
                        + update.coins@,
                ),
            ) && contains(final(store).contracts.rows_v(), *cid, money_coin_roots_table(), b.enc()),
        r is Ok ==> forall|c: Base, t: Seq<u8>, k: Seq<u8>|
            contains(old(store).contracts.rows_v(), c, t, k) ==> #[trigger] contains(
                final(store).contracts.rows_v(),
                c,
                t,
                k,
            ),
        r is Ok ==> forall|c: Base, t: Seq<u8>, k: Seq<u8>|
            #[trigger] contains(final(store).contracts.rows_v(), c, t, k) ==> contains(
                old(store).contracts.rows_v(),
                c,
                t,
                k,
            ) || (c == *cid && (t == money_nullifiers_table() || t == money_coins_table() || t
                == money_coin_roots_table())),
        r is Err ==> final(store).contracts.rows_v() == old(store).contracts.rows_v()
            && final(store).contracts.trees_v() == old(store).contracts.trees_v(),
{
    match store.contracts.merkle_append(cid, &table_tag(4), &table_tag(2), &update.coins) {
        Ok(_) => {},
        Err(e) => { return Err(e) },
    }
    let ghost rows0 = old(store).contracts.rows_v();
    let ghost rows_mid = store.contracts.rows_v();
    let ghost old_trees_after = store.contracts.trees_v();
    let empty: Vec<u8> = Vec::new();
    let mut k: usize = 0;
    while k < update.nullifiers.len()
        invariant
            0 <= k <= update.nullifiers@.len(),
            store.contracts.wf(),
            store.contracts.trees_v() == old_trees_after,
            forall|c: Base, t: Seq<u8>, kk: Seq<u8>|
                contains(rows_mid, c, t, kk) ==> #[trigger] contains(
                    store.contracts.rows_v(),
                    c,
                    t,
                    kk,
                ),
            forall|c: Base, t: Seq<u8>, kk: Seq<u8>|
                #[trigger] contains(store.contracts.rows_v(), c, t, kk) ==> contains(
                    rows_mid,
                    c,
                    t,
                    kk,
                ) || (c == *cid && t == money_nullifiers_table()),
            forall|q: int|
                0 <= q < k ==> contains(
                    store.contracts.rows_v(),
                    *cid,
                    money_nullifiers_table(),
                    (#[trigger] update.nullifiers@[q]).enc(),
                ),
        decreases update.nullifiers@.len() - k,
    {
        let mut nf_key: Vec<u8> = Vec::new();
        update.nullifiers[k].encode(&mut nf_key);
        let ghost before = store.contracts.rows_v();
        store.contracts.set(cid, &table_tag(3), &nf_key, &empty);
        proof {
            let row = RowV { cid: *cid, table: seq![3u8], key: nf_key@, value: empty@ };
            assert forall|c: Base, t: Seq<u8>, kk: Seq<u8>|
                contains(before, c, t, kk) implies #[trigger] contains(
                store.contracts.rows_v(),
                c,
                t,
                kk,
            ) by {
                crate::store::lemma_lookup_push(before, row, c, t, kk);
            }
            assert forall|c: Base, t: Seq<u8>, kk: Seq<u8>| #[trigger] contains(
                store.contracts.rows_v(),
                c,
                t,
                kk,
            ) implies contains(before, c, t, kk) || (c == *cid && t
                == money_nullifiers_table()) by {
                crate::store::lemma_lookup_push(before, row, c, t, kk);
            }
            crate::store::lemma_lookup_push(
                before,
                row,
                *cid,
                money_nullifiers_table(),
                update.nullifiers@[k as int].enc(),
            );
        }
        k = k + 1;
    }
    let ghost rows_after_nfs = store.contracts.rows_v();
    let mut k: usize = 0;
    while k < update.coins.len()
        invariant
            0 <= k <= update.coins@.len(),
            store.contracts.wf(),
            store.contracts.trees_v() == old_trees_after,
            forall|c: Base, t: Seq<u8>, kk: Seq<u8>|
                contains(rows_after_nfs, c, t, kk) ==> #[trigger] contains(
                    store.contracts.rows_v(),
                    c,
                    t,
                    kk,
                ),
            forall|c: Base, t: Seq<u8>, kk: Seq<u8>|
                #[trigger] contains(store.contracts.rows_v(), c, t, kk) ==> contains(
                    rows_after_nfs,
                    c,
                    t,
                    kk,
                ) || (c == *cid && t == money_coins_table()),
            forall|q: int|
                0 <= q < k ==> contains(
                    store.contracts.rows_v(),
                    *cid,
                    money_coins_table(),
                    (#[trigger] update.coins@[q]).enc(),
                ),
        decreases update.coins@.len() - k,
    {
        let mut coin_key: Vec<u8> = Vec::new();
        update.coins[k].encode(&mut coin_key);
        let ghost before = store.contracts.rows_v();
        store.contracts.set(cid, &table_tag(1), &coin_key, &empty);
        proof {
            let row = RowV { cid: *cid, table: seq![1u8], key: coin_key@, value: empty@ };
            assert forall|c: Base, t: Seq<u8>, kk: Seq<u8>|
                contains(before, c, t, kk) implies #[trigger] contains(
                store.contracts.rows_v(),
                c,
                t,
                kk,
            ) by {
                crate::store::lemma_lookup_push(before, row, c, t, kk);
            }
            assert forall|c: Base, t: Seq<u8>, kk: Seq<u8>| #[trigger] contains(
                store.contracts.rows_v(),
                c,
                t,
                kk,
            ) implies contains(before, c, t, kk) || (c == *cid && t == money_coins_table()) by {
                crate::store::lemma_lookup_push(before, row, c, t, kk);
            }
            crate::store::lemma_lookup_push(
                before,
                row,
                *cid,
                money_coins_table(),
                update.coins@[k as int].enc(),
            );
        }
        k = k + 1;
    }
    proof {
        let ghost old_leaves = old_leaves_of(
            old(store).contracts.trees_v(),
            *cid,
            money_coin_merkle_tree(),
        );
        let b = choose|b: Base|
            (#[trigger] b.val()) == crate::merkle::root_of(
                crate::merkle::leaf_vals(old_leaves + update.coins@),
            ) && contains(rows_mid, *cid, money_coin_roots_table(), b.enc());
        assert(contains(store.contracts.rows_v(), *cid, money_coin_roots_table(), b.enc()));
    }
    Ok(())
}

/// The public-input vector of a burn statement, in its fixed positional
/// order over an input's revealed values.
pub open spec fn burn_publics_ok(publics: Seq<Base>, inp: Input) -> bool {
    &&& publics.len() == 10
    &&& publics[0] == inp.nullifier
    &&& publics[1].val() == crate::field::coords_of(inp.value_commit.val()).0
    &&& publics[2].val() == crate::field::coords_of(inp.value_commit.val()).1
    &&& publics[3].val() == crate::field::coords_of(inp.token_commit.val()).0
    &&& publics[4].val() == crate::field::coords_of(inp.token_commit.val()).1
    &&& publics[5] == inp.merkle_root
    &&& publics[6] == inp.spend_hook
    &&& publics[7] == inp.user_data_enc
    &&& publics[8] == inp.signature_public.x
    &&& publics[9] == inp.signature_public.y
}

/// The public-input vector of a mint statement, in its fixed positional
/// order over an output's revealed values.
pub open spec fn mint_publics_ok(publics: Seq<Base>, out: OutputV) -> bool {
    &&& publics.len() == 5
    &&& publics[0] == out.coin
    &&& publics[1].val() == crate::field::coords_of(out.value_commit.val()).0
    &&& publics[2].val() == crate::field::coords_of(out.value_commit.val()).1
    &&& publics[3].val() == crate::field::coords_of(out.token_commit.val()).0
    &&& publics[4].val() == crate::field::coords_of(out.token_commit.val()).1
}

/// Metadata phase of a transfer: one burn statement per anonymous input, one
/// mint statement per output, each with its public inputs in the fixed
/// positional order, and the signature keys of every input.  A pure
/// function of call data.
#[verifier::loop_isolation(false)]
#[verifier::rlimit(100)]
pub fn money_transfer_get_metadata_v1(cid: &Base, call_idx: u32, calls: &Vec<ContractCall>) -> (r:
    Result<CallMetadata, ContractError>)
    ensures
        r is Ok <==> ((call_idx as int) < calls@.len() && MoneyTransferParamsV1::dec_at(
            calls_view(calls@)[call_idx as int].params,
            0,
        ) is Some),
        r is Ok ==> ({
            let p = MoneyTransferParamsV1::dec_at(
                calls_view(calls@)[call_idx as int].params,
                0,
            )->Some_0.0;
            let m = r->Ok_0;
            m.zk_public_inputs@.len() == p.inputs.len() + p.outputs.len()
                && m.signature_pubkeys@.len() == p.clear_inputs.len() + p.inputs.len() && (forall|
                q: int,
            |
                0 <= q < p.inputs.len() ==> (#[trigger] m.zk_public_inputs@[q]).0
                    == crate::zk::MONEY_ZKAS_BURN_NS_V1 && burn_publics_ok(
                    m.zk_public_inputs@[q].1@,
                    p.inputs[q],
                )) && (forall|q: int|
                p.inputs.len() <= q < p.inputs.len() + p.outputs.len() ==> (
                #[trigger] m.zk_public_inputs@[q]).0 == crate::zk::MONEY_ZKAS_MINT_NS_V1
                    && mint_publics_ok(
                    m.zk_public_inputs@[q].1@,
                    p.outputs[q - p.inputs.len()],
                )) && (forall|q: int|
                0 <= q < p.clear_inputs.len() ==> (#[trigger] m.signature_pubkeys@[q]) == p.clear_inputs[q].signature_public)
                && (forall|q: int|
                0 <= q < p.inputs.len() ==> (#[trigger] m.signature_pubkeys@[p.clear_inputs.len() + q])
                    == p.inputs[q].signature_public)
        }),
{
    let _ = cid;
    if call_idx as usize >= calls.len() {
        return Err(ContractError::CallIndexOutOfBounds);
    }
    let this_call = &calls[call_idx as usize];
    proof {
        assert(calls_view(calls@)[call_idx as int] == calls@[call_idx as int]@);
    }
    let params = match MoneyTransferParamsV1::decode(&this_call.params, 0) {
        Some(v) => v.0,
        None => { return Err(ContractError::DecodeFailed) },
    };
    let ghost p = MoneyTransferParamsV1::dec_at(
        calls_view(calls@)[call_idx as int].params,
        0,
    )->Some_0.0;
    let mut zk_public_inputs: Vec<(u64, Vec<Base>)> = Vec::new();
    let mut k: usize = 0;
    while k < params.inputs.len()
        invariant
            0 <= k <= params.inputs@.len(),
            p.inputs == params.inputs@,
            zk_public_inputs@.len() == k,
            forall|q: int|
                0 <= q < k ==> (#[trigger] zk_public_inputs@[q]).0
                    == crate::zk::MONEY_ZKAS_BURN_NS_V1 && burn_publics_ok(
                    zk_public_inputs@[q].1@,
                    p.inputs[q],
                ),
        decreases params.inputs@.len() - k,
    {
        let input = &params.inputs[k];
        let (vcx, vcy) = crate::field::point_coords(&input.value_commit);
        let (tcx, tcy) = crate::field::point_coords(&input.token_commit);
        let mut publics: Vec<Base> = Vec::new();
        publics.push(input.nullifier);
        publics.push(vcx);
        publics.push(vcy);
        publics.push(tcx);
        publics.push(tcy);
        publics.push(input.merkle_root);
        publics.push(input.spend_hook);
        publics.push(input.user_data_enc);
        publics.push(input.signature_public.x);
        publics.push(input.signature_public.y);
        zk_public_inputs.push((crate::zk::MONEY_ZKAS_BURN_NS_V1, publics));
        k = k + 1;
    }
    let mut k: usize = 0;
    while k < params.outputs.len()
        invariant
            0 <= k <= params.outputs@.len(),
            p.inputs == params.inputs@,
            p.outputs.len() == params.outputs@.len(),
            zk_public_inputs@.len() == p.inputs.len() + k,
            forall|q: int|
                0 <= q < p.inputs.len() ==> (#[trigger] zk_public_inputs@[q]).0
                    == crate::zk::MONEY_ZKAS_BURN_NS_V1 && burn_publics_ok(
                    zk_public_inputs@[q].1@,
                    p.inputs[q],
                ),
            forall|q: int|
                p.inputs.len() <= q < p.inputs.len() + k ==> (#[trigger] zk_public_inputs@[q]).0
                    == crate::zk::MONEY_ZKAS_MINT_NS_V1 && mint_publics_ok(
                    zk_public_inputs@[q].1@,
                    p.outputs[q - p.inputs.len()],
                ),
        decreases params.outputs@.len() - k,
    {
        let output = &params.outputs[k];
        proof {
            assert(p.outputs[k as int] == params.outputs@[k as int]@);
        }
        let (vcx, vcy) = crate::field::point_coords(&output.value_commit);
        let (tcx, tcy) = crate::field::point_coords(&output.token_commit);
        let mut publics: Vec<Base> = Vec::new();
        publics.push(output.coin);
        publics.push(vcx);
        publics.push(vcy);
        publics.push(tcx);
        publics.push(tcy);
        zk_public_inputs.push((crate::zk::MONEY_ZKAS_MINT_NS_V1, publics));
        k = k + 1;
    }
    let mut signature_pubkeys: Vec<PublicKey> = Vec::new();
    let mut k: usize = 0;
    while k < params.clear_inputs.len()
        invariant
            0 <= k <= params.clear_inputs@.len(),
            p.clear_inputs == params.clear_inputs@,
            signature_pubkeys@.len() == k,
            forall|q: int|
                0 <= q < k ==> (#[trigger] signature_pubkeys@[q]) == p.clear_inputs[q].signature_public,
        decreases params.clear_inputs@.len() - k,
    {
        signature_pubkeys.push(params.clear_inputs[k].signature_public);
        k = k + 1;
    }
    let mut k: usize = 0;
    while k < params.inputs.len()
        invariant
            0 <= k <= params.inputs@.len(),
            p.inputs == params.inputs@,
            p.clear_inputs == params.clear_inputs@,
            signature_pubkeys@.len() == p.clear_inputs.len() + k,
            forall|q: int|
                0 <= q < p.clear_inputs.len() ==> (#[trigger] signature_pubkeys@[q]) == p.clear_inputs[q].signature_public,
            forall|q: int|
                0 <= q < k ==> (#[trigger] signature_pubkeys@[p.clear_inputs.len() + q])
                    == p.inputs[q].signature_public,
        decreases params.inputs@.len() - k,
    {
        signature_pubkeys.push(params.inputs[k].signature_public);
        k = k + 1;
    }
    Ok(CallMetadata { zk_public_inputs, signature_pubkeys })
}

/// The instruction phase reads nothing but its arguments: against one
/// snapshot it is one value, so re-running it cannot diverge.
pub proof fn lemma_process_instruction_pure(
    cid: Base,
    call_idx: u32,
    calls: Seq<ContractCallV>,
    rows1: Seq<RowV>,
    rows2: Seq<RowV>,
)
    requires
        rows1 == rows2,
    ensures
        transfer_instruction_spec(cid, call_idx, calls, rows1) == transfer_instruction_spec(
            cid,
            call_idx,
            calls,
            rows2,
        ),
        unstake_instruction_spec(cid, call_idx, calls, rows1) == unstake_instruction_spec(
            cid,
            call_idx,
            calls,
            rows2,
        ),
{
}

/// Update phase of an unstake: records the new coin in the coin set and
/// appends it to the coin tree, recording the new root.  Validation happened
/// in the instruction phase; this phase only writes, atomically: it succeeds
/// exactly when the coin tree has room, it touches nothing but the coin set
/// and the root history of `cid` (in particular no nullifier), and on
/// failure nothing changes.
pub fn money_unstake_process_update_v1(
    cid: &Base,
    store: &mut Blockchain,
    update: &MoneyUnstakeUpdateV1,
) -> (r: Result<(), ContractError>)
    requires
        old(store).contracts.wf(),
        update.coin.wf(),
    ensures
        final(store).contracts.wf(),
        r is Ok <==> old_leaves_of(
            old(store).contracts.trees_v(),
            *cid,
            money_coin_merkle_tree(),
        ).len() + 1 <= vstd::arithmetic::power2::pow2(crate::merkle::tree_depth()),
        r is Ok ==> contains(
            final(store).contracts.rows_v(),
            *cid,
            money_coins_table(),
            update.coin.enc(),
        ),
        r is Ok ==> final(store).contracts.trees_v() == old(store).contracts.trees_v().push(
            TreeSlotV {
                cid: *cid,
                name: money_coin_merkle_tree(),
                leaves: old_leaves_of(
                    old(store).contracts.trees_v(),
                    *cid,
                    money_coin_merkle_tree(),
                ).push(update.coin),
            },
        ),
        r is Ok ==> exists|b: Base|
            (#[trigger] b.val()) == crate::merkle::root_of(
                crate::merkle::leaf_vals(
                    old_leaves_of(old(store).contracts.trees_v(), *cid, money_coin_merkle_tree()).push(
                        update.coin,
                    ),
                ),
            ) && contains(final(store).contracts.rows_v(), *cid, money_coin_roots_table(), b.enc()),
        r is Ok ==> forall|c: Base, t: Seq<u8>, k: Seq<u8>|
            contains(old(store).contracts.rows_v(), c, t, k) ==> #[trigger] contains(
                final(store).contracts.rows_v(),
                c,
                t,
                k,
            ),
        r is Ok ==> forall|c: Base, t: Seq<u8>, k: Seq<u8>|
            #[trigger] contains(final(store).contracts.rows_v(), c, t, k) ==> contains(
                old(store).contracts.rows_v(),
                c,
                t,
                k,
            ) || (c == *cid && (t == money_coins_table() || t == money_coin_roots_table())),
        r is Err ==> final(store).contracts.rows_v() == old(store).contracts.rows_v()
            && final(store).contracts.trees_v() == old(store).contracts.trees_v(),
{
    let mut leaves: Vec<Base> = Vec::new();
    leaves.push(update.coin);
    match store.contracts.merkle_append(cid, &table_tag(4), &table_tag(2), &leaves) {
        Ok(_) => {},
        Err(e) => { return Err(e) },
    }
    let ghost rows_mid = store.contracts.rows_v();
    let mut coin_key: Vec<u8> = Vec::new();
    update.coin.encode(&mut coin_key);
    let empty: Vec<u8> = Vec::new();
    store.contracts.set(cid, &table_tag(1), &coin_key, &empty);
    proof {
        let ghost old_leaves = old_leaves_of(
            old(store).contracts.trees_v(),
            *cid,
            money_coin_merkle_tree(),
        );
        let row = RowV { cid: *cid, table: seq![1u8], key: coin_key@, value: empty@ };
        crate::store::lemma_lookup_push(rows_mid, row, *cid, money_coins_table(), update.coin.enc());
        assert forall|c: Base, t: Seq<u8>, k: Seq<u8>|
            contains(old(store).contracts.rows_v(), c, t, k) implies #[trigger] contains(
            final(store).contracts.rows_v(),
            c,
            t,
            k,
        ) by {
            assert(contains(rows_mid, c, t, k));
            crate::store::lemma_lookup_push(rows_mid, row, c, t, k);
        }
        assert forall|c: Base, t: Seq<u8>, k: Seq<u8>| #[trigger] contains(
            final(store).contracts.rows_v(),
            c,
            t,
            k,
        ) implies contains(old(store).contracts.rows_v(), c, t, k) || (c == *cid && (t
            == money_coins_table() || t == money_coin_roots_table())) by {
            crate::store::lemma_lookup_push(rows_mid, row, c, t, k);
            if contains(rows_mid, c, t, k) {
                assert(contains(old(store).contracts.rows_v(), c, t, k) || (c == *cid && t
                    == money_coin_roots_table()));
            }
        }
        assert(old_leaves + leaves@ =~= old_leaves.push(update.coin));
        let b = choose|b: Base|
            (#[trigger] b.val()) == crate::merkle::root_of(
                crate::merkle::leaf_vals(old_leaves + leaves@),
            ) && contains(rows_mid, *cid, money_coin_roots_table(), b.enc());
        crate::store::lemma_lookup_push(rows_mid, row, *cid, money_coin_roots_table(), b.enc());
        assert(contains(final(store).contracts.rows_v(), *cid, money_coin_roots_table(), b.enc()));
    }
    Ok(())
}

} // verus!
