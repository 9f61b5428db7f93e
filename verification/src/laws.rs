//! What holds of every tape and every backward pass.
use crate::buffer::volume;
use crate::flat::{constant, matmul_nt, matmul_tn, zip_plus, zip_times};
use crate::gradients::{
    distinct_keys, find_key, lemma_find_key, lemma_find_key_at, lemma_fits_same_lengths,
    lemma_step_lengths, op_fits, replay, same_lengths, seeded, step, OpType, Operation, SlotKey,
    TapeView,
};
use crate::ops::{binary_tape, unary_tape};
use crate::scalar::Scalar;
use crate::tensor::{binary_record, gradient_after_backward, recorded_binary, NoTape, TapeManager};
use vstd::prelude::*;

verus! {

/// Whether the first tape's slots are the first slots of the second, with
/// the same keys and the same content.
pub open spec fn slots_kept<S>(before: TapeView<S>, after: TapeView<S>) -> bool {
    &&& before.keys.len() <= after.keys.len()
    &&& before.grads.len() <= after.grads.len()
    &&& forall|i: int| 0 <= i < before.keys.len() ==> #[trigger] after.keys[i] == before.keys[i]
    &&& forall|i: int| 0 <= i < before.grads.len() ==> #[trigger] after.grads[i] == before.grads[i]
}

/// Asking for a slot keeps every slot there was, keeps the keys distinct,
/// and answers with the one slot that holds the key; a slot made for the
/// answer is filled with zeros.
pub proof fn lemma_with_slot<S: Scalar>(tape: TapeView<S>, key: SlotKey)
    requires
        tape.keys.len() == tape.grads.len(),
        distinct_keys(tape.keys),
    ensures
        ({
            let after = tape.with_slot(key);
            let i = tape.slot_index(key);
            &&& slots_kept(tape, after)
            &&& after.keys.len() == after.grads.len()
            &&& distinct_keys(after.keys)
            &&& 0 <= i < after.keys.len()
            &&& after.keys[i] == key
            &&& find_key(tape.keys, key) is None ==> after.grads[i] == constant(
                volume(key.shape),
                S::spec_zero(),
            ) && i == tape.keys.len() && after.keys.len() == i + 1
            &&& find_key(tape.keys, key) is Some ==> after == tape
            &&& after.derivs == tape.derivs
            &&& after.ops == tape.ops
        }),
{
    lemma_find_key(tape.keys, key);
}

/// Recording a two-parent operation keeps every slot there was, keeps the
/// keys distinct, fills each slot it makes with zeros, stores the two
/// local derivatives at the end, and appends an entry whose handles point
/// at the slots of its three keys.
pub proof fn lemma_recorded_binary<S: Scalar>(
    tape: TapeView<S>,
    op_type: OpType,
    lhs: SlotKey,
    rhs: SlotKey,
    out: SlotKey,
    lhs_deriv: Seq<S>,
    rhs_deriv: Seq<S>,
)
    requires
        tape.keys.len() == tape.grads.len(),
        distinct_keys(tape.keys),
        tape.keys.len() + 3 <= usize::MAX,
        tape.derivs.len() + 2 <= usize::MAX,
    ensures
        ({
            let after = recorded_binary(tape, op_type, lhs, rhs, out, lhs_deriv, rhs_deriv);
            let entry = binary_record(tape, op_type, lhs, rhs, out);
            &&& slots_kept(tape, after)
            &&& after.keys.len() == after.grads.len()
            &&& distinct_keys(after.keys)
            &&& after.derivs == tape.derivs.push(lhs_deriv).push(rhs_deriv)
            &&& after.ops == tape.ops.push(Operation::Binary(entry))
            &&& entry.op_type == op_type
            &&& entry.parent_grads.0.index < after.keys.len()
            &&& entry.parent_grads.1.index < after.keys.len()
            &&& entry.result_grad.index < after.keys.len()
            &&& after.keys[entry.parent_grads.0.index as int] == lhs
            &&& after.keys[entry.parent_grads.1.index as int] == rhs
            &&& after.keys[entry.result_grad.index as int] == out
            &&& entry.parent_derivs.0.index == tape.derivs.len()
            &&& entry.parent_derivs.1.index == tape.derivs.len() + 1
            &&& forall|i: int|
                tape.keys.len() <= i < after.keys.len() ==> #[trigger] after.grads[i] == constant(
                    volume(after.keys[i].shape),
                    S::spec_zero(),
                )
        }),
{
    let t1 = tape.with_slot(lhs);
    lemma_with_slot(tape, lhs);
    let t2 = t1.with_slot(rhs);
    lemma_with_slot(t1, rhs);
    let t3 = t2.with_derivative(lhs_deriv).with_derivative(rhs_deriv);
    let t4 = t3.with_slot(out);
    lemma_with_slot(t3, out);
    assert(t3.slot_index(out) == t2.slot_index(out));
    let after = recorded_binary(tape, op_type, lhs, rhs, out, lhs_deriv, rhs_deriv);
    assert(after.keys == t4.keys);
    assert(after.grads == t4.grads);
    let entry = binary_record(tape, op_type, lhs, rhs, out);
    assert(t4.keys[entry.parent_grads.0.index as int] == t1.keys[tape.slot_index(lhs)]);
    assert(t4.keys[entry.parent_grads.1.index as int] == t2.keys[t1.slot_index(rhs)]);
}

/// Whether an operation names the slot as one of its parents.
pub open spec fn is_parent(op: Operation, slot: int) -> bool {
    match op {
        Operation::Unary(u) => u.parent_grad.index == slot,
        Operation::Binary(b) => b.parent_grads.0.index == slot || b.parent_grads.1.index == slot,
    }
}

/// The backward pass writes to parents only: a slot that none of the
/// operations names as a parent holds after the replay what it held
/// before.
pub proof fn law_only_parents_receive<S: Scalar>(
    ops: Seq<Operation>,
    derivs: Seq<Seq<S>>,
    grads: Seq<Seq<S>>,
    slot: int,
)
    requires
        0 <= slot < grads.len(),
        forall|k: int| 0 <= k < ops.len() ==> op_fits(#[trigger] ops[k], derivs, grads),
        forall|k: int| 0 <= k < ops.len() ==> !is_parent(#[trigger] ops[k], slot),
    ensures
        replay(ops, derivs, grads).len() == grads.len(),
        replay(ops, derivs, grads)[slot] == grads[slot],
    decreases ops.len(),
{
    if ops.len() > 0 {
        let last = ops.last();
        assert(!is_parent(ops[ops.len() - 1], slot));
        assert(op_fits(ops[ops.len() - 1], derivs, grads));
        let next = step(last, derivs, grads);
        lemma_step_lengths(last, derivs, grads);
        assert(next[slot] == grads[slot]);
        assert forall|k: int| 0 <= k < ops.drop_last().len() implies !is_parent(
            #[trigger] ops.drop_last()[k],
            slot,
        ) && op_fits(ops.drop_last()[k], derivs, next) by {
            assert(ops.drop_last()[k] == ops[k]);
            lemma_fits_same_lengths(ops[k], derivs, grads, derivs, next);
        }
        law_only_parents_receive(ops.drop_last(), derivs, next, slot);
    }
}

/// Replaying a log with one more operation at its end is replaying the
/// log after that operation.
pub proof fn lemma_replay_last<S: Scalar>(
    ops: Seq<Operation>,
    op: Operation,
    derivs: Seq<Seq<S>>,
    grads: Seq<Seq<S>>,
)
    ensures
        replay(ops.push(op), derivs, grads) == replay(ops, derivs, step(op, derivs, grads)),
{
    assert(ops.push(op).drop_last() =~= ops);
    assert(ops.push(op).last() == op);
}

/// Whether a tape is well formed and leaves room for the handles of a
/// few more slots and derivatives.
pub open spec fn roomy<S: Scalar>(tape: TapeView<S>) -> bool {
    &&& tape.wf()
    &&& tape.keys.len() + 9 <= usize::MAX
    &&& tape.derivs.len() + 6 <= usize::MAX
}

/// Whether a tape has no slot for a key.
pub open spec fn unseen<S: Scalar>(tape: TapeView<S>, key: SlotKey) -> bool {
    forall|i: int| 0 <= i < tape.keys.len() ==> tape.keys[i] != key
}

/// The operations of a tape leave alone the slots that were made after
/// them: when the slots the tape had keep their lengths, replaying its log
/// changes no later slot.
pub proof fn lemma_later_slots_are_kept<S: Scalar>(
    tape: TapeView<S>,
    derivs: Seq<Seq<S>>,
    grads: Seq<Seq<S>>,
    slot: int,
)
    requires
        tape.wf(),
        same_lengths(tape.derivs, derivs),
        same_lengths(tape.grads, grads),
        tape.grads.len() <= slot < grads.len(),
    ensures
        replay(tape.ops, derivs, grads)[slot] == grads[slot],
{
    assert forall|k: int| 0 <= k < tape.ops.len() implies op_fits(
        #[trigger] tape.ops[k],
        derivs,
        grads,
    ) && !is_parent(tape.ops[k], slot) by {
        assert(op_fits(tape.ops[k], tape.derivs, tape.grads));
        lemma_fits_same_lengths(tape.ops[k], tape.derivs, tape.grads, derivs, grads);
    }
    law_only_parents_receive(tape.ops, derivs, grads, slot);
}

/// The gradients of a matrix product: when `out = lhs * rhs` is recorded
/// on a tape that has seen none of the three tensors and the backward
/// pass starts at `out`, the gradient of `lhs` is the seed times the
/// transpose of `rhs`, and the gradient of `rhs` is the transpose of `lhs`
/// times the seed, each added to zeros.  The derivative stored for each
/// operand is the other operand's data.
pub proof fn law_matmul_gradients<S: Scalar>(
    start: TapeView<S>,
    lhs: SlotKey,
    rhs: SlotKey,
    out: SlotKey,
    lhs_data: Seq<S>,
    rhs_data: Seq<S>,
    m: usize,
    n: usize,
    o: usize,
)
    requires
        roomy(start),
        unseen(start, lhs),
        unseen(start, rhs),
        unseen(start, out),
        lhs != rhs,
        lhs != out,
        rhs != out,
    ensures
        ({
            let tape = recorded_binary(
                start,
                OpType::MatMul { m, n, o },
                lhs,
                rhs,
                out,
                rhs_data,
                lhs_data,
            );
            let seed = constant(volume(out.shape), S::spec_one());
            &&& gradient_after_backward(tape, out, lhs) == zip_plus(
                constant(volume(lhs.shape), S::spec_zero()),
                matmul_nt(seed, rhs_data, m as nat, o as nat, n as nat),
            )
            &&& gradient_after_backward(tape, out, rhs) == zip_plus(
                constant(volume(rhs.shape), S::spec_zero()),
                matmul_tn(lhs_data, seed, m as nat, n as nat, o as nat),
            )
        }),
{
    let op_type = OpType::MatMul { m, n, o };
    let tape = recorded_binary(start, op_type, lhs, rhs, out, rhs_data, lhs_data);
    let entry = binary_record(start, op_type, lhs, rhs, out);
    lemma_recorded_binary(start, op_type, lhs, rhs, out, rhs_data, lhs_data);
    let l = entry.parent_grads.0.index as int;
    let r = entry.parent_grads.1.index as int;
    let t = entry.result_grad.index as int;
    let n0 = start.keys.len() as int;
    assert(l >= n0 && r >= n0 && t >= n0) by {
        if l < n0 {
            assert(tape.keys[l] == start.keys[l]);
        }
        if r < n0 {
            assert(tape.keys[r] == start.keys[r]);
        }
        if t < n0 {
            assert(tape.keys[t] == start.keys[t]);
        }
    }
    lemma_find_key_at(tape.keys, l);
    lemma_find_key_at(tape.keys, r);
    lemma_find_key_at(tape.keys, t);
    lemma_with_slot(tape, out);
    assert(tape.with_slot(out) == tape);
    let op = Operation::Binary(entry);
    let d = tape.derivs;
    let g0 = seeded(tape.grads, t);
    let g1 = step(op, d, g0);
    lemma_replay_last(start.ops, op, d, g0);
    assert(same_lengths(start.grads, g1)) by {
        assert forall|i: int| 0 <= i < start.grads.len() implies (#[trigger] g1[i]).len()
            == start.grads[i].len() by {
            assert(tape.grads[i] == start.grads[i]);
        }
    }
    assert(same_lengths(start.derivs, d));
    lemma_later_slots_are_kept(start, d, g1, l);
    lemma_later_slots_are_kept(start, d, g1, r);
    assert(d[start.derivs.len() as int] == rhs_data);
    assert(d[(start.derivs.len() + 1) as int] == lhs_data);
}

/// The tape of a diamond: `a = c1 * x`, then `b = c2 * x`, then
/// `t = a + b`, recorded in this order on the tape `start`.
pub open spec fn diamond_tape<S: Scalar>(
    start: TapeView<S>,
    x: SlotKey,
    c1: SlotKey,
    c2: SlotKey,
    a: SlotKey,
    b: SlotKey,
    t: SlotKey,
    x_data: Seq<S>,
    c1_data: Seq<S>,
    c2_data: Seq<S>,
) -> TapeView<S> {
    let first = recorded_binary(start, OpType::Normal, c1, x, a, x_data, c1_data);
    let second = recorded_binary(first, OpType::Normal, c2, x, b, x_data, c2_data);
    recorded_binary(
        second,
        OpType::Normal,
        a,
        b,
        t,
        constant(volume(a.shape), S::spec_one()),
        constant(volume(b.shape), S::spec_one()),
    )
}

/// Whether the six tensors of a diamond differ from each other.
pub open spec fn six_differ(x: SlotKey, c1: SlotKey, c2: SlotKey, a: SlotKey, b: SlotKey, t: SlotKey) -> bool {
    &&& x != c1 && x != c2 && x != a && x != b && x != t
    &&& c1 != c2 && c1 != a && c1 != b && c1 != t
    &&& c2 != a && c2 != b && c2 != t
    &&& a != b && a != t
    &&& b != t
}

/// Gradients add up over paths: when a tensor `x` feeds two operations,
/// `a = c1 * x` and `b = c2 * x`, whose results are summed into the
/// terminal `t`, on a tape that has seen none of these tensors, the
/// gradient of `x` is zero plus its share through `b` plus its share
/// through `a`; each share is the path's local derivative times the
/// gradient of the path's result.
pub proof fn law_gradients_add_over_paths<S: Scalar>(
    start: TapeView<S>,
    x: SlotKey,
    c1: SlotKey,
    c2: SlotKey,
    a: SlotKey,
    b: SlotKey,
    t: SlotKey,
    x_data: Seq<S>,
    c1_data: Seq<S>,
    c2_data: Seq<S>,
)
    requires
        roomy(start),
        unseen(start, x),
        unseen(start, c1),
        unseen(start, c2),
        unseen(start, a),
        unseen(start, b),
        unseen(start, t),
        six_differ(x, c1, c2, a, b, t),
    ensures
        ({
            let tape = diamond_tape(start, x, c1, c2, a, b, t, x_data, c1_data, c2_data);
            let seed = constant(volume(t.shape), S::spec_one());
            let through_a = zip_times(c1_data, gradient_after_backward(tape, t, a));
            let through_b = zip_times(c2_data, gradient_after_backward(tape, t, b));
            &&& gradient_after_backward(tape, t, a) == zip_plus(
                constant(volume(a.shape), S::spec_zero()),
                zip_times(constant(volume(a.shape), S::spec_one()), seed),
            )
            &&& gradient_after_backward(tape, t, b) == zip_plus(
                constant(volume(b.shape), S::spec_zero()),
                zip_times(constant(volume(b.shape), S::spec_one()), seed),
            )
            &&& gradient_after_backward(tape, t, x) == zip_plus(
                zip_plus(constant(volume(x.shape), S::spec_zero()), through_b),
                through_a,
            )
        }),
{
    let ones_a = constant(volume(a.shape), S::spec_one());
    let ones_b = constant(volume(b.shape), S::spec_one());
    let first = recorded_binary(start, OpType::Normal, c1, x, a, x_data, c1_data);
    let second = recorded_binary(first, OpType::Normal, c2, x, b, x_data, c2_data);
    let tape = recorded_binary(second, OpType::Normal, a, b, t, ones_a, ones_b);
    let e1 = binary_record(start, OpType::Normal, c1, x, a);
    let e2 = binary_record(first, OpType::Normal, c2, x, b);
    let e3 = binary_record(second, OpType::Normal, a, b, t);
    lemma_recorded_binary(start, OpType::Normal, c1, x, a, x_data, c1_data);
    lemma_recorded_binary(first, OpType::Normal, c2, x, b, x_data, c2_data);
    lemma_recorded_binary(second, OpType::Normal, a, b, t, ones_a, ones_b);
    let ic1 = e1.parent_grads.0.index as int;
    let ix = e1.parent_grads.1.index as int;
    let ia = e1.result_grad.index as int;
    let ic2 = e2.parent_grads.0.index as int;
    let ib = e2.result_grad.index as int;
    let it = e3.result_grad.index as int;
    let n0 = start.keys.len() as int;
    // every handle names its key in the final tape, where keys are distinct
    assert(tape.keys[ic1] == c1) by {
        assert(second.keys[ic1] == first.keys[ic1]);
    }
    assert(tape.keys[ix] == x) by {
        assert(second.keys[ix] == first.keys[ix]);
    }
    assert(tape.keys[ia] == a) by {
        assert(second.keys[ia] == first.keys[ia]);
    }
    assert(tape.keys[ic2] == c2);
    assert(tape.keys[ib] == b);
    assert(tape.keys[e2.parent_grads.1.index as int] == x);
    assert(e2.parent_grads.1.index as int == ix);
    assert(e3.parent_grads.0.index as int == ia);
    assert(e3.parent_grads.1.index as int == ib);
    // the slots the tape had before are kept, so the six are later ones
    assert forall|i: int| 0 <= i < n0 implies #[trigger] tape.keys[i] == start.keys[i]
        && tape.grads[i] == start.grads[i] by {
        assert(first.keys[i] == start.keys[i]);
        assert(second.keys[i] == first.keys[i]);
        assert(first.grads[i] == start.grads[i]);
        assert(second.grads[i] == first.grads[i]);
    }
    assert(ic1 >= n0 && ix >= n0 && ia >= n0 && ic2 >= n0 && ib >= n0 && it >= n0);
    lemma_find_key_at(tape.keys, ix);
    lemma_find_key_at(tape.keys, ia);
    lemma_find_key_at(tape.keys, ib);
    lemma_find_key_at(tape.keys, it);
    lemma_with_slot(tape, t);
    assert(tape.with_slot(t) == tape);
    // the six slots start as zeros
    assert(tape.grads[ix] == constant(volume(x.shape), S::spec_zero())) by {
        assert(second.grads[ix] == first.grads[ix]);
    }
    assert(tape.grads[ia] == constant(volume(a.shape), S::spec_zero())) by {
        assert(second.grads[ia] == first.grads[ia]);
    }
    assert(tape.grads[ib] == constant(volume(b.shape), S::spec_zero()));
    let o1 = Operation::Binary(e1);
    let o2 = Operation::Binary(e2);
    let o3 = Operation::Binary(e3);
    let d = tape.derivs;
    let k0 = start.derivs.len() as int;
    assert(d[k0] == x_data && d[k0 + 1] == c1_data && d[k0 + 2] == x_data && d[k0 + 3] == c2_data
        && d[k0 + 4] == ones_a && d[k0 + 5] == ones_b);
    let g0 = seeded(tape.grads, it);
    let g1 = step(o3, d, g0);
    let g2 = step(o2, d, g1);
    let g3 = step(o1, d, g2);
    lemma_replay_last(second.ops, o3, d, g0);
    lemma_replay_last(first.ops, o2, d, g1);
    lemma_replay_last(start.ops, o1, d, g2);
    assert(replay(tape.ops, d, g0) == replay(start.ops, d, g3));
    assert(same_lengths(start.grads, g3)) by {
        assert forall|i: int| 0 <= i < start.grads.len() implies (#[trigger] g3[i]).len()
            == start.grads[i].len() by {
            assert(tape.grads[i] == start.grads[i]);
        }
    }
    assert(same_lengths(start.derivs, d));
    lemma_later_slots_are_kept(start, d, g3, ix);
    lemma_later_slots_are_kept(start, d, g3, ia);
    lemma_later_slots_are_kept(start, d, g3, ib);
    assert(g3[ia] == g1[ia]);
    assert(g3[ib] == g1[ib]);
}

/// One slot for each tensor: on a tape whose keys differ, a tensor that
/// has a slot is answered with that slot and the tape stays as it is, and
/// after an operation with this tensor was recorded the keys still differ,
/// so that no second slot for the tensor exists.
pub proof fn law_one_slot_per_tensor<S: Scalar>(
    tape: TapeView<S>,
    i: int,
    op_type: OpType,
    rhs: SlotKey,
    out: SlotKey,
    lhs_deriv: Seq<S>,
    rhs_deriv: Seq<S>,
)
    requires
        tape.keys.len() == tape.grads.len(),
        distinct_keys(tape.keys),
        0 <= i < tape.keys.len(),
    ensures
        tape.with_slot(tape.keys[i]) == tape,
        tape.slot_index(tape.keys[i]) == i,
        distinct_keys(
            recorded_binary(tape, op_type, tape.keys[i], rhs, out, lhs_deriv, rhs_deriv).keys,
        ),
        recorded_binary(tape, op_type, tape.keys[i], rhs, out, lhs_deriv, rhs_deriv).keys[i]
            == tape.keys[i],
{
    let key = tape.keys[i];
    lemma_find_key_at(tape.keys, i);
    lemma_with_slot(tape, key);
    let t1 = tape.with_slot(key);
    lemma_with_slot(t1, rhs);
    let t2 = t1.with_slot(rhs);
    let t3 = t2.with_derivative(lhs_deriv).with_derivative(rhs_deriv);
    lemma_with_slot(t3, out);
    assert(t2.keys[i] == t1.keys[i]);
    assert(t3.with_slot(out).keys[i] == t3.keys[i]);
}

/// A slot is named by its tensor and starts at zero: the slot that a tape
/// answers with for a key holds that key, and where the slot was made for
/// the answer it holds as many zeros as the key's shape spans.
pub proof fn law_slot_is_keyed_and_starts_at_zero<S: Scalar>(tape: TapeView<S>, key: SlotKey)
    requires
        tape.keys.len() == tape.grads.len(),
        distinct_keys(tape.keys),
    ensures
        tape.with_slot(key).keys[tape.slot_index(key)] == key,
        unseen(tape, key) ==> tape.with_slot(key).grads[tape.slot_index(key)] == constant(
            volume(key.shape),
            S::spec_zero(),
        ),
{
    lemma_with_slot(tape, key);
    lemma_find_key(tape.keys, key);
}

/// A matrix product stores its derivatives crosswise: recording `out =
/// lhs * rhs` appends one entry of the matrix-product type and two
/// derivatives, the right operand's data for the left operand and the left
/// operand's data for the right operand.
pub proof fn law_matmul_stores_derivatives_crosswise<S: Scalar>(
    tape: TapeView<S>,
    lhs: SlotKey,
    rhs: SlotKey,
    out: SlotKey,
    lhs_data: Seq<S>,
    rhs_data: Seq<S>,
    m: usize,
    n: usize,
    o: usize,
)
    ensures
        ({
            let op_type = OpType::MatMul { m, n, o };
            let after = recorded_binary(tape, op_type, lhs, rhs, out, rhs_data, lhs_data);
            let entry = binary_record(tape, op_type, lhs, rhs, out);
            &&& after.ops == tape.ops.push(Operation::Binary(entry))
            &&& entry.op_type == op_type
            &&& after.derivs == tape.derivs.push(rhs_data).push(lhs_data)
            &&& entry.parent_derivs.0.index == tape.derivs.len() as usize
            &&& entry.parent_derivs.1.index == (tape.derivs.len() + 1) as usize
            &&& after.derivs[tape.derivs.len() as int] == rhs_data
            &&& after.derivs[(tape.derivs.len() + 1) as int] == lhs_data
        }),
{
}

/// Without a tape nothing is recorded: the result of an operation whose
/// consumed operand has no tape has none either.
pub proof fn law_tapeless_operands_give_tapeless_results<S: Scalar>(
    op_type: OpType,
    lhs: SlotKey,
    rhs: SlotKey,
    out: SlotKey,
    lhs_deriv: Seq<S>,
    rhs_deriv: Seq<S>,
)
    ensures
        binary_tape::<S>(None, op_type, lhs, rhs, out, lhs_deriv, rhs_deriv) is None,
        unary_tape::<S>(None, op_type, lhs, out, lhs_deriv) is None,
{
}

/// A tensor that owns no tape records nothing: whatever operation consumes
/// it, there is no tape to hand on.
pub proof fn law_no_tape_records_nothing<S: Scalar>(manager: NoTape)
    ensures
        TapeManager::<S>::tape_view(&manager) is None,
{
}

/// A tensor that no recorded operation mentions, and that is not the
/// terminal, has a gradient of zeros, as many as its shape spans.
pub proof fn law_unmentioned_gradient_is_zero<S: Scalar>(
    tape: TapeView<S>,
    terminal: SlotKey,
    key: SlotKey,
)
    requires
        tape.wf(),
        key != terminal,
        forall|i: int| 0 <= i < tape.keys.len() ==> tape.keys[i] != key,
    ensures
        gradient_after_backward(tape, terminal, key) == constant(
            volume(key.shape),
            S::spec_zero(),
        ),
        gradient_after_backward(tape, terminal, key).len() == volume(key.shape),
        forall|j: int|
            0 <= j < volume(key.shape) ==> gradient_after_backward(tape, terminal, key)[j]
                == S::spec_zero(),
{
    lemma_with_slot(tape, terminal);
    lemma_find_key(tape.with_slot(terminal).keys, key);
    if find_key(tape.with_slot(terminal).keys, key) is Some {
        let i = find_key(tape.with_slot(terminal).keys, key).unwrap();
        if i < tape.keys.len() {
            assert(tape.with_slot(terminal).keys[i] == tape.keys[i]);
        }
    }
}

} // verus!
