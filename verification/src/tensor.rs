//! Tensors: an identifier, a shaped buffer, and possibly the tape of the
//! computation chain the tensor belongs to.
use crate::buffer::{volume, Buffer, MAX_RANK};
use crate::flat::constant;
use crate::gradients::{find_key, repeats, replay, seeded, BinaryOp, GradientTape, OpType, Operation, SlotKey, TapeView, UnaryOp};
use crate::gradients::{DerivativeRef, GradientRef};
use crate::scalar::Scalar;
use crate::unique_id::UniqueIds;
use vstd::prelude::*;

verus! {

/// Marks a tensor that owns no tape: a constant as far as differentiation
/// goes.
#[derive(Clone, Copy, Debug, Default)]
pub struct NoTape;

/// Marks a tensor that owns the tape of its computation chain.
pub struct WithTape<S>(pub GradientTape<S>);

/// Whether the lengths of the operands, the result and the two local
/// derivatives of a two-parent operation fit its type.
pub open spec fn binary_fits(
    op_type: OpType,
    lhs: nat,
    rhs: nat,
    out: nat,
    lhs_deriv: nat,
    rhs_deriv: nat,
) -> bool {
    match op_type {
        OpType::Normal => lhs == out && rhs == out && lhs_deriv == out && rhs_deriv == out,
        OpType::Broadcast => lhs == out && lhs_deriv == out && rhs == rhs_deriv && out == repeats(
            out,
            rhs,
        ) * rhs,
        OpType::MatMul { m, n, o } => lhs == m * n && lhs_deriv == n * o && rhs == n * o
            && rhs_deriv == m * n && out == m * o,
    }
}

/// Whether the lengths of the operand, the result and the local
/// derivative of a one-parent operation fit its type.
pub open spec fn unary_fits(op_type: OpType, parent: nat, out: nat, deriv: nat) -> bool {
    match op_type {
        OpType::Normal => parent == out && deriv == out,
        OpType::Broadcast => parent == deriv && (parent > 0 ==> out > 0),
        OpType::MatMul { .. } => false,
    }
}

/// The entry that records a two-parent operation on a tape: the handles
/// of the parents' slots, of the two local derivatives, and of the
/// result's slot.
pub open spec fn binary_record<S: Scalar>(
    tape: TapeView<S>,
    op_type: OpType,
    lhs: SlotKey,
    rhs: SlotKey,
    out: SlotKey,
) -> BinaryOp {
    let t1 = tape.with_slot(lhs);
    let t2 = t1.with_slot(rhs);
    BinaryOp {
        op_type,
        parent_grads: (
            GradientRef { index: tape.slot_index(lhs) as usize },
            GradientRef { index: t1.slot_index(rhs) as usize },
        ),
        parent_derivs: (
            DerivativeRef { index: tape.derivs.len() as usize },
            DerivativeRef { index: (tape.derivs.len() + 1) as usize },
        ),
        result_grad: GradientRef { index: t2.slot_index(out) as usize },
    }
}

/// The tape after a two-parent operation was recorded: a slot for each
/// parent, the two local derivatives, a slot for the result, and the
/// entry that ties them together.
pub open spec fn recorded_binary<S: Scalar>(
    tape: TapeView<S>,
    op_type: OpType,
    lhs: SlotKey,
    rhs: SlotKey,
    out: SlotKey,
    lhs_deriv: Seq<S>,
    rhs_deriv: Seq<S>,
) -> TapeView<S> {
    tape.with_slot(lhs).with_slot(rhs).with_derivative(lhs_deriv).with_derivative(
        rhs_deriv,
    ).with_slot(out).with_operation(Operation::Binary(binary_record(tape, op_type, lhs, rhs, out)))
}

/// The entry that records a one-parent operation on a tape.
pub open spec fn unary_record<S: Scalar>(
    tape: TapeView<S>,
    op_type: OpType,
    parent: SlotKey,
    out: SlotKey,
) -> UnaryOp {
    UnaryOp {
        op_type,
        parent_grad: GradientRef { index: tape.slot_index(parent) as usize },
        parent_deriv: DerivativeRef { index: tape.derivs.len() as usize },
        result_grad: GradientRef { index: tape.with_slot(parent).slot_index(out) as usize },
    }
}

/// The tape after a one-parent operation was recorded.
pub open spec fn recorded_unary<S: Scalar>(
    tape: TapeView<S>,
    op_type: OpType,
    parent: SlotKey,
    out: SlotKey,
    deriv: Seq<S>,
) -> TapeView<S> {
    tape.with_slot(parent).with_derivative(deriv).with_slot(out).with_operation(
        Operation::Unary(unary_record(tape, op_type, parent, out)),
    )
}

/// Whether whatever tape a tape manager holds is well formed.
pub open spec fn manager_wf<S: Scalar, Mgr: TapeManager<S>>(manager: &Mgr) -> bool {
    match manager.tape_view() {
        Some(tape) => tape.wf(),
        None => true,
    }
}

/// A tensor: a uniquely identified shaped buffer that may own a tape.
///
/// `Mgr` is [`NoTape`] for a tensor that owns none and [`WithTape`] for one
/// that does.
pub struct Tensor<S, Mgr> {
    pub id: usize,
    pub data: Buffer<S>,
    pub tape: Mgr,
}

/// What a tensor carries in place of a tape: nothing, or the one live tape
/// of its computation chain.
pub trait TapeManager<S: Scalar>: Sized {
    /// The content of the tape, if one is held.
    spec fn tape_view(&self) -> Option<TapeView<S>>;

    /// Records a two-parent operation on the tape, if one is held.
    fn record_binary(
        &mut self,
        op_type: OpType,
        lhs: &Tensor<S, NoTape>,
        rhs: &Tensor<S, NoTape>,
        out: &Tensor<S, NoTape>,
        lhs_deriv: Vec<S>,
        rhs_deriv: Vec<S>,
    )
        requires
            old(self).tape_view() matches Some(tape) ==> tape.wf(),
            lhs.data.wf(),
            rhs.data.wf(),
            out.data.wf(),
            binary_fits(
                op_type,
                lhs@.len(),
                rhs@.len(),
                out@.len(),
                lhs_deriv@.len(),
                rhs_deriv@.len(),
            ),
        ensures
            final(self).tape_view() matches Some(tape) ==> tape.wf(),
            final(self).tape_view() == match old(self).tape_view() {
                Some(tape) => Some(
                    recorded_binary(
                        tape,
                        op_type,
                        lhs.key(),
                        rhs.key(),
                        out.key(),
                        lhs_deriv@,
                        rhs_deriv@,
                    ),
                ),
                None => None,
            },
    ;

    /// Records a one-parent operation on the tape, if one is held.
    fn record_unary(
        &mut self,
        op_type: OpType,
        parent: &Tensor<S, NoTape>,
        out: &Tensor<S, NoTape>,
        deriv: Vec<S>,
    )
        requires
            old(self).tape_view() matches Some(tape) ==> tape.wf(),
            parent.data.wf(),
            out.data.wf(),
            unary_fits(op_type, parent@.len(), out@.len(), deriv@.len()),
        ensures
            final(self).tape_view() matches Some(tape) ==> tape.wf(),
            final(self).tape_view() == match old(self).tape_view() {
                Some(tape) => Some(recorded_unary(tape, op_type, parent.key(), out.key(), deriv@)),
                None => None,
            },
    ;
}

impl<S, Mgr> View for Tensor<S, Mgr> {
    type V = Seq<S>;

    open spec fn view(&self) -> Seq<S> {
        self.data@
    }
}

impl<S, Mgr> Tensor<S, Mgr> {
    /// The extents of the axes.
    pub open spec fn dims(&self) -> Seq<usize> {
        self.data.dims()
    }

    /// What names the tensor's gradient slot.
    pub open spec fn key(&self) -> SlotKey {
        SlotKey { id: self.id, shape: self.data.dims() }
    }
}

impl<S: Scalar, Mgr: TapeManager<S>> Tensor<S, Mgr> {
    /// The buffer is well formed, and so is the tape, if there is one.
    pub open spec fn wf(&self) -> bool {
        self.data.wf() && manager_wf(&self.tape)
    }

    /// The tensor's identifier.
    pub fn id(&self) -> (r: usize)
        ensures
            r == self.id,
    {
        self.id
    }

    /// The tensor's shape.
    pub fn shape(&self) -> (r: &Vec<usize>)
        ensures
            r@ == self.dims(),
    {
        &self.data.shape
    }

    /// The tensor's elements in row-major order.
    pub fn data(&self) -> (r: &Buffer<S>)
        ensures
            *r == self.data,
    {
        &self.data
    }

    /// Detaches the tape: returns the tensor without it, and what it
    /// carried.
    pub fn split_tape_manager(self) -> (r: (Tensor<S, NoTape>, Mgr))
        ensures
            r.0.id == self.id,
            r.0.data == self.data,
            r.1 == self.tape,
    {
        (Tensor { id: self.id, data: self.data, tape: NoTape }, self.tape)
    }

    /// A tape-less tensor with the same identifier and a copy of the
    /// elements: the same value on a second path.
    pub fn duplicate(&self) -> (r: Tensor<S, NoTape>)
        requires
            self.wf(),
        ensures
            r.wf(),
            r.id == self.id,
            r.dims() == self.dims(),
            r@ == self@,
    {
        Tensor { id: self.id, data: self.data.duplicate(), tape: NoTape }
    }
}

impl<S: Scalar> Tensor<S, NoTape> {
    /// Builds a tensor around a buffer and gives it a fresh identifier.
    pub fn new(ids: &mut UniqueIds, data: Buffer<S>) -> (r: Self)
        requires
            old(ids).has_more(),
        ensures
            r.id == old(ids).next,
            final(ids).next == old(ids).next + 1,
            final(ids).issued(r.id),
            r.data == data,
    {
        Tensor { id: ids.fresh(), data, tape: NoTape }
    }

    /// The same elements under another shape, as a tensor of its own.
    ///
    /// Returns `None` when the new shape has too many axes or spans a
    /// different number of elements.
    pub fn reshape(self, ids: &mut UniqueIds, shape: Vec<usize>) -> (r: Option<Self>)
        requires
            old(ids).has_more(),
        ensures
            r is Some <==> shape@.len() <= MAX_RANK && volume(shape@) == self@.len(),
            r matches Some(t) ==> t.data.wf() && t.dims() == shape@ && t@ == self@ && t.id == old(
                ids,
            ).next && final(ids).next == old(ids).next + 1,
            r is None ==> final(ids).next == old(ids).next,
    {
        match self.data.reshape(shape) {
            Some(data) => Some(Tensor::new(ids, data)),
            None => None,
        }
    }

    /// Attaches what another tensor carried in place of a tape.
    pub fn with_tape_manager<Mgr: TapeManager<S>>(self, tape: Mgr) -> (r: Tensor<S, Mgr>)
        ensures
            r.id == self.id,
            r.data == self.data,
            r.tape == tape,
    {
        Tensor { id: self.id, data: self.data, tape }
    }

    /// Starts a computation chain: attaches a tape with nothing recorded.
    pub fn trace(self) -> (r: Tensor<S, WithTape<S>>)
        requires
            self.wf(),
        ensures
            r.wf(),
            r.id == self.id,
            r.data == self.data,
            r.tape.tape_view() == Some(TapeView::<S>::empty()),
    {
        Tensor { id: self.id, data: self.data, tape: WithTape(GradientTape::new()) }
    }
}

impl<S: Scalar> TapeManager<S> for NoTape {
    open spec fn tape_view(&self) -> Option<TapeView<S>> {
        None
    }

    fn record_binary(
        &mut self,
        op_type: OpType,
        lhs: &Tensor<S, NoTape>,
        rhs: &Tensor<S, NoTape>,
        out: &Tensor<S, NoTape>,
        lhs_deriv: Vec<S>,
        rhs_deriv: Vec<S>,
    ) {
    }

    fn record_unary(
        &mut self,
        op_type: OpType,
        parent: &Tensor<S, NoTape>,
        out: &Tensor<S, NoTape>,
        deriv: Vec<S>,
    ) {
    }
}

impl<S: Scalar> TapeManager<S> for WithTape<S> {
    open spec fn tape_view(&self) -> Option<TapeView<S>> {
        Some(self.0@)
    }

    fn record_binary(
        &mut self,
        op_type: OpType,
        lhs: &Tensor<S, NoTape>,
        rhs: &Tensor<S, NoTape>,
        out: &Tensor<S, NoTape>,
        lhs_deriv: Vec<S>,
        rhs_deriv: Vec<S>,
    ) {
        binary_op(&mut self.0, op_type, (lhs, rhs, out), lhs_deriv, rhs_deriv);
    }

    fn record_unary(
        &mut self,
        op_type: OpType,
        parent: &Tensor<S, NoTape>,
        out: &Tensor<S, NoTape>,
        deriv: Vec<S>,
    ) {
        unary_op(&mut self.0, op_type, (parent, out), deriv);
    }
}

/// Records a two-parent operation: looks up or creates the gradient slots
/// of the parents, stores the two local derivatives, looks up or creates
/// the slot of the result, and appends the operation.
pub fn binary_op<S: Scalar>(
    tape: &mut GradientTape<S>,
    op_type: OpType,
    operands: (&Tensor<S, NoTape>, &Tensor<S, NoTape>, &Tensor<S, NoTape>),
    lhs_deriv: Vec<S>,
    rhs_deriv: Vec<S>,
)
    requires
        old(tape).wf(),
        operands.0.data.wf(),
        operands.1.data.wf(),
        operands.2.data.wf(),
        binary_fits(
            op_type,
            operands.0@.len(),
            operands.1@.len(),
            operands.2@.len(),
            lhs_deriv@.len(),
            rhs_deriv@.len(),
        ),
    ensures
        final(tape).wf(),
        final(tape)@ == recorded_binary(
            old(tape)@,
            op_type,
            operands.0.key(),
            operands.1.key(),
            operands.2.key(),
            lhs_deriv@,
            rhs_deriv@,
        ),
{
    let (lhs, rhs, out) = operands;
    // the length of a run that exists fits a machine word
    let lhs_len = lhs.data.data.len();
    let rhs_len = rhs.data.data.len();
    let out_len = out.data.data.len();
    let first = tape.gradient_ref_for(lhs.id, &lhs.data.shape);
    let second = tape.gradient_ref_for(rhs.id, &rhs.data.shape);
    let parent_grads = (first, second);
    let first_deriv = tape.store_derivative(lhs_deriv);
    let second_deriv = tape.store_derivative(rhs_deriv);
    let parent_derivs = (first_deriv, second_deriv);
    let result_grad = tape.gradient_ref_for(out.id, &out.data.shape);
    tape.add_operation(Operation::Binary(BinaryOp { op_type, parent_grads, parent_derivs, result_grad }));
}

/// Records a one-parent operation: looks up or creates the gradient slot
/// of the parent, stores the local derivative, looks up or creates the slot
/// of the result, and appends the operation.
pub fn unary_op<S: Scalar>(
    tape: &mut GradientTape<S>,
    op_type: OpType,
    operands: (&Tensor<S, NoTape>, &Tensor<S, NoTape>),
    deriv: Vec<S>,
)
    requires
        old(tape).wf(),
        operands.0.data.wf(),
        operands.1.data.wf(),
        unary_fits(op_type, operands.0@.len(), operands.1@.len(), deriv@.len()),
    ensures
        final(tape).wf(),
        final(tape)@ == recorded_unary(
            old(tape)@,
            op_type,
            operands.0.key(),
            operands.1.key(),
            deriv@,
        ),
{
    let (parent, out) = operands;
    // the length of a run that exists fits a machine word
    let parent_len = parent.data.data.len();
    let out_len = out.data.data.len();
    let parent_grad = tape.gradient_ref_for(parent.id, &parent.data.shape);
    let parent_deriv = tape.store_derivative(deriv);
    let result_grad = tape.gradient_ref_for(out.id, &out.data.shape);
    tape.add_operation(Operation::Unary(UnaryOp { op_type, parent_grad, parent_deriv, result_grad }));
}

/// The gradients that the backward pass from the given terminal leaves in
/// the slots of a tape.
pub open spec fn backward_grads<S: Scalar>(tape: TapeView<S>, terminal: SlotKey) -> Seq<Seq<S>> {
    let t = tape.with_slot(terminal);
    replay(t.ops, t.derivs, seeded(t.grads, tape.slot_index(terminal)))
}

/// The gradient that a backward pass yields for a key: the content of the
/// key's slot after the pass, or zeros of the key's shape when the tape
/// has no slot for it.
pub open spec fn gradient_after_backward<S: Scalar>(
    tape: TapeView<S>,
    terminal: SlotKey,
    key: SlotKey,
) -> Seq<S> {
    match find_key(tape.with_slot(terminal).keys, key) {
        Some(i) => backward_grads(tape, terminal)[i],
        None => constant(volume(key.shape), S::spec_zero()),
    }
}

} // verus!
