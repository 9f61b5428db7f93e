//! The operations on tensors.  Each computes the forward value, gives the
//! result a fresh identifier, and, when the consumed operand owns a tape,
//! records the operation with its local derivatives and hands the tape on
//! to the result.
use crate::buffer::{
    extends, extends_shape, lemma_extends, lemma_volume_1, lemma_volume_2, same_shape, Buffer,
};
use crate::flat;
use crate::flat::{constant, matmul, plus_cyclic, sum_all, zip_minus, zip_plus, zip_times};
use crate::gradients::{repeats, Gradients, OpType, SlotKey, TapeView};
use crate::scalar::Scalar;
use crate::tensor::{
    backward_grads, gradient_after_backward, recorded_binary, recorded_unary, NoTape, TapeManager,
    Tensor, WithTape,
};
use crate::unique_id::UniqueIds;
use vstd::prelude::*;

verus! {

/// Why an operation refuses its operands.
#[derive(Clone, Copy, Debug, PartialEq, Eq)]
pub enum OpError {
    /// The shapes of the operands do not fit the operation.
    ShapeMismatch,
    /// The result would have more elements than a machine word can count.
    TooLarge,
    /// An operand has an identifier that the allocator has not issued.
    ForeignIdentifier,
    /// The allocator has no identifier left for the result.
    NoIdentifier,
}

/// How the shapes of the two operands of an operation must fit.
#[derive(Clone, Copy, Debug, PartialEq, Eq)]
pub enum Relation {
    /// An `m` by `n` matrix and an `n` by `o` matrix.
    MatMat,
    /// A vector of `n` elements and an `n` by `o` matrix.
    VecMat,
    /// The first shape is the second with one more axis in front.
    Broadcast,
    /// The two shapes are the same.
    Same,
}

/// Whether two shapes fit a relation.
pub open spec fn shapes_fit(relation: Relation, lhs: Seq<usize>, rhs: Seq<usize>) -> bool {
    match relation {
        Relation::MatMat => lhs.len() == 2 && rhs.len() == 2 && lhs[1] == rhs[0],
        Relation::VecMat => lhs.len() == 1 && rhs.len() == 2 && lhs[0] == rhs[0],
        Relation::Broadcast => extends(lhs, rhs),
        Relation::Same => lhs == rhs,
    }
}

/// Why an operation refuses operands of the given shapes and identifiers,
/// if it does: the first of shapes that do not fit, a matrix product too
/// large to count, an operand the allocator has not issued, and an
/// allocator without an identifier left.
pub open spec fn refusal(
    relation: Relation,
    lhs: Seq<usize>,
    rhs: Seq<usize>,
    lhs_id: usize,
    rhs_id: usize,
    ids: UniqueIds,
) -> Option<OpError> {
    if !shapes_fit(relation, lhs, rhs) {
        Some(OpError::ShapeMismatch)
    } else if relation == Relation::MatMat && lhs[0] * rhs[1] > usize::MAX {
        Some(OpError::TooLarge)
    } else if !ids.issued(lhs_id) || !ids.issued(rhs_id) {
        Some(OpError::ForeignIdentifier)
    } else if !ids.has_more() {
        Some(OpError::NoIdentifier)
    } else {
        None
    }
}

/// Checks the operands of an operation before anything is computed or
/// recorded.
pub fn validate(
    relation: Relation,
    lhs: &Vec<usize>,
    rhs: &Vec<usize>,
    lhs_id: usize,
    rhs_id: usize,
    ids: &UniqueIds,
) -> (r: Option<OpError>)
    ensures
        r == refusal(relation, lhs@, rhs@, lhs_id, rhs_id, *ids),
{
    let fit = match relation {
        Relation::MatMat => lhs.len() == 2 && rhs.len() == 2 && lhs[1] == rhs[0],
        Relation::VecMat => lhs.len() == 1 && rhs.len() == 2 && lhs[0] == rhs[0],
        Relation::Broadcast => extends_shape(lhs, rhs),
        Relation::Same => same_shape(lhs, rhs),
    };
    if !fit {
        return Some(OpError::ShapeMismatch);
    }
    match relation {
        Relation::MatMat => {
            if lhs[0].checked_mul(rhs[1]).is_none() {
                return Some(OpError::TooLarge);
            }
        },
        _ => {},
    }
    if lhs_id >= ids.next || rhs_id >= ids.next {
        Some(OpError::ForeignIdentifier)
    } else if !ids.can_issue() {
        Some(OpError::NoIdentifier)
    } else {
        None
    }
}

/// An operation that was refused: the reason, and the operand it would
/// have consumed, as it was.
pub struct Refused<S, Mgr> {
    pub error: OpError,
    pub operand: Tensor<S, Mgr>,
}

/// The tape a result carries after a two-parent operation: the operand's
/// tape with the operation recorded, or none when the operand had none.
pub open spec fn binary_tape<S: Scalar>(
    before: Option<TapeView<S>>,
    op_type: OpType,
    lhs: SlotKey,
    rhs: SlotKey,
    out: SlotKey,
    lhs_deriv: Seq<S>,
    rhs_deriv: Seq<S>,
) -> Option<TapeView<S>> {
    match before {
        Some(tape) => Some(recorded_binary(tape, op_type, lhs, rhs, out, lhs_deriv, rhs_deriv)),
        None => None,
    }
}

/// A run of `m` times `v` scalars holds exactly `m` repeats of `v`.
proof fn lemma_repeats(m: nat, v: nat)
    ensures
        m * v == repeats(m * v, v) * v,
{
    if v > 0 {
        vstd::arithmetic::div_mod::lemma_div_by_multiple(m as int, v as int);
        assert(m * v == v * m) by (nonlinear_arith);
    } else {
        assert(m * v == 0) by (nonlinear_arith)
            requires
                v == 0,
        ;
    }
}

/// Matrix product of an `m` by `n` tensor with an `n` by `o` tensor.
///
/// The local derivative recorded for the left operand is the right
/// operand's data, and the one recorded for the right operand is the left
/// operand's data.
pub fn matmat_mul<S: Scalar, Mgr: TapeManager<S>>(
    ids: &mut UniqueIds,
    lhs: Tensor<S, Mgr>,
    rhs: &Tensor<S, NoTape>,
) -> (r: Tensor<S, Mgr>)
    requires
        old(ids).has_more(),
        old(ids).issued(lhs.id),
        old(ids).issued(rhs.id),
        lhs.wf(),
        rhs.wf(),
        lhs.dims().len() == 2,
        rhs.dims().len() == 2,
        lhs.dims()[1] == rhs.dims()[0],
        lhs.dims()[0] * rhs.dims()[1] <= usize::MAX,
    ensures
        r.wf(),
        r.id == old(ids).next,
        final(ids).next == old(ids).next + 1,
        r.id != lhs.id,
        r.id != rhs.id,
        r.dims() == seq![lhs.dims()[0], rhs.dims()[1]],
        r@ == matmul(lhs@, rhs@, lhs.dims()[0] as nat, lhs.dims()[1] as nat, rhs.dims()[1] as nat),
        r.tape.tape_view() == binary_tape(
            lhs.tape.tape_view(),
            OpType::MatMul { m: lhs.dims()[0], n: lhs.dims()[1], o: rhs.dims()[1] },
            lhs.key(),
            rhs.key(),
            r.key(),
            rhs@,
            lhs@,
        ),
{
    let m = lhs.data.shape[0];
    let n = lhs.data.shape[1];
    let o = rhs.data.shape[1];
    let result = Tensor::new(ids, lhs.data.matmul(&rhs.data));
    let (lhs, mut tape_manager) = lhs.split_tape_manager();
    proof {
        lemma_volume_2(lhs.dims());
        lemma_volume_2(rhs.dims());
        lemma_volume_2(result.dims());
    }
    tape_manager.record_binary(
        OpType::MatMul { m, n, o },
        &lhs,
        rhs,
        &result,
        // the derivatives are swapped for matrix multiplication
        flat::copied(&rhs.data.data),
        flat::copied(&lhs.data.data),
    );
    result.with_tape_manager(tape_manager)
}

/// Product of a vector of `n` elements, taken as a single row, with an `n`
/// by `o` tensor.
///
/// The local derivatives are recorded as for [`matmat_mul`], with one row.
pub fn vecmat_mul<S: Scalar, Mgr: TapeManager<S>>(
    ids: &mut UniqueIds,
    lhs: Tensor<S, Mgr>,
    rhs: &Tensor<S, NoTape>,
) -> (r: Tensor<S, Mgr>)
    requires
        old(ids).has_more(),
        old(ids).issued(lhs.id),
        old(ids).issued(rhs.id),
        lhs.wf(),
        rhs.wf(),
        lhs.dims().len() == 1,
        rhs.dims().len() == 2,
        lhs.dims()[0] == rhs.dims()[0],
    ensures
        r.wf(),
        r.id == old(ids).next,
        final(ids).next == old(ids).next + 1,
        r.id != lhs.id,
        r.id != rhs.id,
        r.dims() == seq![rhs.dims()[1]],
        r@ == matmul(lhs@, rhs@, 1, lhs.dims()[0] as nat, rhs.dims()[1] as nat),
        r.tape.tape_view() == binary_tape(
            lhs.tape.tape_view(),
            OpType::MatMul { m: 1, n: lhs.dims()[0], o: rhs.dims()[1] },
            lhs.key(),
            rhs.key(),
            r.key(),
            rhs@,
            lhs@,
        ),
{
    let n = lhs.data.shape[0];
    let o = rhs.data.shape[1];
    let result = Tensor::new(ids, lhs.data.vecmat(&rhs.data));
    let (lhs, mut tape_manager) = lhs.split_tape_manager();
    proof {
        lemma_volume_1(lhs.dims());
        lemma_volume_2(rhs.dims());
        lemma_volume_1(result.dims());
    }
    tape_manager.record_binary(
        OpType::MatMul { m: 1, n, o },
        &lhs,
        rhs,
        &result,
        // the derivatives are swapped for matrix multiplication
        flat::copied(&rhs.data.data),
        flat::copied(&lhs.data.data),
    );
    result.with_tape_manager(tape_manager)
}

/// The scalar `1 / m`, for a count `m`.
pub open spec fn one_over<S: Scalar>(m: usize) -> S {
    S::spec_one().spec_over(S::spec_from_count(m))
}

/// Adds a tensor that lacks the leading axis to every slice of `lhs`
/// along that axis.
///
/// The local derivative of `lhs` is all ones; that of `rhs` is `1 / m` in
/// every place, `m` being the extent of the leading axis, so that in the
/// backward pass `rhs` receives the mean of the upstream gradient over that
/// axis.
pub fn broadcast_add<S: Scalar, Mgr: TapeManager<S>>(
    ids: &mut UniqueIds,
    lhs: Tensor<S, Mgr>,
    rhs: &Tensor<S, NoTape>,
) -> (r: Tensor<S, Mgr>)
    requires
        old(ids).has_more(),
        old(ids).issued(lhs.id),
        old(ids).issued(rhs.id),
        lhs.wf(),
        rhs.wf(),
        extends(lhs.dims(), rhs.dims()),
    ensures
        r.wf(),
        r.id == old(ids).next,
        final(ids).next == old(ids).next + 1,
        r.id != lhs.id,
        r.id != rhs.id,
        r.dims() == lhs.dims(),
        r@ == plus_cyclic(lhs@, rhs@),
        r.tape.tape_view() == binary_tape(
            lhs.tape.tape_view(),
            OpType::Broadcast,
            lhs.key(),
            rhs.key(),
            r.key(),
            constant(lhs@.len(), S::spec_one()),
            constant(rhs@.len(), one_over::<S>(lhs.dims()[0])),
        ),
{
    let m = lhs.data.shape[0];
    let result = Tensor::new(ids, lhs.data.plus_broadcast(&rhs.data));
    let (lhs, mut tape_manager) = lhs.split_tape_manager();
    proof {
        lemma_extends(lhs.dims(), rhs.dims());
        lemma_repeats(m as nat, rhs@.len());
    }
    tape_manager.record_binary(
        OpType::Broadcast,
        &lhs,
        rhs,
        &result,
        flat::filled(lhs.data.data.len(), S::one()),
        flat::filled(rhs.data.data.len(), S::one().over(S::from_count(m))),
    );
    result.with_tape_manager(tape_manager)
}

/// Adds a tensor that lacks the leading axis to every slice of `lhs`
/// along that axis.
///
/// Both local derivatives are all ones, so that in the backward pass `lhs`
/// receives the upstream gradient and `rhs` its sum over the leading axis.
pub fn add_broadcast_rhs_first<S: Scalar, Mgr: TapeManager<S>>(
    ids: &mut UniqueIds,
    lhs: Tensor<S, Mgr>,
    rhs: &Tensor<S, NoTape>,
) -> (r: Tensor<S, Mgr>)
    requires
        old(ids).has_more(),
        old(ids).issued(lhs.id),
        old(ids).issued(rhs.id),
        lhs.wf(),
        rhs.wf(),
        extends(lhs.dims(), rhs.dims()),
    ensures
        r.wf(),
        r.id == old(ids).next,
        final(ids).next == old(ids).next + 1,
        r.id != lhs.id,
        r.id != rhs.id,
        r.dims() == lhs.dims(),
        r@ == plus_cyclic(lhs@, rhs@),
        r.tape.tape_view() == binary_tape(
            lhs.tape.tape_view(),
            OpType::Broadcast,
            lhs.key(),
            rhs.key(),
            r.key(),
            constant(lhs@.len(), S::spec_one()),
            constant(rhs@.len(), S::spec_one()),
        ),
{
    let m = lhs.data.shape[0];
    let result = Tensor::new(ids, lhs.data.plus_broadcast(&rhs.data));
    let (lhs, mut tape_manager) = lhs.split_tape_manager();
    proof {
        lemma_extends(lhs.dims(), rhs.dims());
        lemma_repeats(m as nat, rhs@.len());
    }
    tape_manager.record_binary(
        OpType::Broadcast,
        &lhs,
        rhs,
        &result,
        flat::filled(lhs.data.data.len(), S::one()),
        flat::filled(rhs.data.data.len(), S::one()),
    );
    result.with_tape_manager(tape_manager)
}

/// Elementwise sum of two tensors of one shape.  Both local derivatives
/// are all ones.
pub fn add<S: Scalar, Mgr: TapeManager<S>>(
    ids: &mut UniqueIds,
    lhs: &Tensor<S, NoTape>,
    rhs: Tensor<S, Mgr>,
) -> (r: Tensor<S, Mgr>)
    requires
        old(ids).has_more(),
        old(ids).issued(lhs.id),
        old(ids).issued(rhs.id),
        lhs.wf(),
        rhs.wf(),
        lhs.dims() == rhs.dims(),
    ensures
        r.wf(),
        r.id == old(ids).next,
        final(ids).next == old(ids).next + 1,
        r.id != lhs.id,
        r.id != rhs.id,
        r.dims() == lhs.dims(),
        r@ == zip_plus(lhs@, rhs@),
        r.tape.tape_view() == binary_tape(
            rhs.tape.tape_view(),
            OpType::Normal,
            lhs.key(),
            rhs.key(),
            r.key(),
            constant(lhs@.len(), S::spec_one()),
            constant(rhs@.len(), S::spec_one()),
        ),
{
    let result = Tensor::new(ids, lhs.data.plus(&rhs.data));
    let (rhs, mut tape_manager) = rhs.split_tape_manager();
    tape_manager.record_binary(
        OpType::Normal,
        lhs,
        &rhs,
        &result,
        flat::filled(lhs.data.data.len(), S::one()),
        flat::filled(rhs.data.data.len(), S::one()),
    );
    result.with_tape_manager(tape_manager)
}

/// The scalar `-1`.
pub open spec fn minus_one<S: Scalar>() -> S {
    S::spec_zero().spec_minus(S::spec_one())
}

/// Elementwise difference of two tensors of one shape.  The local
/// derivative of `lhs` is all ones, that of `rhs` is `-1` in every place.
pub fn sub<S: Scalar, Mgr: TapeManager<S>>(
    ids: &mut UniqueIds,
    lhs: &Tensor<S, NoTape>,
    rhs: Tensor<S, Mgr>,
) -> (r: Tensor<S, Mgr>)
    requires
        old(ids).has_more(),
        old(ids).issued(lhs.id),
        old(ids).issued(rhs.id),
        lhs.wf(),
        rhs.wf(),
        lhs.dims() == rhs.dims(),
    ensures
        r.wf(),
        r.id == old(ids).next,
        final(ids).next == old(ids).next + 1,
        r.id != lhs.id,
        r.id != rhs.id,
        r.dims() == lhs.dims(),
        r@ == zip_minus(lhs@, rhs@),
        r.tape.tape_view() == binary_tape(
            rhs.tape.tape_view(),
            OpType::Normal,
            lhs.key(),
            rhs.key(),
            r.key(),
            constant(lhs@.len(), S::spec_one()),
            constant(rhs@.len(), minus_one::<S>()),
        ),
{
    let result = Tensor::new(ids, lhs.data.minus(&rhs.data));
    let (rhs, mut tape_manager) = rhs.split_tape_manager();
    tape_manager.record_binary(
        OpType::Normal,
        lhs,
        &rhs,
        &result,
        flat::filled(lhs.data.data.len(), S::one()),
        flat::filled(rhs.data.data.len(), S::zero().minus(S::one())),
    );
    result.with_tape_manager(tape_manager)
}

/// Elementwise product of two tensors of one shape.  The local
/// derivative of each operand is the other operand's data.
pub fn mul<S: Scalar, Mgr: TapeManager<S>>(
    ids: &mut UniqueIds,
    lhs: &Tensor<S, NoTape>,
    rhs: Tensor<S, Mgr>,
) -> (r: Tensor<S, Mgr>)
    requires
        old(ids).has_more(),
        old(ids).issued(lhs.id),
        old(ids).issued(rhs.id),
        lhs.wf(),
        rhs.wf(),
        lhs.dims() == rhs.dims(),
    ensures
        r.wf(),
        r.id == old(ids).next,
        final(ids).next == old(ids).next + 1,
        r.id != lhs.id,
        r.id != rhs.id,
        r.dims() == lhs.dims(),
        r@ == zip_times(lhs@, rhs@),
        r.tape.tape_view() == binary_tape(
            rhs.tape.tape_view(),
            OpType::Normal,
            lhs.key(),
            rhs.key(),
            r.key(),
            rhs@,
            lhs@,
        ),
{
    let result = Tensor::new(ids, lhs.data.times(&rhs.data));
    let (rhs, mut tape_manager) = rhs.split_tape_manager();
    tape_manager.record_binary(
        OpType::Normal,
        lhs,
        &rhs,
        &result,
        flat::copied(&rhs.data.data),
        flat::copied(&lhs.data.data),
    );
    result.with_tape_manager(tape_manager)
}

/// As [`matmat_mul`], with the operands checked first.  Operands that do not
/// fit are refused before any buffer or tape is touched: the operand that
/// would have been consumed comes back as it was, and no identifier is
/// issued.
pub fn try_matmat_mul<S: Scalar, Mgr: TapeManager<S>>(
    ids: &mut UniqueIds,
    lhs: Tensor<S, Mgr>,
    rhs: &Tensor<S, NoTape>,
) -> (r: Result<Tensor<S, Mgr>, Refused<S, Mgr>>)
    requires
        lhs.wf(),
        rhs.wf(),
    ensures
        match r {
            Ok(t) => {
                &&& refusal(Relation::MatMat, lhs.dims(), rhs.dims(), lhs.id, rhs.id, *old(ids)) is None
                &&& t.wf()
                &&& t.id == old(ids).next
                &&& final(ids).next == old(ids).next + 1
                &&& t.id != lhs.id
                &&& t.id != rhs.id
                &&& t.dims() == seq![lhs.dims()[0], rhs.dims()[1]]
                &&& t@ == matmul(lhs@, rhs@, lhs.dims()[0] as nat, lhs.dims()[1] as nat, rhs.dims()[1] as nat)
                &&& t.tape.tape_view() == binary_tape(
                    lhs.tape.tape_view(),
                    OpType::MatMul { m: lhs.dims()[0], n: lhs.dims()[1], o: rhs.dims()[1] },
                    lhs.key(),
                    rhs.key(),
                    t.key(),
                    rhs@,
                    lhs@,
                )
            },
            Err(e) => {
                &&& refusal(Relation::MatMat, lhs.dims(), rhs.dims(), lhs.id, rhs.id, *old(ids)) == Some(
                    e.error,
                )
                &&& e.operand == lhs
                &&& *final(ids) == *old(ids)
            },
        },
{
    match validate(Relation::MatMat, &lhs.data.shape, &rhs.data.shape, lhs.id, rhs.id, ids) {
        Some(error) => Err(Refused { error, operand: lhs }),
        None => Ok(self::matmat_mul(ids, lhs, rhs)),
    }
}

/// As [`vecmat_mul`], with the operands checked first.  Operands that do not
/// fit are refused before any buffer or tape is touched: the operand that
/// would have been consumed comes back as it was, and no identifier is
/// issued.
pub fn try_vecmat_mul<S: Scalar, Mgr: TapeManager<S>>(
    ids: &mut UniqueIds,
    lhs: Tensor<S, Mgr>,
    rhs: &Tensor<S, NoTape>,
) -> (r: Result<Tensor<S, Mgr>, Refused<S, Mgr>>)
    requires
        lhs.wf(),
        rhs.wf(),
    ensures
        match r {
            Ok(t) => {
                &&& refusal(Relation::VecMat, lhs.dims(), rhs.dims(), lhs.id, rhs.id, *old(ids)) is None
                &&& t.wf()
                &&& t.id == old(ids).next
                &&& final(ids).next == old(ids).next + 1
                &&& t.id != lhs.id
                &&& t.id != rhs.id
                &&& t.dims() == seq![rhs.dims()[1]]
                &&& t@ == matmul(lhs@, rhs@, 1, lhs.dims()[0] as nat, rhs.dims()[1] as nat)
                &&& t.tape.tape_view() == binary_tape(
                    lhs.tape.tape_view(),
                    OpType::MatMul { m: 1, n: lhs.dims()[0], o: rhs.dims()[1] },
                    lhs.key(),
                    rhs.key(),
                    t.key(),
                    rhs@,
                    lhs@,
                )
            },
            Err(e) => {
                &&& refusal(Relation::VecMat, lhs.dims(), rhs.dims(), lhs.id, rhs.id, *old(ids)) == Some(
                    e.error,
                )
                &&& e.operand == lhs
                &&& *final(ids) == *old(ids)
            },
        },
{
    match validate(Relation::VecMat, &lhs.data.shape, &rhs.data.shape, lhs.id, rhs.id, ids) {
        Some(error) => Err(Refused { error, operand: lhs }),
        None => Ok(self::vecmat_mul(ids, lhs, rhs)),
    }
}

/// As [`broadcast_add`], with the operands checked first.  Operands that do not
/// fit are refused before any buffer or tape is touched: the operand that
/// would have been consumed comes back as it was, and no identifier is
/// issued.
pub fn try_broadcast_add<S: Scalar, Mgr: TapeManager<S>>(
    ids: &mut UniqueIds,
    lhs: Tensor<S, Mgr>,
    rhs: &Tensor<S, NoTape>,
) -> (r: Result<Tensor<S, Mgr>, Refused<S, Mgr>>)
    requires
        lhs.wf(),
        rhs.wf(),
    ensures
        match r {
            Ok(t) => {
                &&& refusal(Relation::Broadcast, lhs.dims(), rhs.dims(), lhs.id, rhs.id, *old(ids)) is None
                &&& t.wf()
                &&& t.id == old(ids).next
                &&& final(ids).next == old(ids).next + 1
                &&& t.id != lhs.id
                &&& t.id != rhs.id
                &&& t.dims() == lhs.dims()
                &&& t@ == plus_cyclic(lhs@, rhs@)
                &&& t.tape.tape_view() == binary_tape(
                    lhs.tape.tape_view(),
                    OpType::Broadcast,
                    lhs.key(),
                    rhs.key(),
                    t.key(),
                    constant(lhs@.len(), S::spec_one()),
                    constant(rhs@.len(), one_over::<S>(lhs.dims()[0])),
                )
            },
            Err(e) => {
                &&& refusal(Relation::Broadcast, lhs.dims(), rhs.dims(), lhs.id, rhs.id, *old(ids)) == Some(
                    e.error,
                )
                &&& e.operand == lhs
                &&& *final(ids) == *old(ids)
            },
        },
{
    match validate(Relation::Broadcast, &lhs.data.shape, &rhs.data.shape, lhs.id, rhs.id, ids) {
        Some(error) => Err(Refused { error, operand: lhs }),
        None => Ok(self::broadcast_add(ids, lhs, rhs)),
    }
}

/// As [`add_broadcast_rhs_first`], with the operands checked first.  Operands that do not
/// fit are refused before any buffer or tape is touched: the operand that
/// would have been consumed comes back as it was, and no identifier is
/// issued.
pub fn try_add_broadcast_rhs_first<S: Scalar, Mgr: TapeManager<S>>(
    ids: &mut UniqueIds,
    lhs: Tensor<S, Mgr>,
    rhs: &Tensor<S, NoTape>,
) -> (r: Result<Tensor<S, Mgr>, Refused<S, Mgr>>)
    requires
        lhs.wf(),
        rhs.wf(),
    ensures
        match r {
            Ok(t) => {
                &&& refusal(Relation::Broadcast, lhs.dims(), rhs.dims(), lhs.id, rhs.id, *old(ids)) is None
                &&& t.wf()
                &&& t.id == old(ids).next
                &&& final(ids).next == old(ids).next + 1
                &&& t.id != lhs.id
                &&& t.id != rhs.id
                &&& t.dims() == lhs.dims()
                &&& t@ == plus_cyclic(lhs@, rhs@)
                &&& t.tape.tape_view() == binary_tape(
                    lhs.tape.tape_view(),
                    OpType::Broadcast,
                    lhs.key(),
                    rhs.key(),
                    t.key(),
                    constant(lhs@.len(), S::spec_one()),
                    constant(rhs@.len(), S::spec_one()),
                )
            },
            Err(e) => {
                &&& refusal(Relation::Broadcast, lhs.dims(), rhs.dims(), lhs.id, rhs.id, *old(ids)) == Some(
                    e.error,
                )
                &&& e.operand == lhs
                &&& *final(ids) == *old(ids)
            },
        },
{
    match validate(Relation::Broadcast, &lhs.data.shape, &rhs.data.shape, lhs.id, rhs.id, ids) {
        Some(error) => Err(Refused { error, operand: lhs }),
        None => Ok(self::add_broadcast_rhs_first(ids, lhs, rhs)),
    }
}

/// As [`add`], with the operands checked first.  Operands that do not
/// fit are refused before any buffer or tape is touched: the operand that
/// would have been consumed comes back as it was, and no identifier is
/// issued.
pub fn try_add<S: Scalar, Mgr: TapeManager<S>>(
    ids: &mut UniqueIds,
    lhs: &Tensor<S, NoTape>,
    rhs: Tensor<S, Mgr>,
) -> (r: Result<Tensor<S, Mgr>, Refused<S, Mgr>>)
    requires
        lhs.wf(),
        rhs.wf(),
    ensures
        match r {
            Ok(t) => {
                &&& refusal(Relation::Same, lhs.dims(), rhs.dims(), lhs.id, rhs.id, *old(ids)) is None
                &&& t.wf()
                &&& t.id == old(ids).next
                &&& final(ids).next == old(ids).next + 1
                &&& t.id != lhs.id
                &&& t.id != rhs.id
                &&& t.dims() == lhs.dims()
                &&& t@ == zip_plus(lhs@, rhs@)
                &&& t.tape.tape_view() == binary_tape(
                    rhs.tape.tape_view(),
                    OpType::Normal,
                    lhs.key(),
                    rhs.key(),
                    t.key(),
                    constant(lhs@.len(), S::spec_one()),
                    constant(rhs@.len(), S::spec_one()),
                )
            },
            Err(e) => {
                &&& refusal(Relation::Same, lhs.dims(), rhs.dims(), lhs.id, rhs.id, *old(ids)) == Some(
                    e.error,
                )
                &&& e.operand == rhs
                &&& *final(ids) == *old(ids)
            },
        },
{
    match validate(Relation::Same, &lhs.data.shape, &rhs.data.shape, lhs.id, rhs.id, ids) {
        Some(error) => Err(Refused { error, operand: rhs }),
        None => Ok(self::add(ids, lhs, rhs)),
    }
}

/// As [`sub`], with the operands checked first.  Operands that do not
/// fit are refused before any buffer or tape is touched: the operand that
/// would have been consumed comes back as it was, and no identifier is
/// issued.
pub fn try_sub<S: Scalar, Mgr: TapeManager<S>>(
    ids: &mut UniqueIds,
    lhs: &Tensor<S, NoTape>,
    rhs: Tensor<S, Mgr>,
) -> (r: Result<Tensor<S, Mgr>, Refused<S, Mgr>>)
    requires
        lhs.wf(),
        rhs.wf(),
    ensures
        match r {
            Ok(t) => {
                &&& refusal(Relation::Same, lhs.dims(), rhs.dims(), lhs.id, rhs.id, *old(ids)) is None
                &&& t.wf()
                &&& t.id == old(ids).next
                &&& final(ids).next == old(ids).next + 1
                &&& t.id != lhs.id
                &&& t.id != rhs.id
                &&& t.dims() == lhs.dims()
                &&& t@ == zip_minus(lhs@, rhs@)
                &&& t.tape.tape_view() == binary_tape(
                    rhs.tape.tape_view(),
                    OpType::Normal,
                    lhs.key(),
                    rhs.key(),
                    t.key(),
                    constant(lhs@.len(), S::spec_one()),
                    constant(rhs@.len(), minus_one::<S>()),
                )
            },
            Err(e) => {
                &&& refusal(Relation::Same, lhs.dims(), rhs.dims(), lhs.id, rhs.id, *old(ids)) == Some(
                    e.error,
                )
                &&& e.operand == rhs
                &&& *final(ids) == *old(ids)
            },
        },
{
    match validate(Relation::Same, &lhs.data.shape, &rhs.data.shape, lhs.id, rhs.id, ids) {
        Some(error) => Err(Refused { error, operand: rhs }),
        None => Ok(self::sub(ids, lhs, rhs)),
    }
}

/// As [`mul`], with the operands checked first.  Operands that do not
/// fit are refused before any buffer or tape is touched: the operand that
/// would have been consumed comes back as it was, and no identifier is
/// issued.
pub fn try_mul<S: Scalar, Mgr: TapeManager<S>>(
    ids: &mut UniqueIds,
    lhs: &Tensor<S, NoTape>,
    rhs: Tensor<S, Mgr>,
) -> (r: Result<Tensor<S, Mgr>, Refused<S, Mgr>>)
    requires
        lhs.wf(),
        rhs.wf(),
    ensures
        match r {
            Ok(t) => {
                &&& refusal(Relation::Same, lhs.dims(), rhs.dims(), lhs.id, rhs.id, *old(ids)) is None
                &&& t.wf()
                &&& t.id == old(ids).next
                &&& final(ids).next == old(ids).next + 1
                &&& t.id != lhs.id
                &&& t.id != rhs.id
                &&& t.dims() == lhs.dims()
                &&& t@ == zip_times(lhs@, rhs@)
                &&& t.tape.tape_view() == binary_tape(
                    rhs.tape.tape_view(),
                    OpType::Normal,
                    lhs.key(),
                    rhs.key(),
                    t.key(),
                    rhs@,
                    lhs@,
                )
            },
            Err(e) => {
                &&& refusal(Relation::Same, lhs.dims(), rhs.dims(), lhs.id, rhs.id, *old(ids)) == Some(
                    e.error,
                )
                &&& e.operand == rhs
                &&& *final(ids) == *old(ids)
            },
        },
{
    match validate(Relation::Same, &lhs.data.shape, &rhs.data.shape, lhs.id, rhs.id, ids) {
        Some(error) => Err(Refused { error, operand: rhs }),
        None => Ok(self::mul(ids, lhs, rhs)),
    }
}

/// The tape a result carries after a one-parent operation.
pub open spec fn unary_tape<S: Scalar>(
    before: Option<TapeView<S>>,
    op_type: OpType,
    parent: SlotKey,
    out: SlotKey,
    deriv: Seq<S>,
) -> Option<TapeView<S>> {
    match before {
        Some(tape) => Some(recorded_unary(tape, op_type, parent, out, deriv)),
        None => None,
    }
}

/// The sum of all elements, as a tensor without axes.  The local
/// derivative is all ones.
pub fn sum<S: Scalar, Mgr: TapeManager<S>>(ids: &mut UniqueIds, t: Tensor<S, Mgr>) -> (r: Tensor<
    S,
    Mgr,
>)
    requires
        old(ids).has_more(),
        old(ids).issued(t.id),
        t.wf(),
    ensures
        r.wf(),
        r.id == old(ids).next,
        final(ids).next == old(ids).next + 1,
        r.id != t.id,
        r.dims() == Seq::<usize>::empty(),
        r@ == seq![sum_all(t@)],
        r.tape.tape_view() == unary_tape(
            t.tape.tape_view(),
            OpType::Broadcast,
            t.key(),
            r.key(),
            constant(t@.len(), S::spec_one()),
        ),
{
    let result = Tensor::new(ids, Buffer::scalar(t.data.sum()));
    let (t, mut tape_manager) = t.split_tape_manager();
    tape_manager.record_unary(
        OpType::Broadcast,
        &t,
        &result,
        flat::filled(t.data.data.len(), S::one()),
    );
    result.with_tape_manager(tape_manager)
}

/// The mean of all elements, as a tensor without axes: their sum over
/// their count.  The local derivative is one over the count in every
/// place.
pub fn mean<S: Scalar, Mgr: TapeManager<S>>(ids: &mut UniqueIds, t: Tensor<S, Mgr>) -> (r: Tensor<
    S,
    Mgr,
>)
    requires
        old(ids).has_more(),
        old(ids).issued(t.id),
        t.wf(),
    ensures
        r.wf(),
        r.id == old(ids).next,
        final(ids).next == old(ids).next + 1,
        r.id != t.id,
        r.dims() == Seq::<usize>::empty(),
        r@ == seq![sum_all(t@).spec_over(S::spec_from_count(t@.len() as usize))],
        r.tape.tape_view() == unary_tape(
            t.tape.tape_view(),
            OpType::Broadcast,
            t.key(),
            r.key(),
            constant(t@.len(), one_over::<S>(t@.len() as usize)),
        ),
{
    let n = t.data.data.len();
    let count = S::from_count(n);
    let result = Tensor::new(ids, Buffer::scalar(t.data.sum().over(count)));
    let (t, mut tape_manager) = t.split_tape_manager();
    tape_manager.record_unary(
        OpType::Broadcast,
        &t,
        &result,
        flat::filled(n, S::one().over(count)),
    );
    result.with_tape_manager(tape_manager)
}

/// Runs the backward pass from a tensor that owns a tape: its gradient is
/// seeded with ones, and the recorded operations are replayed in reverse.
/// The tape is used up.
pub fn backward<S: Scalar>(t: Tensor<S, WithTape<S>>) -> (r: Gradients<S>)
    requires
        t.wf(),
    ensures
        r.wf(),
        r.keys() == t.tape.0@.with_slot(t.key()).keys,
        r.grads() == backward_grads(t.tape.0@, t.key()),
        forall|key: SlotKey|
            #[trigger] r.gradient(key) == gradient_after_backward(t.tape.0@, t.key(), key),
{
    let Tensor { id, data, tape } = t;
    // the length of a run that exists fits a machine word
    let n = data.data.len();
    let mut tape = tape.0;
    let terminal = tape.gradient_ref_for(id, &data.shape);
    tape.backward(terminal)
}

} // verus!
