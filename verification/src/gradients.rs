//! The tape: an append-only log of the operations of one computation chain,
//! the local derivatives they stored, and one gradient slot for every
//! tensor they mention.
use crate::buffer::{copy_shape, element_count, same_shape, volume, MAX_RANK};
use crate::flat;
use crate::flat::{constant, matmul_nt, matmul_tn, times_cyclic, times_folded, zip_plus, zip_times};
use crate::scalar::Scalar;
use vstd::prelude::*;

verus! {

/// A handle to a gradient slot of a tape.
#[derive(Clone, Copy, Debug)]
pub struct GradientRef {
    pub index: usize,
}

/// A handle to a local derivative stored in a tape.
#[derive(Clone, Copy, Debug)]
pub struct DerivativeRef {
    pub index: usize,
}

/// How the backward pass combines the upstream gradient with a stored
/// local derivative.
#[derive(Clone, Copy, Debug)]
pub enum OpType {
    /// Element by element: operands, derivatives and result have one length.
    Normal,
    /// One side was repeated along a new leading axis; its gradient is
    /// summed over that axis.
    Broadcast,
    /// An `m` by `n` matrix times an `n` by `o` matrix.
    MatMul { m: usize, n: usize, o: usize },
}

/// The record of an operation with one parent.
#[derive(Clone, Copy, Debug)]
pub struct UnaryOp {
    pub op_type: OpType,
    pub parent_grad: GradientRef,
    pub parent_deriv: DerivativeRef,
    pub result_grad: GradientRef,
}

/// The record of an operation with two parents.
#[derive(Clone, Copy, Debug)]
pub struct BinaryOp {
    pub op_type: OpType,
    pub parent_grads: (GradientRef, GradientRef),
    pub parent_derivs: (DerivativeRef, DerivativeRef),
    pub result_grad: GradientRef,
}

/// One entry of the tape.
#[derive(Clone, Copy, Debug)]
pub enum Operation {
    Unary(UnaryOp),
    Binary(BinaryOp),
}

/// What names a gradient slot: a tensor's identifier and its shape.
pub struct SlotKey {
    pub id: usize,
    pub shape: Seq<usize>,
}

/// The owner of a gradient slot, as the tape stores it.
pub struct Slot {
    pub id: usize,
    pub shape: Vec<usize>,
}

impl View for Slot {
    type V = SlotKey;

    open spec fn view(&self) -> SlotKey {
        SlotKey { id: self.id, shape: self.shape@ }
    }
}

/// The mathematical content of a tape.
pub struct TapeView<S> {
    /// The owner of each gradient slot, in order of first mention.
    pub keys: Seq<SlotKey>,
    /// The accumulated gradient of each slot.
    pub grads: Seq<Seq<S>>,
    /// The stored local derivatives, in order of storing.
    pub derivs: Seq<Seq<S>>,
    /// The recorded operations, in order of recording.
    pub ops: Seq<Operation>,
}

/// The index of the first slot with the given key, if there is one.
pub open spec fn find_key(keys: Seq<SlotKey>, key: SlotKey) -> Option<int>
    decreases keys.len(),
{
    if keys.len() == 0 {
        None
    } else {
        match find_key(keys.drop_last(), key) {
            Some(i) => Some(i),
            None => if keys.last() == key {
                Some(keys.len() - 1)
            } else {
                None
            },
        }
    }
}

/// What `find_key` finds is a slot with that key, and it finds nothing only
/// when no slot has it.
pub proof fn lemma_find_key(keys: Seq<SlotKey>, key: SlotKey)
    ensures
        find_key(keys, key) matches Some(i) ==> 0 <= i < keys.len() && keys[i] == key,
        find_key(keys, key) is None ==> forall|i: int| 0 <= i < keys.len() ==> keys[i] != key,
    decreases keys.len(),
{
    if keys.len() > 0 {
        lemma_find_key(keys.drop_last(), key);
        if find_key(keys, key) is None {
            assert forall|i: int| 0 <= i < keys.len() implies keys[i] != key by {
                if i < keys.len() - 1 {
                    assert(keys.drop_last()[i] == keys[i]);
                }
            }
        } else if find_key(keys.drop_last(), key) is Some {
            let i = find_key(keys.drop_last(), key).unwrap();
            assert(keys.drop_last()[i] == keys[i]);
        }
    }
}

/// Whether no two slots have one key.
pub open spec fn distinct_keys(keys: Seq<SlotKey>) -> bool {
    forall|i: int, j: int| 0 <= i < j < keys.len() ==> keys[i] != keys[j]
}

/// Among distinct keys, the slot that holds a key is the one `find_key`
/// finds.
pub proof fn lemma_find_key_at(keys: Seq<SlotKey>, i: int)
    requires
        distinct_keys(keys),
        0 <= i < keys.len(),
    ensures
        find_key(keys, keys[i]) == Some(i),
{
    lemma_find_key(keys, keys[i]);
}

impl<S: Scalar> TapeView<S> {
    /// The tape with nothing recorded.
    pub open spec fn empty() -> Self {
        TapeView { keys: Seq::empty(), grads: Seq::empty(), derivs: Seq::empty(), ops: Seq::empty() }
    }

    /// The tape after a gradient slot was asked for: unchanged when a slot
    /// with this key exists, and with a new zero-filled slot at the end
    /// otherwise.
    pub open spec fn with_slot(self, key: SlotKey) -> Self {
        if find_key(self.keys, key) is Some {
            self
        } else {
            TapeView {
                keys: self.keys.push(key),
                grads: self.grads.push(constant(volume(key.shape), S::spec_zero())),
                ..self
            }
        }
    }

    /// The index of the slot that `with_slot` answers with.
    pub open spec fn slot_index(self, key: SlotKey) -> int {
        match find_key(self.keys, key) {
            Some(i) => i,
            None => self.keys.len() as int,
        }
    }

    /// The tape after a local derivative was stored.
    pub open spec fn with_derivative(self, deriv: Seq<S>) -> Self {
        TapeView { derivs: self.derivs.push(deriv), ..self }
    }

    /// The tape after an operation was appended.
    pub open spec fn with_operation(self, op: Operation) -> Self {
        TapeView { ops: self.ops.push(op), ..self }
    }

    /// Every slot has a key of its own and holds as many scalars as that
    /// key's shape spans, and every recorded operation fits.
    pub open spec fn wf(self) -> bool {
        &&& self.keys.len() == self.grads.len()
        &&& distinct_keys(self.keys)
        &&& forall|i: int|
            0 <= i < self.keys.len() ==> (#[trigger] self.keys[i]).shape.len() <= MAX_RANK
                && self.grads[i].len() == volume(self.keys[i].shape)
        &&& forall|k: int|
            0 <= k < self.ops.len() ==> op_fits(#[trigger] self.ops[k], self.derivs, self.grads)
    }
}

/// Whether the handles of an operation point at stored derivatives and
/// gradient slots, and the lengths they meet there fit the operation's type.
pub open spec fn op_fits<S>(op: Operation, derivs: Seq<Seq<S>>, grads: Seq<Seq<S>>) -> bool {
    match op {
        Operation::Unary(u) => {
            let p = u.parent_grad.index as int;
            let d = u.parent_deriv.index as int;
            let r = u.result_grad.index as int;
            &&& p < grads.len()
            &&& r < grads.len()
            &&& d < derivs.len()
            &&& grads[p].len() == derivs[d].len()
            &&& match u.op_type {
                OpType::Normal => grads[r].len() == grads[p].len(),
                OpType::Broadcast => grads[p].len() > 0 ==> grads[r].len() > 0,
                OpType::MatMul { .. } => false,
            }
        },
        Operation::Binary(b) => {
            let left = b.parent_grads.0.index as int;
            let right = b.parent_grads.1.index as int;
            let left_deriv = b.parent_derivs.0.index as int;
            let right_deriv = b.parent_derivs.1.index as int;
            let r = b.result_grad.index as int;
            &&& left < grads.len()
            &&& right < grads.len()
            &&& r < grads.len()
            &&& left_deriv < derivs.len()
            &&& right_deriv < derivs.len()
            &&& match b.op_type {
                OpType::Normal => {
                    &&& grads[left].len() == grads[r].len()
                    &&& grads[right].len() == grads[r].len()
                    &&& derivs[left_deriv].len() == grads[r].len()
                    &&& derivs[right_deriv].len() == grads[r].len()
                },
                OpType::Broadcast => {
                    &&& grads[left].len() == grads[r].len()
                    &&& derivs[left_deriv].len() == grads[r].len()
                    &&& grads[right].len() == derivs[right_deriv].len()
                    &&& grads[r].len() == repeats(
                        grads[r].len(),
                        derivs[right_deriv].len(),
                    ) * derivs[right_deriv].len()
                },
                OpType::MatMul { m, n, o } => {
                    &&& grads[left].len() == m * n
                    &&& derivs[left_deriv].len() == n * o
                    &&& grads[right].len() == n * o
                    &&& derivs[right_deriv].len() == m * n
                    &&& grads[r].len() == m * o
                },
            }
        },
    }
}

/// Whether the second family of sequences continues the first: it has at
/// least as many members, and each member of the first has a partner of the
/// same length.
pub open spec fn same_lengths<S>(a: Seq<Seq<S>>, b: Seq<Seq<S>>) -> bool {
    &&& a.len() <= b.len()
    &&& forall|i: int| 0 <= i < a.len() ==> (#[trigger] b[i]).len() == a[i].len()
}

/// An operation that fits keeps fitting when derivatives and slots are
/// appended or slots change their content but not their length.
pub proof fn lemma_fits_same_lengths<S>(
    op: Operation,
    derivs: Seq<Seq<S>>,
    grads: Seq<Seq<S>>,
    derivs2: Seq<Seq<S>>,
    grads2: Seq<Seq<S>>,
)
    requires
        op_fits(op, derivs, grads),
        same_lengths(derivs, derivs2),
        same_lengths(grads, grads2),
    ensures
        op_fits(op, derivs2, grads2),
{
    match op {
        Operation::Unary(u) => {
            assert(grads2[u.parent_grad.index as int].len() == grads[u.parent_grad.index as int].len());
            assert(grads2[u.result_grad.index as int].len() == grads[u.result_grad.index as int].len());
            assert(derivs2[u.parent_deriv.index as int].len()
                == derivs[u.parent_deriv.index as int].len());
        },
        Operation::Binary(b) => {
            assert(grads2[b.parent_grads.0.index as int].len()
                == grads[b.parent_grads.0.index as int].len());
            assert(grads2[b.parent_grads.1.index as int].len()
                == grads[b.parent_grads.1.index as int].len());
            assert(grads2[b.result_grad.index as int].len() == grads[b.result_grad.index as int].len());
            assert(derivs2[b.parent_derivs.0.index as int].len()
                == derivs[b.parent_derivs.0.index as int].len());
            assert(derivs2[b.parent_derivs.1.index as int].len()
                == derivs[b.parent_derivs.1.index as int].len());
        },
    }
}

/// How often a run of `v` scalars fits into `total` scalars.
pub open spec fn repeats(total: nat, v: nat) -> nat {
    if v == 0 {
        0
    } else {
        total / v
    }
}

/// What the parent of a one-parent operation receives: the stored
/// derivative times the gradient that has reached the result.
pub open spec fn unary_share<S: Scalar>(u: UnaryOp, derivs: Seq<Seq<S>>, grads: Seq<Seq<S>>) -> Seq<S> {
    let d = derivs[u.parent_deriv.index as int];
    let g = grads[u.result_grad.index as int];
    match u.op_type {
        OpType::Broadcast => times_cyclic(d, g),
        _ => zip_times(d, g),
    }
}

/// What the first parent of a two-parent operation receives.
pub open spec fn first_share<S: Scalar>(b: BinaryOp, derivs: Seq<Seq<S>>, grads: Seq<Seq<S>>) -> Seq<S> {
    let d = derivs[b.parent_derivs.0.index as int];
    let g = grads[b.result_grad.index as int];
    match b.op_type {
        OpType::MatMul { m, n, o } => matmul_nt(g, d, m as nat, o as nat, n as nat),
        _ => zip_times(d, g),
    }
}

/// What the second parent of a two-parent operation receives.
pub open spec fn second_share<S: Scalar>(b: BinaryOp, derivs: Seq<Seq<S>>, grads: Seq<Seq<S>>) -> Seq<S> {
    let d = derivs[b.parent_derivs.1.index as int];
    let g = grads[b.result_grad.index as int];
    match b.op_type {
        OpType::Normal => zip_times(d, g),
        OpType::Broadcast => times_folded(d, g, d.len(), repeats(g.len(), d.len())),
        OpType::MatMul { m, n, o } => matmul_tn(d, g, m as nat, n as nat, o as nat),
    }
}

/// Adds a share to a slot, element by element.
pub open spec fn accumulate<S: Scalar>(grads: Seq<Seq<S>>, slot: int, share: Seq<S>) -> Seq<Seq<S>> {
    grads.update(slot, zip_plus(grads[slot], share))
}

/// The gradients after one operation was replayed: each parent's slot has
/// grown by its share, the first parent's before the second's.
pub open spec fn step<S: Scalar>(op: Operation, derivs: Seq<Seq<S>>, grads: Seq<Seq<S>>) -> Seq<Seq<S>> {
    match op {
        Operation::Unary(u) => accumulate(
            grads,
            u.parent_grad.index as int,
            unary_share(u, derivs, grads),
        ),
        Operation::Binary(b) => {
            let first = accumulate(grads, b.parent_grads.0.index as int, first_share(b, derivs, grads));
            accumulate(first, b.parent_grads.1.index as int, second_share(b, derivs, first))
        },
    }
}

/// The gradients after all operations were replayed, the last recorded
/// first.
pub open spec fn replay<S: Scalar>(ops: Seq<Operation>, derivs: Seq<Seq<S>>, grads: Seq<Seq<S>>) -> Seq<Seq<S>>
    decreases ops.len(),
{
    if ops.len() == 0 {
        grads
    } else {
        replay(ops.drop_last(), derivs, step(ops.last(), derivs, grads))
    }
}

/// The gradients with one slot overwritten by ones: the derivative of the
/// terminal with respect to itself.
pub open spec fn seeded<S: Scalar>(grads: Seq<Seq<S>>, slot: int) -> Seq<Seq<S>> {
    grads.update(slot, constant(grads[slot].len(), S::spec_one()))
}

/// Replaying an operation that fits changes no slot's length.
pub proof fn lemma_step_lengths<S: Scalar>(op: Operation, derivs: Seq<Seq<S>>, grads: Seq<Seq<S>>)
    requires
        op_fits(op, derivs, grads),
    ensures
        step(op, derivs, grads).len() == grads.len(),
        same_lengths(grads, step(op, derivs, grads)),
{
    match op {
        Operation::Unary(u) => {},
        Operation::Binary(b) => {
            let first = accumulate(grads, b.parent_grads.0.index as int, first_share(b, derivs, grads));
            assert(same_lengths(grads, first));
        },
    }
}

/// The view of a vector of runs.
pub open spec fn runs<S>(v: Seq<Vec<S>>) -> Seq<Seq<S>> {
    Seq::new(v.len(), |i: int| v[i]@)
}

/// The view of a vector of slots.
pub open spec fn keys_of(v: Seq<Slot>) -> Seq<SlotKey> {
    Seq::new(v.len(), |i: int| v[i]@)
}

/// The tape of one computation chain.
pub struct GradientTape<S> {
    pub slots: Vec<Slot>,
    pub gradients: Vec<Vec<S>>,
    pub derivatives: Vec<Vec<S>>,
    pub operations: Vec<Operation>,
}

impl<S> View for GradientTape<S> {
    type V = TapeView<S>;

    open spec fn view(&self) -> TapeView<S> {
        TapeView {
            keys: keys_of(self.slots@),
            grads: runs(self.gradients@),
            derivs: runs(self.derivatives@),
            ops: self.operations@,
        }
    }
}

/// Adds a share to one slot in place.
fn add_share<S: Scalar>(grads: &mut Vec<Vec<S>>, slot: usize, share: &Vec<S>)
    requires
        slot < old(grads)@.len(),
        old(grads)@[slot as int]@.len() == share@.len(),
    ensures
        runs(final(grads)@) == accumulate(runs(old(grads)@), slot as int, share@),
{
    let sum = flat::plus(&grads[slot], share);
    grads.set(slot, sum);
    assert(runs(grads@) =~= accumulate(runs(old(grads)@), slot as int, share@));
}

/// The reads of the two matrix products of a matrix-product record stay
/// inside their operands.
pub proof fn lemma_backward_products_fit(m: int, n: int, o: int)
    requires
        0 <= m,
        0 <= n,
        0 <= o,
    ensures
        flat::walk_fits(m, n, o, o, 1, o, 1, m * o, n * o),
        flat::walk_fits(n, o, m, 1, n, 1, o, m * n, m * o),
{
    if m > 0 && n > 0 && o > 0 {
        assert((m - 1) * o + (o - 1) * 1 < m * o) by (nonlinear_arith)
            requires
                m > 0,
                o > 0,
        ;
        assert((n - 1) * o + (o - 1) * 1 < n * o) by (nonlinear_arith)
            requires
                n > 0,
                o > 0,
        ;
        assert((n - 1) * 1 + (m - 1) * n < m * n) by (nonlinear_arith)
            requires
                m > 0,
                n > 0,
        ;
        assert((o - 1) * 1 + (m - 1) * o < m * o) by (nonlinear_arith)
            requires
                m > 0,
                o > 0,
        ;
    }
}

/// Computes what the parent of a one-parent operation receives.
fn compute_unary_share<S: Scalar>(u: &UnaryOp, derivs: &Vec<Vec<S>>, grads: &Vec<Vec<S>>) -> (r: Vec<S>)
    requires
        op_fits(Operation::Unary(*u), runs(derivs@), runs(grads@)),
    ensures
        r@ == unary_share(*u, runs(derivs@), runs(grads@)),
{
    let d = &derivs[u.parent_deriv.index];
    let g = &grads[u.result_grad.index];
    match u.op_type {
        OpType::Broadcast => flat::times_repeated(d, g),
        _ => flat::times(d, g),
    }
}

/// Computes what the first parent of a two-parent operation receives.
fn compute_first_share<S: Scalar>(b: &BinaryOp, derivs: &Vec<Vec<S>>, grads: &Vec<Vec<S>>) -> (r: Vec<S>)
    requires
        op_fits(Operation::Binary(*b), runs(derivs@), runs(grads@)),
    ensures
        r@ == first_share(*b, runs(derivs@), runs(grads@)),
{
    let d = &derivs[b.parent_derivs.0.index];
    let g = &grads[b.result_grad.index];
    match b.op_type {
        OpType::MatMul { m, n, o } => {
            // the product has as many elements as the parent's slot
            let parent_len = grads[b.parent_grads.0.index].len();
            proof {
                lemma_backward_products_fit(m as int, n as int, o as int);
            }
            flat::multiply(g, d, m, n, o, o, 1, o, 1)
        },
        _ => flat::times(d, g),
    }
}

/// Computes what the second parent of a two-parent operation receives.
fn compute_second_share<S: Scalar>(b: &BinaryOp, derivs: &Vec<Vec<S>>, grads: &Vec<Vec<S>>) -> (r: Vec<S>)
    requires
        op_fits(Operation::Binary(*b), runs(derivs@), runs(grads@)),
    ensures
        r@ == second_share(*b, runs(derivs@), runs(grads@)),
{
    let d = &derivs[b.parent_derivs.1.index];
    let g = &grads[b.result_grad.index];
    match b.op_type {
        OpType::Normal => flat::times(d, g),
        OpType::Broadcast => {
            let v = d.len();
            let m = if v == 0 {
                0
            } else {
                g.len() / v
            };
            flat::times_fold(d, g, v, m)
        },
        OpType::MatMul { m, n, o } => {
            // the product has as many elements as the parent's slot
            let parent_len = grads[b.parent_grads.1.index].len();
            proof {
                lemma_backward_products_fit(m as int, n as int, o as int);
            }
            flat::multiply(d, g, n, o, m, 1, n, 1, o)
        },
    }
}

/// Replays one operation: each parent's slot grows by its share.
fn apply_step<S: Scalar>(op: &Operation, derivs: &Vec<Vec<S>>, grads: &mut Vec<Vec<S>>)
    requires
        op_fits(*op, runs(derivs@), runs(old(grads)@)),
    ensures
        runs(final(grads)@) == step(*op, runs(derivs@), runs(old(grads)@)),
{
    match op {
        Operation::Unary(u) => {
            let share = compute_unary_share(u, derivs, grads);
            add_share(grads, u.parent_grad.index, &share);
        },
        Operation::Binary(b) => {
            let share = compute_first_share(b, derivs, grads);
            add_share(grads, b.parent_grads.0.index, &share);
            proof {
                lemma_fits_same_lengths(
                    *op,
                    runs(derivs@),
                    runs(old(grads)@),
                    runs(derivs@),
                    runs(grads@),
                );
            }
            let share = compute_second_share(b, derivs, grads);
            add_share(grads, b.parent_grads.1.index, &share);
        },
    }
}

/// The gradients that a backward pass produced, one buffer per slot.
pub struct Gradients<S> {
    pub slots: Vec<Slot>,
    pub gradients: Vec<Vec<S>>,
}

impl<S: Scalar> Gradients<S> {
    /// The owner of each slot.
    pub open spec fn keys(&self) -> Seq<SlotKey> {
        keys_of(self.slots@)
    }

    /// The gradient in each slot.
    pub open spec fn grads(&self) -> Seq<Seq<S>> {
        runs(self.gradients@)
    }

    /// Every slot has a key of its own and holds as many scalars as that
    /// key's shape spans.
    pub open spec fn wf(&self) -> bool {
        &&& self.keys().len() == self.grads().len()
        &&& distinct_keys(self.keys())
        &&& forall|i: int|
            0 <= i < self.keys().len() ==> (#[trigger] self.keys()[i]).shape.len() <= MAX_RANK
                && self.grads()[i].len() == volume(self.keys()[i].shape)
    }

    /// The gradient of the tensor with the given key: the content of its
    /// slot, or zeros of its shape when the tape never mentioned it.
    pub open spec fn gradient(&self, key: SlotKey) -> Seq<S> {
        match find_key(self.keys(), key) {
            Some(i) => self.grads()[i],
            None => constant(volume(key.shape), S::spec_zero()),
        }
    }

    /// Looks up the slot of a tensor.
    pub fn find(&self, id: usize, shape: &Vec<usize>) -> (r: Option<usize>)
        requires
            self.wf(),
        ensures
            match r {
                Some(i) => find_key(self.keys(), SlotKey { id, shape: shape@ }) == Some(i as int),
                None => find_key(self.keys(), SlotKey { id, shape: shape@ }) is None,
            },
    {
        find_slot(&self.slots, id, shape)
    }

    /// The gradient of the tensor with the given identifier and shape, as
    /// a run of scalars in row-major order; zeros when the tape never
    /// mentioned the tensor.
    ///
    /// Returns `None` when the tensor is unknown and its shape spans more
    /// elements than the machine word can count.
    pub fn gradient_for(&self, id: usize, shape: &Vec<usize>) -> (r: Option<Vec<S>>)
        requires
            self.wf(),
        ensures
            r is None <==> find_key(self.keys(), SlotKey { id, shape: shape@ }) is None && volume(
                shape@,
            ) > usize::MAX,
            r matches Some(g) ==> g@ == self.gradient(SlotKey { id, shape: shape@ }),
    {
        proof {
            lemma_find_key(self.keys(), SlotKey { id, shape: shape@ });
        }
        match self.find(id, shape) {
            Some(i) => Some(flat::copied(&self.gradients[i])),
            None => match element_count(shape) {
                Some(n) => Some(flat::filled(n, S::zero())),
                None => None,
            },
        }
    }
}

/// Looks up the first slot with the given identifier and shape.
pub fn find_slot(slots: &Vec<Slot>, id: usize, shape: &Vec<usize>) -> (r: Option<usize>)
    requires
        distinct_keys(keys_of(slots@)),
    ensures
        match r {
            Some(i) => find_key(keys_of(slots@), SlotKey { id, shape: shape@ }) == Some(i as int),
            None => find_key(keys_of(slots@), SlotKey { id, shape: shape@ }) is None,
        },
{
    let ghost key = SlotKey { id, shape: shape@ };
    let ghost keys = keys_of(slots@);
    let mut i: usize = 0;
    while i < slots.len()
        invariant
            i <= slots.len(),
            keys == keys_of(slots@),
            distinct_keys(keys),
            key == (SlotKey { id, shape: shape@ }),
            forall|j: int| 0 <= j < i ==> keys[j] != key,
        decreases slots.len() - i,
    {
        if slots[i].id == id && same_shape(&slots[i].shape, shape) {
            proof {
                assert(keys[i as int] == key);
                lemma_find_key_at(keys, i as int);
            }
            return Some(i);
        }
        assert(keys[i as int] != key);
        i += 1;
    }
    proof {
        lemma_find_key(keys, key);
    }
    None
}

impl<S: Scalar> GradientTape<S> {
    /// Whether the tape's content is well formed.
    pub open spec fn wf(&self) -> bool {
        self@.wf()
    }

    /// A tape with nothing recorded.
    pub fn new() -> (r: Self)
        ensures
            r.wf(),
            r@ == TapeView::<S>::empty(),
    {
        let r = GradientTape {
            slots: Vec::new(),
            gradients: Vec::new(),
            derivatives: Vec::new(),
            operations: Vec::new(),
        };
        assert(r@.keys =~= Seq::empty());
        assert(r@.grads =~= Seq::empty());
        assert(r@.derivs =~= Seq::empty());
        r
    }

    /// Returns the handle of the gradient slot of the tensor with the
    /// given identifier and shape.  The first call for a tensor creates the
    /// slot, filled with zeros.
    pub fn gradient_ref_for(&mut self, id: usize, shape: &Vec<usize>) -> (r: GradientRef)
        requires
            old(self).wf(),
            shape@.len() <= MAX_RANK,
            volume(shape@) <= usize::MAX,
        ensures
            final(self).wf(),
            final(self)@ == old(self)@.with_slot(SlotKey { id, shape: shape@ }),
            r.index == old(self)@.slot_index(SlotKey { id, shape: shape@ }),
            r.index < final(self)@.grads.len(),
            final(self)@.keys[r.index as int] == (SlotKey { id, shape: shape@ }),
    {
        let ghost key = SlotKey { id, shape: shape@ };
        match find_slot(&self.slots, id, shape) {
            Some(i) => {
                proof {
                    lemma_find_key(self@.keys, key);
                }
                GradientRef { index: i }
            },
            None => {
                let index = self.slots.len();
                let n = element_count(shape).unwrap();
                self.slots.push(Slot { id, shape: copy_shape(shape) });
                self.gradients.push(flat::filled(n, S::zero()));
                proof {
                    lemma_find_key(old(self)@.keys, key);
                    assert(self@.keys =~= old(self)@.keys.push(key));
                    assert(self@.grads =~= old(self)@.grads.push(
                        constant(volume(shape@), S::spec_zero()),
                    ));
                    assert(self@.derivs =~= old(self)@.derivs);
                    assert(same_lengths(old(self)@.grads, self@.grads));
                    assert(same_lengths(old(self)@.derivs, self@.derivs));
                    assert forall|k: int| 0 <= k < self@.ops.len() implies op_fits(
                        #[trigger] self@.ops[k],
                        self@.derivs,
                        self@.grads,
                    ) by {
                        assert(op_fits(old(self)@.ops[k], old(self)@.derivs, old(self)@.grads));
                        lemma_fits_same_lengths(
                            self@.ops[k],
                            old(self)@.derivs,
                            old(self)@.grads,
                            self@.derivs,
                            self@.grads,
                        );
                    }
                }
                GradientRef { index }
            },
        }
    }

    /// Stores a local derivative and returns its handle.
    pub fn store_derivative(&mut self, deriv: Vec<S>) -> (r: DerivativeRef)
        requires
            old(self).wf(),
        ensures
            final(self).wf(),
            final(self)@ == old(self)@.with_derivative(deriv@),
            r.index == old(self)@.derivs.len(),
    {
        let index = self.derivatives.len();
        self.derivatives.push(deriv);
        proof {
            assert(self@.derivs =~= old(self)@.derivs.push(deriv@));
            assert(self@.grads =~= old(self)@.grads);
            assert(self@.keys =~= old(self)@.keys);
            assert(same_lengths(old(self)@.derivs, self@.derivs));
            assert(same_lengths(old(self)@.grads, self@.grads));
            assert forall|k: int| 0 <= k < self@.ops.len() implies op_fits(
                #[trigger] self@.ops[k],
                self@.derivs,
                self@.grads,
            ) by {
                assert(op_fits(old(self)@.ops[k], old(self)@.derivs, old(self)@.grads));
                lemma_fits_same_lengths(
                    self@.ops[k],
                    old(self)@.derivs,
                    old(self)@.grads,
                    self@.derivs,
                    self@.grads,
                );
            }
        }
        DerivativeRef { index }
    }

    /// Appends an operation to the log.
    pub fn add_operation(&mut self, operation: Operation)
        requires
            old(self).wf(),
            op_fits(operation, old(self)@.derivs, old(self)@.grads),
        ensures
            final(self).wf(),
            final(self)@ == old(self)@.with_operation(operation),
    {
        self.operations.push(operation);
        proof {
            assert(self@.derivs =~= old(self)@.derivs);
            assert(self@.grads =~= old(self)@.grads);
            assert(self@.keys =~= old(self)@.keys);
            assert forall|k: int| 0 <= k < self@.ops.len() implies op_fits(
                #[trigger] self@.ops[k],
                self@.derivs,
                self@.grads,
            ) by {
                if k < old(self)@.ops.len() {
                    assert(op_fits(old(self)@.ops[k], old(self)@.derivs, old(self)@.grads));
                }
            }
        }
    }

    /// Runs the backward pass from the slot of the terminal tensor: the
    /// slot is overwritten with ones, then the operations are replayed in
    /// reverse order of recording.  The tape is used up.
    pub fn backward(self, terminal: GradientRef) -> (r: Gradients<S>)
        requires
            self.wf(),
            terminal.index < self@.grads.len(),
        ensures
            r.wf(),
            r.keys() == self@.keys,
            r.grads() == replay(self@.ops, self@.derivs, seeded(self@.grads, terminal.index as int)),
    {
        let GradientTape { slots, gradients, derivatives, operations } = self;
        let mut grads = gradients;
        let n = grads[terminal.index].len();
        grads.set(terminal.index, flat::filled(n, S::one()));
        let ghost start = runs(grads@);
        let ghost derivs = runs(derivatives@);
        proof {
            assert(start =~= seeded(self@.grads, terminal.index as int));
            assert(same_lengths(self@.grads, start));
            assert(operations@.take(operations@.len() as int) =~= operations@);
        }
        let mut k: usize = operations.len();
        while k > 0
            invariant
                k <= operations.len(),
                derivs == runs(derivatives@),
                operations@ == self@.ops,
                derivs == self@.derivs,
                self.wf(),
                same_lengths(self@.grads, runs(grads@)),
                runs(grads@).len() == self@.grads.len(),
                replay(operations@.take(k as int), derivs, runs(grads@)) == replay(
                    operations@,
                    derivs,
                    start,
                ),
            decreases k,
        {
            k -= 1;
            let ghost before = runs(grads@);
            proof {
                lemma_fits_same_lengths(operations@[k as int], derivs, self@.grads, derivs, before);
                lemma_step_lengths(operations@[k as int], derivs, before);
                let prefix = operations@.take(k + 1);
                assert(prefix.drop_last() =~= operations@.take(k as int));
                assert(prefix.last() == operations@[k as int]);
            }
            apply_step(&operations[k], &derivatives, &mut grads);
        }
        proof {
            assert(operations@.take(0) =~= Seq::<Operation>::empty());
        }
        Gradients { slots, gradients: grads }
    }
}

} // verus!
