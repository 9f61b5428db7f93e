use dfdx::buffer::Buffer;
use dfdx::gradients::{DerivativeRef, GradientRef, GradientTape, OpType, Operation, UnaryOp};
use dfdx::ops::{
    add, add_broadcast_rhs_first, backward, broadcast_add, matmat_mul, mean, mul, sub, sum,
    try_add, try_add_broadcast_rhs_first, try_broadcast_add, try_matmat_mul, try_mul, try_sub,
    try_vecmat_mul, validate, vecmat_mul, OpError, Relation,
};
use dfdx::scalar::Scalar;
use dfdx::tensor::{NoTape, Tensor};
use dfdx::unique_id::UniqueIds;

/// Single-precision floating point as the scalar of the tensors.
#[derive(Clone, Copy, Debug, PartialEq)]
struct F(f32);

impl Scalar for F {
    fn spec_zero() -> Self {
        F(0.0)
    }

    fn spec_one() -> Self {
        F(1.0)
    }

    fn spec_from_count(n: usize) -> Self {
        F(n as f32)
    }

    fn spec_plus(self, rhs: Self) -> Self {
        F(self.0 + rhs.0)
    }

    fn spec_minus(self, rhs: Self) -> Self {
        F(self.0 - rhs.0)
    }

    fn spec_times(self, rhs: Self) -> Self {
        F(self.0 * rhs.0)
    }

    fn spec_over(self, rhs: Self) -> Self {
        F(self.0 / rhs.0)
    }

    fn spec_exp(self) -> Self {
        F(self.0.exp())
    }

    fn spec_sqrt(self) -> Self {
        F(self.0.sqrt())
    }

    fn spec_max(self, rhs: Self) -> Self {
        F(self.0.max(rhs.0))
    }

    fn spec_uniform(word: u64) -> Self {
        F((word >> 40) as f32 / 8388608.0 - 1.0)
    }

    fn zero() -> Self {
        F(0.0)
    }

    fn one() -> Self {
        F(1.0)
    }

    fn from_count(n: usize) -> Self {
        F(n as f32)
    }

    fn plus(self, rhs: Self) -> Self {
        F(self.0 + rhs.0)
    }

    fn minus(self, rhs: Self) -> Self {
        F(self.0 - rhs.0)
    }

    fn times(self, rhs: Self) -> Self {
        F(self.0 * rhs.0)
    }

    fn over(self, rhs: Self) -> Self {
        F(self.0 / rhs.0)
    }

    fn exp(self) -> Self {
        F(self.0.exp())
    }

    fn sqrt(self) -> Self {
        F(self.0.sqrt())
    }

    fn max(self, rhs: Self) -> Self {
        F(self.0.max(rhs.0))
    }

    fn uniform(word: u64) -> Self {
        F((word >> 40) as f32 / 8388608.0 - 1.0)
    }
}

fn tensor(ids: &mut UniqueIds, shape: Vec<usize>, values: &[f32]) -> Tensor<F, NoTape> {
    let data: Vec<F> = values.iter().map(|v| F(*v)).collect();
    Tensor::new(ids, Buffer::new(shape, data).unwrap())
}

fn values(run: &[F]) -> Vec<f32> {
    run.iter().map(|v| v.0).collect()
}

fn gradient(grads: &dfdx::gradients::Gradients<F>, t: &Tensor<F, NoTape>) -> Vec<f32> {
    values(&grads.gradient_for(t.id, &t.data.shape).unwrap())
}

#[test]
fn test_broadcast_outer_add() {
    let mut ids = UniqueIds::new();
    let a = tensor(&mut ids, vec![3, 5], &[1.0; 15]);
    let b = tensor(&mut ids, vec![5], &[1.0; 5]);
    let r = add_broadcast_rhs_first(&mut ids, a.duplicate().trace(), &b);
    assert_eq!(values(&r.data.data), vec![2.0; 15]);
    assert_eq!(r.data.shape, vec![3, 5]);
    let gradients = backward(mean(&mut ids, r));
    assert_eq!(gradient(&gradients, &a), vec![1.0 / 15.0; 15]);
    assert_eq!(gradient(&gradients, &b), vec![0.20000002; 5]);
}

#[test]
fn test_broadcast_add_scales_second_gradient() {
    let mut ids = UniqueIds::new();
    let a = tensor(&mut ids, vec![2, 3], &[1.0, 2.0, 3.0, 4.0, 5.0, 6.0]);
    let b = tensor(&mut ids, vec![3], &[-1.0, 0.0, 1.0]);
    let r = broadcast_add(&mut ids, a.duplicate().trace(), &b);
    assert_eq!(values(&r.data.data), vec![0.0, 2.0, 4.0, 3.0, 5.0, 7.0]);
    let gradients = backward(sum(&mut ids, r));
    assert_eq!(gradient(&gradients, &a), vec![1.0; 6]);
    // each entry: the sum over the two rows of (1 / 2) * 1
    assert_eq!(gradient(&gradients, &b), vec![1.0; 3]);
}

#[test]
fn test_matmat_mul_forward_and_gradients() {
    let mut ids = UniqueIds::new();
    let lhs = tensor(&mut ids, vec![2, 2], &[1.0, 2.0, 3.0, 4.0]);
    let rhs = tensor(&mut ids, vec![2, 2], &[5.0, 6.0, 7.0, 8.0]);
    let out = matmat_mul(&mut ids, lhs.duplicate().trace(), &rhs);
    assert_eq!(values(&out.data.data), vec![19.0, 22.0, 43.0, 50.0]);
    // the derivative stored for each operand is the other operand's data
    let tape = &out.tape.0;
    assert_eq!(tape.operations.len(), 1);
    match tape.operations[0] {
        Operation::Binary(op) => {
            assert!(matches!(op.op_type, OpType::MatMul { m: 2, n: 2, o: 2 }));
            assert_eq!(values(&tape.derivatives[op.parent_derivs.0.index]), vec![5.0, 6.0, 7.0, 8.0]);
            assert_eq!(values(&tape.derivatives[op.parent_derivs.1.index]), vec![1.0, 2.0, 3.0, 4.0]);
        }
        Operation::Unary(_) => panic!("a matrix product has two parents"),
    }
    let gradients = backward(sum(&mut ids, out));
    // ones * rhs^T
    assert_eq!(gradient(&gradients, &lhs), vec![11.0, 15.0, 11.0, 15.0]);
    // lhs^T * ones
    assert_eq!(gradient(&gradients, &rhs), vec![4.0, 4.0, 6.0, 6.0]);
}

#[test]
fn test_matmat_mul_rectangular() {
    let mut ids = UniqueIds::new();
    let lhs = tensor(&mut ids, vec![2, 3], &[1.0, 2.0, 3.0, 4.0, 5.0, 6.0]);
    let rhs = tensor(&mut ids, vec![3, 1], &[1.0, 0.0, -1.0]);
    let out = matmat_mul(&mut ids, lhs.duplicate().trace(), &rhs);
    assert_eq!(out.data.shape, vec![2, 1]);
    assert_eq!(values(&out.data.data), vec![-2.0, -2.0]);
    let gradients = backward(out);
    assert_eq!(gradient(&gradients, &lhs), vec![1.0, 0.0, -1.0, 1.0, 0.0, -1.0]);
    assert_eq!(gradient(&gradients, &rhs), vec![5.0, 7.0, 9.0]);
}

#[test]
fn test_vecmat_mul_forward_and_gradients() {
    let mut ids = UniqueIds::new();
    let lhs = tensor(&mut ids, vec![3], &[1.0, 2.0, 3.0]);
    let rhs = tensor(&mut ids, vec![3, 2], &[1.0, 2.0, 3.0, 4.0, 5.0, 6.0]);
    let out = vecmat_mul(&mut ids, lhs.duplicate().trace(), &rhs);
    assert_eq!(out.data.shape, vec![2]);
    assert_eq!(values(&out.data.data), vec![22.0, 28.0]);
    let gradients = backward(out);
    assert_eq!(gradient(&gradients, &lhs), vec![3.0, 7.0, 11.0]);
    assert_eq!(gradient(&gradients, &rhs), vec![1.0, 1.0, 2.0, 2.0, 3.0, 3.0]);
}

#[test]
fn test_add_sub_mul_forward_and_gradients() {
    let mut ids = UniqueIds::new();
    let a = tensor(&mut ids, vec![3], &[1.0, 2.0, 3.0]);
    let b = tensor(&mut ids, vec![3], &[4.0, 5.0, 6.0]);

    let r = add(&mut ids, &a, b.duplicate().trace());
    assert_eq!(values(&r.data.data), vec![5.0, 7.0, 9.0]);
    let gradients = backward(r);
    assert_eq!(gradient(&gradients, &a), vec![1.0; 3]);
    assert_eq!(gradient(&gradients, &b), vec![1.0; 3]);

    let r = sub(&mut ids, &a, b.duplicate().trace());
    assert_eq!(values(&r.data.data), vec![-3.0, -3.0, -3.0]);
    let gradients = backward(r);
    assert_eq!(gradient(&gradients, &a), vec![1.0; 3]);
    assert_eq!(gradient(&gradients, &b), vec![-1.0; 3]);

    let r = mul(&mut ids, &a, b.duplicate().trace());
    assert_eq!(values(&r.data.data), vec![4.0, 10.0, 18.0]);
    let gradients = backward(r);
    assert_eq!(gradient(&gradients, &a), vec![4.0, 5.0, 6.0]);
    assert_eq!(gradient(&gradients, &b), vec![1.0, 2.0, 3.0]);
}

#[test]
fn test_gradients_add_over_two_paths() {
    // a = c1 * x, b = c2 * x, t = a + b: the gradient of x is c2 + c1
    let mut ids = UniqueIds::new();
    let x = tensor(&mut ids, vec![2], &[3.0, -2.0]);
    let c1 = tensor(&mut ids, vec![2], &[2.0, 5.0]);
    let c2 = tensor(&mut ids, vec![2], &[7.0, 11.0]);
    let a = mul(&mut ids, &c1, x.duplicate().trace());
    let (a, tape) = a.split_tape_manager();
    let b = mul(&mut ids, &c2, x.duplicate().with_tape_manager(tape));
    let t = add(&mut ids, &a, b);
    assert_eq!(values(&t.data.data), vec![27.0, -32.0]);
    let gradients = backward(t);
    assert_eq!(gradient(&gradients, &x), vec![9.0, 16.0]);
    assert_eq!(gradient(&gradients, &c1), vec![3.0, -2.0]);
    assert_eq!(gradient(&gradients, &c2), vec![3.0, -2.0]);
}

#[test]
fn test_square_counts_its_operand_twice() {
    let mut ids = UniqueIds::new();
    let x = tensor(&mut ids, vec![3], &[1.0, -2.0, 0.5]);
    let y = mul(&mut ids, &x, x.duplicate().trace());
    let gradients = backward(sum(&mut ids, y));
    assert_eq!(gradient(&gradients, &x), vec![2.0, -4.0, 1.0]);
}

#[test]
fn test_gradient_matches_finite_difference() {
    // f(x) = mean(x * x); compare with (f(x + h) - f(x - h)) / 2h
    fn f(values: &[f32]) -> f32 {
        let mut ids = UniqueIds::new();
        let x = tensor(&mut ids, vec![values.len()], values);
        let y = mul(&mut ids, &x, x.duplicate());
        mean(&mut ids, y).data.data[0].0
    }
    let at = [0.3, -1.2, 0.7, 2.0];
    let mut ids = UniqueIds::new();
    let x = tensor(&mut ids, vec![4], &at);
    let y = mul(&mut ids, &x, x.duplicate().trace());
    let analytic = gradient(&backward(mean(&mut ids, y)), &x);
    let h = 1e-2;
    for i in 0..4 {
        let mut up = at;
        let mut down = at;
        up[i] += h;
        down[i] -= h;
        let numeric = (f(&up) - f(&down)) / (2.0 * h);
        assert!((numeric - analytic[i]).abs() < 1e-3, "{} vs {}", numeric, analytic[i]);
    }
}

#[test]
fn test_two_operation_chain_end_to_end() {
    // y = mean((x * w) + b), with x the tape owner
    let mut ids = UniqueIds::new();
    let x = tensor(&mut ids, vec![2, 2], &[1.0, 2.0, 3.0, 4.0]);
    let w = tensor(&mut ids, vec![2, 2], &[0.5, -1.0, 2.0, 0.25]);
    let b = tensor(&mut ids, vec![2], &[10.0, 20.0]);
    let h = matmat_mul(&mut ids, x.duplicate().trace(), &w);
    let y = add_broadcast_rhs_first(&mut ids, h, &b);
    assert_eq!(values(&y.data.data), vec![14.5, 19.5, 19.5, 18.0]);
    let loss = mean(&mut ids, y);
    assert_eq!(loss.data.shape, Vec::<usize>::new());
    assert!((loss.data.data[0].0 - 17.875).abs() < 1e-4);
    let gradients = backward(loss);
    let expect = |found: Vec<f32>, want: &[f32]| {
        assert_eq!(found.len(), want.len());
        for (f, w) in found.iter().zip(want) {
            assert!((f - w).abs() < 1e-4, "{} vs {}", f, w);
        }
    };
    // d/dx = (1/4) ones * w^T, d/dw = x^T * (1/4) ones, d/db = column sums of 1/4
    expect(gradient(&gradients, &x), &[-0.125, 0.5625, -0.125, 0.5625]);
    expect(gradient(&gradients, &w), &[1.0, 1.0, 1.5, 1.5]);
    expect(gradient(&gradients, &b), &[0.5, 0.5]);
}

#[test]
fn test_no_tape_records_nothing() {
    let mut ids = UniqueIds::new();
    let a = tensor(&mut ids, vec![2], &[1.0, 2.0]);
    let b = tensor(&mut ids, vec![2], &[3.0, 4.0]);
    let r: Tensor<F, NoTape> = add(&mut ids, &a, b.duplicate());
    assert_eq!(values(&r.data.data), vec![4.0, 6.0]);
    assert!(r.id != a.id && r.id != b.id);
}

#[test]
fn test_unmentioned_tensor_has_zero_gradient() {
    let mut ids = UniqueIds::new();
    let a = tensor(&mut ids, vec![2], &[1.0, 2.0]);
    let b = tensor(&mut ids, vec![2], &[3.0, 4.0]);
    let stranger = tensor(&mut ids, vec![2, 3], &[9.0; 6]);
    let gradients = backward(add(&mut ids, &a, b.duplicate().trace()));
    assert_eq!(gradient(&gradients, &stranger), vec![0.0; 6]);
    assert!(gradients.find(stranger.id, &stranger.data.shape).is_none());
    assert!(gradients.find(a.id, &a.data.shape).is_some());
}

#[test]
fn test_shapes_follow_from_shapes() {
    let mut ids = UniqueIds::new();
    let a = tensor(&mut ids, vec![2, 3], &[0.0; 6]);
    let b = tensor(&mut ids, vec![2, 3], &[7.0, -1.0, 2.5, 3.0, 4.0, 5.0]);
    let w = tensor(&mut ids, vec![3, 4], &[1.0; 12]);
    assert_eq!(matmat_mul(&mut ids, a.duplicate(), &w).data.shape, vec![2, 4]);
    assert_eq!(matmat_mul(&mut ids, b.duplicate(), &w).data.shape, vec![2, 4]);
    assert_eq!(add(&mut ids, &a, b.duplicate()).data.shape, vec![2, 3]);
    assert_eq!(sum(&mut ids, b.duplicate()).data.shape, Vec::<usize>::new());
}

#[test]
fn test_identifiers_are_issued_once() {
    let mut ids = UniqueIds::new();
    assert!(ids.can_issue());
    let a = tensor(&mut ids, vec![1], &[1.0]);
    let b = tensor(&mut ids, vec![1], &[1.0]);
    let c = add(&mut ids, &a, b.duplicate());
    assert_eq!((a.id, b.id, c.id), (0, 1, 2));
    assert_eq!(b.duplicate().id, b.id);
    let spent = UniqueIds { next: usize::MAX };
    assert!(!spent.can_issue());
}

#[test]
fn test_tape_is_handed_on() {
    let mut ids = UniqueIds::new();
    let a = tensor(&mut ids, vec![2], &[1.0, 2.0]);
    let b = tensor(&mut ids, vec![2], &[3.0, 4.0]);
    let r = add(&mut ids, &a, b.duplicate().trace());
    let r = mul(&mut ids, &a, r);
    assert_eq!(r.tape.0.operations.len(), 2);
    assert_eq!(r.tape.0.slots.len(), 4);
}

#[test]
fn test_tape_slots_are_made_once() {
    let mut tape: GradientTape<F> = GradientTape::new();
    let a = tape.gradient_ref_for(7, &vec![2, 3]);
    let b = tape.gradient_ref_for(8, &vec![2, 3]);
    let again = tape.gradient_ref_for(7, &vec![2, 3]);
    let reshaped = tape.gradient_ref_for(7, &vec![3, 2]);
    assert_eq!((a.index, b.index, again.index, reshaped.index), (0, 1, 0, 2));
    assert_eq!(tape.gradients.len(), 3);
    assert_eq!(values(&tape.gradients[0]), vec![0.0; 6]);
    let d = tape.store_derivative(vec![F(1.0); 6]);
    let e = tape.store_derivative(vec![F(2.0); 6]);
    assert_eq!((d.index, e.index), (0, 1));
    assert_eq!(tape.operations.len(), 0);
}

#[test]
fn test_backward_replays_in_reverse() {
    // x -> y = 2x -> z = 3y, recorded by hand as one-parent operations
    let mut tape: GradientTape<F> = GradientTape::new();
    let x = tape.gradient_ref_for(0, &vec![2]);
    let y = tape.gradient_ref_for(1, &vec![2]);
    let z = tape.gradient_ref_for(2, &vec![2]);
    let two: DerivativeRef = tape.store_derivative(vec![F(2.0); 2]);
    let three: DerivativeRef = tape.store_derivative(vec![F(3.0); 2]);
    let link = |op_type, parent_grad: GradientRef, parent_deriv, result_grad| {
        Operation::Unary(UnaryOp { op_type, parent_grad, parent_deriv, result_grad })
    };
    tape.add_operation(link(OpType::Normal, x, two, y));
    tape.add_operation(link(OpType::Normal, y, three, z));
    let gradients = tape.backward(z);
    assert_eq!(values(&gradients.gradients[z.index]), vec![1.0; 2]);
    assert_eq!(values(&gradients.gradients[y.index]), vec![3.0; 2]);
    assert_eq!(values(&gradients.gradients[x.index]), vec![6.0; 2]);
    assert_eq!(values(&gradients.gradient_for(0, &vec![2]).unwrap()), vec![6.0; 2]);
    assert_eq!(values(&gradients.gradient_for(0, &vec![1, 2]).unwrap()), vec![0.0; 2]);
    assert!(gradients.gradient_for(9, &vec![usize::MAX, 2]).is_none());
}

#[test]
fn test_detached_tape_can_be_attached_again() {
    let mut ids = UniqueIds::new();
    let a = tensor(&mut ids, vec![2], &[1.0, 2.0]);
    let b = tensor(&mut ids, vec![2], &[3.0, 4.0]);
    let r = add(&mut ids, &a, b.duplicate().trace());
    let (plain, tape) = r.split_tape_manager();
    assert_eq!(values(&plain.data.data), vec![4.0, 6.0]);
    assert_eq!(tape.0.operations.len(), 1);
    let again = plain.with_tape_manager(tape);
    let gradients = backward(again);
    assert_eq!(gradient(&gradients, &a), vec![1.0; 2]);
}

#[test]
fn test_operands_that_do_not_fit_are_refused() {
    let mut ids = UniqueIds::new();
    let a = tensor(&mut ids, vec![2, 3], &[1.0; 6]);
    let b = tensor(&mut ids, vec![2, 3], &[2.0; 6]);
    let v = tensor(&mut ids, vec![3], &[3.0; 3]);
    let w = tensor(&mut ids, vec![2], &[3.0; 2]);
    let next = ids.next;

    let refused = try_matmat_mul(&mut ids, a.duplicate().trace(), &b).err().unwrap();
    assert_eq!(refused.error, OpError::ShapeMismatch);
    // the operand comes back as it was, with its tape, and nothing was recorded
    assert_eq!(refused.operand.id, a.id);
    assert_eq!(refused.operand.tape.0.operations.len(), 0);
    assert_eq!(refused.operand.tape.0.slots.len(), 0);
    assert_eq!(ids.next, next);

    assert_eq!(try_matmat_mul(&mut ids, a.duplicate(), &v).err().unwrap().error, OpError::ShapeMismatch);
    assert_eq!(try_vecmat_mul(&mut ids, w.duplicate(), &v).err().unwrap().error, OpError::ShapeMismatch);
    assert_eq!(try_vecmat_mul(&mut ids, v.duplicate(), &a).err().unwrap().error, OpError::ShapeMismatch);
    assert_eq!(try_broadcast_add(&mut ids, a.duplicate(), &w).err().unwrap().error, OpError::ShapeMismatch);
    assert_eq!(
        try_add_broadcast_rhs_first(&mut ids, a.duplicate(), &b).err().unwrap().error,
        OpError::ShapeMismatch
    );
    assert_eq!(try_add(&mut ids, &a, v.duplicate()).err().unwrap().error, OpError::ShapeMismatch);
    assert_eq!(try_sub(&mut ids, &v, w.duplicate()).err().unwrap().error, OpError::ShapeMismatch);
    assert_eq!(try_mul(&mut ids, &a, w.duplicate()).err().unwrap().error, OpError::ShapeMismatch);
    assert_eq!(ids.next, next);
}

#[test]
fn test_operands_that_fit_are_accepted() {
    let mut ids = UniqueIds::new();
    let a = tensor(&mut ids, vec![2, 3], &[1.0; 6]);
    let b = tensor(&mut ids, vec![3, 2], &[2.0; 6]);
    let v = tensor(&mut ids, vec![3], &[3.0; 3]);
    let out = try_matmat_mul(&mut ids, a.duplicate().trace(), &b).ok().unwrap();
    assert_eq!(values(&out.data.data), vec![6.0; 4]);
    assert_eq!(out.tape.0.operations.len(), 1);
    assert!(out.id != a.id && out.id != b.id);
    assert_eq!(values(&try_vecmat_mul(&mut ids, v.duplicate(), &b).ok().unwrap().data.data), vec![18.0; 2]);
    assert_eq!(values(&try_broadcast_add(&mut ids, a.duplicate(), &v).ok().unwrap().data.data), vec![4.0; 6]);
    assert_eq!(
        values(&try_add_broadcast_rhs_first(&mut ids, a.duplicate(), &v).ok().unwrap().data.data),
        vec![4.0; 6]
    );
    assert_eq!(values(&try_add(&mut ids, &a, a.duplicate()).ok().unwrap().data.data), vec![2.0; 6]);
    assert_eq!(values(&try_sub(&mut ids, &v, v.duplicate()).ok().unwrap().data.data), vec![0.0; 3]);
    assert_eq!(values(&try_mul(&mut ids, &v, v.duplicate()).ok().unwrap().data.data), vec![9.0; 3]);
}

#[test]
fn test_validation_names_the_first_fault() {
    let ids = UniqueIds { next: 5 };
    let spent = UniqueIds { next: usize::MAX };
    let check = |relation, lhs: &[usize], rhs: &[usize], lhs_id, rhs_id, ids: &UniqueIds| {
        validate(relation, &lhs.to_vec(), &rhs.to_vec(), lhs_id, rhs_id, ids)
    };
    assert_eq!(check(Relation::MatMat, &[2, 3], &[3, 4], 0, 1, &ids), None);
    assert_eq!(check(Relation::MatMat, &[2, 3], &[4, 3], 0, 1, &ids), Some(OpError::ShapeMismatch));
    assert_eq!(check(Relation::MatMat, &[2, 3, 1], &[3, 4], 0, 1, &ids), Some(OpError::ShapeMismatch));
    assert_eq!(check(Relation::MatMat, &[usize::MAX, 0], &[0, 2], 0, 1, &ids), Some(OpError::TooLarge));
    assert_eq!(check(Relation::MatMat, &[usize::MAX, 0], &[0, 2], 9, 1, &ids), Some(OpError::TooLarge));
    assert_eq!(check(Relation::VecMat, &[3], &[3, 4], 0, 1, &ids), None);
    assert_eq!(check(Relation::VecMat, &[3], &[4, 3], 0, 1, &ids), Some(OpError::ShapeMismatch));
    assert_eq!(check(Relation::Broadcast, &[7, 3, 4], &[3, 4], 0, 1, &ids), None);
    assert_eq!(check(Relation::Broadcast, &[3], &[], 0, 1, &ids), None);
    assert_eq!(check(Relation::Broadcast, &[7, 3, 4], &[4, 3], 0, 1, &ids), Some(OpError::ShapeMismatch));
    assert_eq!(check(Relation::Broadcast, &[3, 4], &[3, 4], 0, 1, &ids), Some(OpError::ShapeMismatch));
    assert_eq!(check(Relation::Broadcast, &[], &[], 0, 1, &ids), Some(OpError::ShapeMismatch));
    assert_eq!(check(Relation::Same, &[3, 4], &[3, 4], 0, 1, &ids), None);
    assert_eq!(check(Relation::Same, &[3, 4], &[3], 0, 1, &ids), Some(OpError::ShapeMismatch));
    assert_eq!(check(Relation::Same, &[3], &[3], 5, 1, &ids), Some(OpError::ForeignIdentifier));
    assert_eq!(check(Relation::Same, &[3], &[3], 1, 6, &ids), Some(OpError::ForeignIdentifier));
    assert_eq!(check(Relation::Same, &[3], &[3], 1, 6, &spent), Some(OpError::NoIdentifier));
    assert_eq!(check(Relation::Same, &[3], &[4], 1, 6, &spent), Some(OpError::ShapeMismatch));
}

#[test]
fn test_operand_of_another_allocator_is_refused() {
    let mut ids = UniqueIds::new();
    let mut other = UniqueIds::new();
    let a = tensor(&mut ids, vec![2], &[1.0, 2.0]);
    let b = tensor(&mut ids, vec![2], &[3.0, 4.0]);
    let refused = try_add(&mut other, &a, b.duplicate().trace()).err().unwrap();
    assert_eq!(refused.error, OpError::ForeignIdentifier);
    assert_eq!(other.next, 0);
    let mut spent = UniqueIds { next: usize::MAX };
    assert_eq!(try_add(&mut spent, &a, b.duplicate()).err().unwrap().error, OpError::NoIdentifier);
}
