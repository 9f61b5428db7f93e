use dfdx::buffer::{copy_shape, element_count, same_shape, Buffer};
use dfdx::fixed::{Fixed, ONE};
use dfdx::flat;
use dfdx::rows;
use dfdx::scalar::Scalar;

fn run(values: &[i64]) -> Vec<Fixed> {
    values.iter().map(|v| Fixed::from_raw(v * ONE)).collect()
}

fn ints(values: &[Fixed]) -> Vec<i64> {
    values.iter().map(|v| {
        assert_eq!(v.raw % ONE, 0);
        v.raw / ONE
    }).collect()
}

fn buffer(shape: &[usize], values: &[i64]) -> Buffer<Fixed> {
    Buffer::new(shape.to_vec(), run(values)).unwrap()
}

#[test]
fn test_element_count() {
    assert_eq!(element_count(&vec![]), Some(1));
    assert_eq!(element_count(&vec![3, 5]), Some(15));
    assert_eq!(element_count(&vec![3, 0, 5]), Some(0));
    assert_eq!(element_count(&vec![usize::MAX, usize::MAX, 0]), Some(0));
    assert_eq!(element_count(&vec![usize::MAX, 2]), None);
    assert_eq!(element_count(&vec![usize::MAX, 1]), Some(usize::MAX));
}

#[test]
fn test_shapes_are_compared_and_copied() {
    assert!(same_shape(&vec![2, 3], &vec![2, 3]));
    assert!(!same_shape(&vec![2, 3], &vec![3, 2]));
    assert!(!same_shape(&vec![2, 3], &vec![2, 3, 1]));
    assert!(same_shape(&vec![], &vec![]));
    assert_eq!(copy_shape(&vec![4, 0, 7]), vec![4, 0, 7]);
}

#[test]
fn test_buffer_is_built_only_from_matching_parts() {
    assert!(Buffer::new(vec![2, 3], run(&[1, 2, 3, 4, 5, 6])).is_some());
    assert!(Buffer::new(vec![2, 3], run(&[1, 2, 3, 4, 5])).is_none());
    assert!(Buffer::new(vec![], run(&[7])).is_some());
    assert!(Buffer::new(vec![], run(&[])).is_none());
    assert!(Buffer::new(vec![1, 1, 1, 1], run(&[7])).is_some());
    assert!(Buffer::new(vec![1, 1, 1, 1, 1], run(&[7])).is_none());
    assert!(Buffer::new(vec![2, 0], run(&[])).is_some());
    assert!(Buffer::new(vec![usize::MAX, 2], run(&[])).is_none());
}

#[test]
fn test_filled_scalar_duplicate_reshape() {
    let b = Buffer::filled(&vec![2, 2], Fixed::from_count(3)).unwrap();
    assert_eq!(ints(&b.data), vec![3; 4]);
    assert!(Buffer::filled(&vec![1, 1, 1, 1, 1], Fixed::one()).is_none());
    assert!(Buffer::filled(&vec![usize::MAX, 2], Fixed::one()).is_none());
    let s = Buffer::scalar(Fixed::from_count(9));
    assert_eq!(s.shape, Vec::<usize>::new());
    assert_eq!(ints(&s.data), vec![9]);
    let a = buffer(&[2, 3], &[1, 2, 3, 4, 5, 6]);
    let d = a.duplicate();
    assert_eq!((d.shape.clone(), ints(&d.data)), (vec![2, 3], vec![1, 2, 3, 4, 5, 6]));
    let r = d.reshape(vec![3, 2]).unwrap();
    assert_eq!((r.shape.clone(), ints(&r.data)), (vec![3, 2], vec![1, 2, 3, 4, 5, 6]));
    assert!(r.reshape(vec![4, 2]).is_none());
}

#[test]
fn test_elementwise_arithmetic() {
    let a = buffer(&[2, 2], &[1, 2, 3, 4]);
    let b = buffer(&[2, 2], &[10, 20, 30, 40]);
    assert_eq!(ints(&a.plus(&b).data), vec![11, 22, 33, 44]);
    assert_eq!(ints(&a.minus(&b).data), vec![-9, -18, -27, -36]);
    assert_eq!(ints(&a.times(&b).data), vec![10, 40, 90, 160]);
    assert_eq!(ints(&a.zip_map(&b, |x, y| y.minus(x).minus(x)).data), vec![8, 16, 24, 32]);
    assert_eq!(ints(&a.map(|x| x.times(x)).data), vec![1, 4, 9, 16]);
    assert_eq!(a.plus(&b).shape, vec![2, 2]);
    assert_eq!(a.sum(), Fixed::from_count(10));
    assert_eq!(buffer(&[0], &[]).sum(), Fixed::zero());
}

#[test]
fn test_broadcast_sum() {
    let a = buffer(&[2, 3], &[1, 2, 3, 4, 5, 6]);
    let b = buffer(&[3], &[-1, 0, 1]);
    let r = a.plus_broadcast(&b);
    assert_eq!((r.shape.clone(), ints(&r.data)), (vec![2, 3], vec![0, 2, 4, 3, 5, 7]));
    let lone = buffer(&[3], &[1, 2, 3]).plus_broadcast(&Buffer::scalar(Fixed::from_count(10)));
    assert_eq!(ints(&lone.data), vec![11, 12, 13]);
    let empty = buffer(&[0, 3], &[]).plus_broadcast(&b);
    assert_eq!(empty.data.len(), 0);
}

#[test]
fn test_matrix_products() {
    let a = buffer(&[2, 3], &[1, 2, 3, 4, 5, 6]);
    let b = buffer(&[3, 2], &[7, 8, 9, 10, 11, 12]);
    let p = a.matmul(&b);
    assert_eq!((p.shape.clone(), ints(&p.data)), (vec![2, 2], vec![58, 64, 139, 154]));
    let c = buffer(&[2, 3], &[1, 0, -1, 2, 2, 2]);
    let t = a.matmul_transpose(&c);
    assert_eq!((t.shape.clone(), ints(&t.data)), (vec![2, 2], vec![-2, 12, -2, 30]));
    let v = buffer(&[3], &[1, 1, 1]).vecmat(&b);
    assert_eq!((v.shape.clone(), ints(&v.data)), (vec![2], vec![27, 30]));
    let none = buffer(&[2, 0], &[]).matmul(&buffer(&[0, 2], &[]));
    assert_eq!(ints(&none.data), vec![0; 4]);
}

#[test]
fn test_batched_matrix_product() {
    let a = buffer(&[2, 1, 2], &[1, 2, 3, 4]);
    let b = buffer(&[2, 2, 2], &[1, 0, 0, 1, 2, 0, 0, 2]);
    let p = a.batch_matmul(&b);
    assert_eq!((p.shape.clone(), ints(&p.data)), (vec![2, 1, 2], vec![1, 2, 6, 8]));
}

#[test]
fn test_flat_runs() {
    let a = run(&[1, 2, 3, 4, 5, 6]);
    let b = run(&[10, 20]);
    assert_eq!(ints(&flat::plus_repeated(&a, &b)), vec![11, 22, 13, 24, 15, 26]);
    assert_eq!(ints(&flat::times_repeated(&a, &b)), vec![10, 40, 30, 80, 50, 120]);
    // the two columns of the three rows of `a`, each times its factor, added up
    assert_eq!(ints(&flat::times_fold(&b, &a, 2, 3)), vec![90, 240]);
    assert_eq!(flat::strided_dot(&a, 0, 2, &a, 1, 2, 3), Fixed::from_count(2 + 12 + 30));
    assert_eq!(ints(&flat::filled(3, Fixed::one())), vec![1, 1, 1]);
    assert_eq!(ints(&flat::copied(&a)), vec![1, 2, 3, 4, 5, 6]);
    assert_eq!(ints(&rows::stretch(&a, 2, 5)), vec![3, 4, 5]);
    assert_eq!(rows::largest(&run(&[3, 9, -2])), Fixed::from_count(9));
    assert_eq!(ints(&rows::rectify(&run(&[3, -9, 0]))), vec![3, 0, 0]);
    assert_eq!(ints(&rows::scale_down(&run(&[4, -8]), Fixed::from_count(2))), vec![2, -4]);
    let mut out = run(&[1]);
    rows::extend(&mut out, &b);
    assert_eq!(ints(&out), vec![1, 10, 20]);
}

#[test]
fn test_soft_maximum_of_equal_scores_is_even() {
    let soft = rows::soften_rows(&run(&[5, 5, 5, 5, 0, 0, 0, 0]), 4, 2);
    assert_eq!(soft, vec![Fixed::from_raw(ONE / 4); 8]);
    assert_eq!(rows::soften_row(&run(&[])), Vec::<Fixed>::new());
}
