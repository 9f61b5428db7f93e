//! Shaped buffers: a shape of up to four axes and the scalars it spans, in
//! row-major order.
use crate::flat;
use crate::flat::{
    constant, matmul, matmul_nt, plus_cyclic, sum_all, zip_minus, zip_plus, zip_times,
};
use crate::scalar::Scalar;
use vstd::prelude::*;

verus! {

/// The largest number of axes a buffer can have.
pub const MAX_RANK: usize = 4;

/// The number of elements that a shape spans: the product of its extents.
pub open spec fn volume(shape: Seq<usize>) -> nat
    decreases shape.len(),
{
    if shape.len() == 0 {
        1
    } else {
        volume(shape.drop_last()) * (shape.last() as nat)
    }
}

/// Whether some axis of the shape has extent zero.
pub open spec fn has_empty_axis(shape: Seq<usize>) -> bool {
    exists|i: int| 0 <= i < shape.len() && shape[i] == 0
}

/// A shape with an empty axis spans nothing.
pub proof fn lemma_volume_empty_axis(shape: Seq<usize>)
    requires
        has_empty_axis(shape),
    ensures
        volume(shape) == 0,
    decreases shape.len(),
{
    let i = choose|i: int| 0 <= i < shape.len() && shape[i] == 0;
    if i == shape.len() - 1 {
        assert(shape.last() == 0);
    } else {
        assert(shape.drop_last()[i] == 0);
        lemma_volume_empty_axis(shape.drop_last());
        assert(volume(shape.drop_last()) * (shape.last() as nat) == 0) by (nonlinear_arith)
            requires
                volume(shape.drop_last()) == 0,
        ;
    }
}

/// Without an empty axis, a shape spans at least one element and no prefix
/// of it spans more than the whole.
pub proof fn lemma_volume_prefix(shape: Seq<usize>, k: int)
    requires
        !has_empty_axis(shape),
        0 <= k <= shape.len(),
    ensures
        1 <= volume(shape.take(k)) <= volume(shape),
    decreases shape.len() - k,
{
    if k == shape.len() {
        assert(shape.take(k) =~= shape);
        lemma_volume_positive(shape);
    } else {
        lemma_volume_prefix(shape, k + 1);
        let next = shape.take(k + 1);
        assert(next.drop_last() =~= shape.take(k));
        assert(next.last() == shape[k]);
        assert(shape[k] >= 1);
        assert(volume(next) == volume(shape.take(k)) * (shape[k] as nat));
        assert(!has_empty_axis(shape.take(k))) by {
            if has_empty_axis(shape.take(k)) {
                let i = choose|i: int| 0 <= i < shape.take(k).len() && shape.take(k)[i] == 0;
                assert(shape[i] == 0);
            }
        }
        lemma_volume_positive(shape.take(k));
        assert(volume(shape.take(k)) <= volume(shape.take(k)) * (shape[k] as nat))
            by (nonlinear_arith)
            requires
                shape[k] >= 1,
        ;
    }
}

/// Without an empty axis, a shape spans at least one element.
pub proof fn lemma_volume_positive(shape: Seq<usize>)
    requires
        !has_empty_axis(shape),
    ensures
        volume(shape) >= 1,
    decreases shape.len(),
{
    if shape.len() > 0 {
        assert(!has_empty_axis(shape.drop_last())) by {
            if has_empty_axis(shape.drop_last()) {
                let i = choose|i: int|
                    0 <= i < shape.drop_last().len() && shape.drop_last()[i] == 0;
                assert(shape[i] == 0);
            }
        }
        lemma_volume_positive(shape.drop_last());
        assert(shape.last() == shape[shape.len() - 1]);
        assert(shape.last() >= 1);
        assert(volume(shape.drop_last()) * (shape.last() as nat) >= 1) by (nonlinear_arith)
            requires
                volume(shape.drop_last()) >= 1,
                shape.last() >= 1,
        ;
    }
}

/// Computes the number of elements a shape spans, or `None` when that
/// number does not fit the machine word.
pub fn element_count(shape: &Vec<usize>) -> (r: Option<usize>)
    ensures
        r matches Some(n) ==> n == volume(shape@),
        r.is_none() <==> volume(shape@) > usize::MAX,
{
    let mut i: usize = 0;
    while i < shape.len()
        invariant
            i <= shape.len(),
            forall|j: int| 0 <= j < i ==> shape@[j] != 0,
        decreases shape.len() - i,
    {
        if shape[i] == 0 {
            proof {
                lemma_volume_empty_axis(shape@);
            }
            return Some(0);
        }
        i += 1;
    }
    assert(!has_empty_axis(shape@));
    let mut count: usize = 1;
    let mut k: usize = 0;
    assert(shape@.take(0) =~= Seq::<usize>::empty());
    while k < shape.len()
        invariant
            k <= shape.len(),
            !has_empty_axis(shape@),
            count == volume(shape@.take(k as int)),
        decreases shape.len() - k,
    {
        proof {
            lemma_volume_prefix(shape@, k + 1);
            let next = shape@.take(k + 1);
            assert(next.drop_last() =~= shape@.take(k as int));
            assert(next.last() == shape@[k as int]);
        }
        match count.checked_mul(shape[k]) {
            Some(next) => {
                count = next;
            },
            None => {
                return None;
            },
        }
        k += 1;
    }
    assert(shape@.take(k as int) =~= shape@);
    Some(count)
}

/// A fixed-shape array of scalars.
///
/// The elements are stored in row-major order: the last axis varies
/// fastest.
pub struct Buffer<S> {
    pub shape: Vec<usize>,
    pub data: Vec<S>,
}

impl<S> Buffer<S> {
    /// The buffer has at most [`MAX_RANK`] axes and holds exactly as many
    /// elements as its shape spans.
    pub open spec fn wf(&self) -> bool {
        &&& self.shape@.len() <= MAX_RANK
        &&& self.data@.len() == volume(self.shape@)
    }

    /// The extents of the axes.
    pub open spec fn dims(&self) -> Seq<usize> {
        self.shape@
    }
}

/// A shape of one axis spans its extent.
pub proof fn lemma_volume_1(shape: Seq<usize>)
    requires
        shape.len() == 1,
    ensures
        volume(shape) == shape[0],
{
    reveal_with_fuel(volume, 2);
    assert(shape.last() == shape[0]);
    assert(volume(shape.drop_last()) * (shape.last() as nat) == shape[0]) by (nonlinear_arith)
        requires
            volume(shape.drop_last()) == 1,
            shape.last() == shape[0],
    ;
}

/// A shape of two axes spans the product of its extents.
pub proof fn lemma_volume_2(shape: Seq<usize>)
    requires
        shape.len() == 2,
    ensures
        volume(shape) == shape[0] * shape[1],
{
    lemma_volume_1(shape.drop_last());
    assert(shape.drop_last()[0] == shape[0]);
    assert(shape.last() == shape[1]);
}

/// A shape of three axes spans the product of its extents.
pub proof fn lemma_volume_3(shape: Seq<usize>)
    requires
        shape.len() == 3,
    ensures
        volume(shape) == shape[0] * shape[1] * shape[2],
{
    lemma_volume_2(shape.drop_last());
    assert(shape.drop_last()[0] == shape[0]);
    assert(shape.drop_last()[1] == shape[1]);
    assert(shape.last() == shape[2]);
}

/// Copies a shape.
pub fn copy_shape(shape: &Vec<usize>) -> (r: Vec<usize>)
    ensures
        r@ == shape@,
{
    let mut out: Vec<usize> = Vec::new();
    let mut i: usize = 0;
    while i < shape.len()
        invariant
            i <= shape.len(),
            out@ == shape@.take(i as int),
        decreases shape.len() - i,
    {
        out.push(shape[i]);
        assert(out@ =~= shape@.take(i + 1));
        i += 1;
    }
    assert(shape@.take(i as int) =~= shape@);
    out
}

/// Tells whether two shapes are the same.
pub fn same_shape(a: &Vec<usize>, b: &Vec<usize>) -> (r: bool)
    ensures
        r == (a@ == b@),
{
    if a.len() != b.len() {
        return false;
    }
    let mut i: usize = 0;
    while i < a.len()
        invariant
            i <= a.len(),
            a.len() == b.len(),
            a@.take(i as int) == b@.take(i as int),
        decreases a.len() - i,
    {
        if a[i] != b[i] {
            return false;
        }
        assert(a@.take(i + 1) =~= a@.take(i as int).push(a@[i as int]));
        assert(b@.take(i + 1) =~= b@.take(i as int).push(b@[i as int]));
        i += 1;
    }
    assert(a@.take(i as int) =~= a@);
    assert(b@.take(i as int) =~= b@);
    true
}

impl<S: Scalar> Buffer<S> {
    /// Builds a buffer from a shape and its elements in row-major order.
    ///
    /// Returns `None` when the shape has more than [`MAX_RANK`] axes or does
    /// not span exactly the given elements.
    pub fn new(shape: Vec<usize>, data: Vec<S>) -> (r: Option<Self>)
        ensures
            r.is_some() <==> shape@.len() <= MAX_RANK && volume(shape@) == data@.len(),
            r matches Some(b) ==> b.wf() && b.shape == shape && b.data == data,
    {
        let len = data.len();
        if shape.len() > MAX_RANK {
            return None;
        }
        match element_count(&shape) {
            Some(n) => {
                if n == len {
                    Some(Buffer { shape, data })
                } else {
                    None
                }
            },
            None => None,
        }
    }

    /// Builds a buffer of the given shape with every element equal to
    /// `value`.
    ///
    /// Returns `None` when the shape has more than [`MAX_RANK`] axes or spans
    /// more elements than the machine word can count.
    pub fn filled(shape: &Vec<usize>, value: S) -> (r: Option<Self>)
        ensures
            r.is_some() <==> shape@.len() <= MAX_RANK && volume(shape@) <= usize::MAX,
            r matches Some(b) ==> b.wf() && b.dims() == shape@ && b@ == constant(
                volume(shape@),
                value,
            ),
    {
        if shape.len() > MAX_RANK {
            return None;
        }
        match element_count(shape) {
            Some(n) => Some(Buffer { shape: copy_shape(shape), data: flat::filled(n, value) }),
            None => None,
        }
    }

    /// A buffer without axes that holds one scalar.
    pub fn scalar(value: S) -> (r: Self)
        ensures
            r.wf(),
            r.dims() == Seq::<usize>::empty(),
            r@ == seq![value],
    {
        let mut data: Vec<S> = Vec::new();
        data.push(value);
        Buffer { shape: Vec::new(), data }
    }

    /// A buffer with the same shape and the same elements.
    pub fn duplicate(&self) -> (r: Self)
        requires
            self.wf(),
        ensures
            r.wf(),
            r.dims() == self.dims(),
            r@ == self@,
    {
        Buffer { shape: copy_shape(&self.shape), data: flat::copied(&self.data) }
    }

    /// The same elements under another shape that spans as many.
    ///
    /// Returns `None` when the new shape has more than [`MAX_RANK`] axes or
    /// spans a different number of elements.
    pub fn reshape(self, shape: Vec<usize>) -> (r: Option<Self>)
        ensures
            r.is_some() <==> shape@.len() <= MAX_RANK && volume(shape@) == self@.len(),
            r matches Some(b) ==> b.wf() && b.dims() == shape@ && b@ == self@,
    {
        Buffer::new(shape, self.data)
    }

    /// Combines two buffers of one shape element by element.
    pub fn zip_map<F: Fn(S, S) -> S>(&self, rhs: &Buffer<S>, f: F) -> (r: Self)
        requires
            self.wf(),
            rhs.wf(),
            self.dims() == rhs.dims(),
            forall|i: int|
                0 <= i < self@.len() ==> #[trigger] call_requires(f, (self@[i], rhs@[i])),
        ensures
            r.wf(),
            r.dims() == self.dims(),
            r@.len() == self@.len(),
            forall|i: int|
                0 <= i < self@.len() ==> call_ensures(f, (self@[i], rhs@[i]), #[trigger] r@[i]),
    {
        assert forall|i: int| 0 <= i < self.data@.len() implies #[trigger] call_requires(
            f,
            (self.data@[i], rhs.data@[i]),
        ) by {
            assert(call_requires(f, (self@[i], rhs@[i])));
        }
        Buffer { shape: copy_shape(&self.shape), data: flat::zip_map(&self.data, &rhs.data, f) }
    }

    /// Applies a function to every element.
    pub fn map<F: Fn(S) -> S>(&self, f: F) -> (r: Self)
        requires
            self.wf(),
            forall|i: int| 0 <= i < self@.len() ==> #[trigger] call_requires(f, (self@[i],)),
        ensures
            r.wf(),
            r.dims() == self.dims(),
            r@.len() == self@.len(),
            forall|i: int| 0 <= i < self@.len() ==> call_ensures(f, (self@[i],), #[trigger] r@[i]),
    {
        assert forall|i: int| 0 <= i < self.data@.len() implies #[trigger] call_requires(
            f,
            (self.data@[i],),
        ) by {
            assert(call_requires(f, (self@[i],)));
        }
        Buffer { shape: copy_shape(&self.shape), data: flat::map_each(&self.data, f) }
    }

    /// Elementwise sum with a buffer of the same shape.
    pub fn plus(&self, rhs: &Buffer<S>) -> (r: Self)
        requires
            self.wf(),
            rhs.wf(),
            self.dims() == rhs.dims(),
        ensures
            r.wf(),
            r.dims() == self.dims(),
            r@ == zip_plus(self@, rhs@),
    {
        Buffer { shape: copy_shape(&self.shape), data: flat::plus(&self.data, &rhs.data) }
    }

    /// Elementwise difference with a buffer of the same shape.
    pub fn minus(&self, rhs: &Buffer<S>) -> (r: Self)
        requires
            self.wf(),
            rhs.wf(),
            self.dims() == rhs.dims(),
        ensures
            r.wf(),
            r.dims() == self.dims(),
            r@ == zip_minus(self@, rhs@),
    {
        Buffer { shape: copy_shape(&self.shape), data: flat::minus(&self.data, &rhs.data) }
    }

    /// Elementwise product with a buffer of the same shape.
    pub fn times(&self, rhs: &Buffer<S>) -> (r: Self)
        requires
            self.wf(),
            rhs.wf(),
            self.dims() == rhs.dims(),
        ensures
            r.wf(),
            r.dims() == self.dims(),
            r@ == zip_times(self@, rhs@),
    {
        Buffer { shape: copy_shape(&self.shape), data: flat::times(&self.data, &rhs.data) }
    }

    /// Adds a buffer that lacks the leading axis to every slice along that
    /// axis.
    pub fn plus_broadcast(&self, rhs: &Buffer<S>) -> (r: Self)
        requires
            self.wf(),
            rhs.wf(),
            extends(self.dims(), rhs.dims()),
        ensures
            r.wf(),
            r.dims() == self.dims(),
            r@ == plus_cyclic(self@, rhs@),
    {
        proof {
            lemma_extends(self.dims(), rhs.dims());
            if self@.len() > 0 && rhs@.len() == 0 {
                assert(self.dims()[0] * 0 == 0);
            }
        }
        Buffer { shape: copy_shape(&self.shape), data: flat::plus_repeated(&self.data, &rhs.data) }
    }

    /// The sum of all elements, accumulated from zero in index order.
    pub fn sum(&self) -> (r: S)
        ensures
            r == sum_all(self@),
    {
        flat::sum(&self.data)
    }

    /// The product of an `m` by `n` matrix with an `n` by `o` matrix.
    pub fn matmul(&self, rhs: &Buffer<S>) -> (r: Self)
        requires
            self.wf(),
            rhs.wf(),
            self.dims().len() == 2,
            rhs.dims().len() == 2,
            self.dims()[1] == rhs.dims()[0],
            self.dims()[0] * rhs.dims()[1] <= usize::MAX,
        ensures
            r.wf(),
            r.dims() == seq![self.dims()[0], rhs.dims()[1]],
            r@ == matmul(
                self@,
                rhs@,
                self.dims()[0] as nat,
                self.dims()[1] as nat,
                rhs.dims()[1] as nat,
            ),
    {
        let m = self.shape[0];
        let n = self.shape[1];
        let o = rhs.shape[1];
        proof {
            lemma_volume_2(self.dims());
            lemma_volume_2(rhs.dims());
            lemma_matmul_fits(m as int, n as int, o as int);
        }
        let data = flat::multiply(&self.data, &rhs.data, m, o, n, n, 1, 1, o);
        let mut shape: Vec<usize> = Vec::new();
        shape.push(m);
        shape.push(o);
        proof {
            assert(shape@ =~= seq![m, o]);
            lemma_volume_2(shape@);
        }
        Buffer { shape, data }
    }

    /// The product of an `m` by `k` matrix with the transpose of an `n` by
    /// `k` matrix.
    pub fn matmul_transpose(&self, rhs: &Buffer<S>) -> (r: Self)
        requires
            self.wf(),
            rhs.wf(),
            self.dims().len() == 2,
            rhs.dims().len() == 2,
            self.dims()[1] == rhs.dims()[1],
            self.dims()[0] * rhs.dims()[0] <= usize::MAX,
        ensures
            r.wf(),
            r.dims() == seq![self.dims()[0], rhs.dims()[0]],
            r@ == matmul_nt(
                self@,
                rhs@,
                self.dims()[0] as nat,
                self.dims()[1] as nat,
                rhs.dims()[0] as nat,
            ),
    {
        let m = self.shape[0];
        let k = self.shape[1];
        let n = rhs.shape[0];
        proof {
            lemma_volume_2(self.dims());
            lemma_volume_2(rhs.dims());
            crate::gradients::lemma_backward_products_fit(m as int, n as int, k as int);
        }
        let data = flat::multiply(&self.data, &rhs.data, m, n, k, k, 1, k, 1);
        let mut shape: Vec<usize> = Vec::new();
        shape.push(m);
        shape.push(n);
        proof {
            assert(shape@ =~= seq![m, n]);
            lemma_volume_2(shape@);
        }
        Buffer { shape, data }
    }

    /// The products of a batch of `m` by `n` matrices with a batch of `n`
    /// by `o` matrices, pair by pair.
    pub fn batch_matmul(&self, rhs: &Buffer<S>) -> (r: Self)
        requires
            self.wf(),
            rhs.wf(),
            self.dims().len() == 3,
            rhs.dims().len() == 3,
            self.dims()[0] == rhs.dims()[0],
            self.dims()[2] == rhs.dims()[1],
            self.dims()[0] * self.dims()[1] * rhs.dims()[2] <= usize::MAX,
            self.dims()[1] * rhs.dims()[2] <= usize::MAX,
        ensures
            r.wf(),
            r.dims() == seq![self.dims()[0], self.dims()[1], rhs.dims()[2]],
            r@ == crate::rows::matmul_batched(
                self@,
                rhs@,
                self.dims()[1] as nat,
                self.dims()[2] as nat,
                rhs.dims()[2] as nat,
                self.dims()[0] as nat,
            ),
    {
        let count = self.shape[0];
        let m = self.shape[1];
        let n = self.shape[2];
        let o = rhs.shape[2];
        proof {
            lemma_volume_3(self.dims());
            lemma_volume_3(rhs.dims());
            assert(count * m * n == count * (m * n)) by (nonlinear_arith);
            assert(count * n * o == count * (n * o)) by (nonlinear_arith);
            assert(count * m * o == count * (m * o)) by (nonlinear_arith);
        }
        let data = crate::rows::multiply_batched(&self.data, &rhs.data, m, n, o, count);
        let mut shape: Vec<usize> = Vec::new();
        shape.push(count);
        shape.push(m);
        shape.push(o);
        proof {
            assert(shape@ =~= seq![count, m, o]);
            lemma_volume_3(shape@);
        }
        Buffer { shape, data }
    }

    /// The product of a vector of `n` elements, taken as a single row, with
    /// an `n` by `o` matrix.
    pub fn vecmat(&self, rhs: &Buffer<S>) -> (r: Self)
        requires
            self.wf(),
            rhs.wf(),
            self.dims().len() == 1,
            rhs.dims().len() == 2,
            self.dims()[0] == rhs.dims()[0],
        ensures
            r.wf(),
            r.dims() == seq![rhs.dims()[1]],
            r@ == matmul(self@, rhs@, 1, self.dims()[0] as nat, rhs.dims()[1] as nat),
    {
        let n = self.shape[0];
        let o = rhs.shape[1];
        proof {
            lemma_volume_1(self.dims());
            lemma_volume_2(rhs.dims());
            lemma_matmul_fits(1, n as int, o as int);
        }
        let data = flat::multiply(&self.data, &rhs.data, 1, o, n, n, 1, 1, o);
        let mut shape: Vec<usize> = Vec::new();
        shape.push(o);
        proof {
            assert(shape@ =~= seq![o]);
            lemma_volume_1(shape@);
        }
        Buffer { shape, data }
    }
}

/// Whether `big` is `small` with one more axis in front.
pub open spec fn extends(big: Seq<usize>, small: Seq<usize>) -> bool {
    big.len() == small.len() + 1 && big.skip(1) == small
}

/// Tells whether `big` is `small` with one more axis in front.
pub fn extends_shape(big: &Vec<usize>, small: &Vec<usize>) -> (r: bool)
    ensures
        r == extends(big@, small@),
{
    if big.len() == 0 || big.len() - 1 != small.len() {
        return false;
    }
    let mut i: usize = 0;
    while i < small.len()
        invariant
            i <= small.len(),
            big@.len() == small@.len() + 1,
            forall|j: int| 0 <= j < i ==> big@[j + 1] == small@[j],
        decreases small.len() - i,
    {
        if big[i + 1] != small[i] {
            assert(big@.skip(1)[i as int] != small@[i as int]);
            return false;
        }
        i += 1;
    }
    assert(big@.skip(1) =~= small@);
    true
}

/// A shape with one more axis in front spans that axis's extent times
/// what the rest spans.
pub proof fn lemma_extends(big: Seq<usize>, small: Seq<usize>)
    requires
        extends(big, small),
    ensures
        volume(big) == big[0] * volume(small),
    decreases small.len(),
{
    if small.len() == 0 {
        lemma_volume_1(big);
        assert(big[0] * volume(small) == big[0]) by (nonlinear_arith)
            requires
                volume(small) == 1,
        ;
    } else {
        assert(big.drop_last().skip(1) =~= small.drop_last());
        lemma_extends(big.drop_last(), small.drop_last());
        assert(big.last() == small.last());
        assert(big.drop_last()[0] == big[0]);
        let x = volume(big.drop_last()) as int;
        let y = volume(small.drop_last()) as int;
        let z = small.last() as int;
        let a = big[0] as int;
        assert(x * z == a * (y * z)) by (nonlinear_arith)
            requires
                x == a * y,
        ;
    }
}

/// The reads of an `m` by `n` times `n` by `o` product stay inside the
/// two operands.
pub proof fn lemma_matmul_fits(m: int, n: int, o: int)
    requires
        0 <= m,
        0 <= n,
        0 <= o,
    ensures
        flat::walk_fits(m, o, n, n, 1, 1, o, m * n, n * o),
{
    if m > 0 && o > 0 && n > 0 {
        assert((m - 1) * n + (n - 1) * 1 < m * n) by (nonlinear_arith)
            requires
                m > 0,
                n > 0,
        ;
        assert((o - 1) * 1 + (n - 1) * o < n * o) by (nonlinear_arith)
            requires
                o > 0,
                n > 0,
        ;
    }
}

impl<S> View for Buffer<S> {
    type V = Seq<S>;

    open spec fn view(&self) -> Seq<S> {
        self.data@
    }
}

} // verus!
