//! Arithmetic on flat runs of scalars.
//!
//! A buffer stores its elements in one row-major run.  The functions here
//! work on such runs and know nothing of shapes; every result is stated as
//! a sequence built from the scalar operations in the order in which they
//! are applied.
use crate::scalar::Scalar;
use vstd::prelude::*;

verus! {

/// The sequence of length `n` whose every element is `value`.
pub open spec fn constant<S>(n: nat, value: S) -> Seq<S> {
    Seq::new(n, |i: int| value)
}

/// Elementwise sum of two sequences of equal length.
pub open spec fn zip_plus<S: Scalar>(a: Seq<S>, b: Seq<S>) -> Seq<S> {
    Seq::new(a.len(), |i: int| a[i].spec_plus(b[i]))
}

/// Elementwise difference of two sequences of equal length.
pub open spec fn zip_minus<S: Scalar>(a: Seq<S>, b: Seq<S>) -> Seq<S> {
    Seq::new(a.len(), |i: int| a[i].spec_minus(b[i]))
}

/// Elementwise product of two sequences of equal length.
pub open spec fn zip_times<S: Scalar>(a: Seq<S>, b: Seq<S>) -> Seq<S> {
    Seq::new(a.len(), |i: int| a[i].spec_times(b[i]))
}

/// The sum of the first `k` elements, accumulated from zero in index order.
pub open spec fn sum_prefix<S: Scalar>(a: Seq<S>, k: nat) -> S
    decreases k,
{
    if k == 0 {
        S::spec_zero()
    } else {
        sum_prefix(a, (k - 1) as nat).spec_plus(a[k - 1])
    }
}

/// The sum of all elements, accumulated from zero in index order.
pub open spec fn sum_all<S: Scalar>(a: Seq<S>) -> S {
    sum_prefix(a, a.len())
}

/// The dot product of `k` elements of `a`, taken from `a0` in steps of
/// `sa`, with `k` elements of `b`, taken from `b0` in steps of `sb`.  The
/// products are accumulated from zero in the order of the steps.
pub open spec fn dot<S: Scalar>(a: Seq<S>, a0: int, sa: int, b: Seq<S>, b0: int, sb: int, k: nat) -> S
    decreases k,
{
    if k == 0 {
        S::spec_zero()
    } else {
        dot(a, a0, sa, b, b0, sb, (k - 1) as nat).spec_plus(
            a[a0 + (k - 1) * sa].spec_times(b[b0 + (k - 1) * sb]),
        )
    }
}

/// The `rows` by `cols` matrix whose element `(i, j)` is the dot product of
/// `inner` elements of `a`, taken from `i * a_row` in steps of `a_step`,
/// with `inner` elements of `b`, taken from `j * b_col` in steps of
/// `b_step`.
pub open spec fn product<S: Scalar>(
    a: Seq<S>,
    b: Seq<S>,
    rows: nat,
    cols: nat,
    inner: nat,
    a_row: int,
    a_step: int,
    b_col: int,
    b_step: int,
) -> Seq<S> {
    Seq::new(
        rows * cols,
        |p: int|
            dot(a, (p / cols as int) * a_row, a_step, b, (p % cols as int) * b_col, b_step, inner),
    )
}

/// The product of an `m` by `n` matrix with an `n` by `o` matrix.
pub open spec fn matmul<S: Scalar>(a: Seq<S>, b: Seq<S>, m: nat, n: nat, o: nat) -> Seq<S> {
    product(a, b, m, o, n, n as int, 1, 1, o as int)
}

/// The product of an `m` by `k` matrix with the transpose of an `n` by `k`
/// matrix.
pub open spec fn matmul_nt<S: Scalar>(a: Seq<S>, b: Seq<S>, m: nat, k: nat, n: nat) -> Seq<S> {
    product(a, b, m, n, k, k as int, 1, k as int, 1)
}

/// The product of the transpose of a `k` by `m` matrix with a `k` by `o`
/// matrix.
pub open spec fn matmul_tn<S: Scalar>(a: Seq<S>, b: Seq<S>, k: nat, m: nat, o: nat) -> Seq<S> {
    product(a, b, m, o, k, 1, m as int, 1, o as int)
}

/// Elementwise sum of a sequence with a shorter one that is repeated as
/// often as needed.
pub open spec fn plus_cyclic<S: Scalar>(big: Seq<S>, small: Seq<S>) -> Seq<S> {
    Seq::new(big.len(), |p: int| big[p].spec_plus(small[p % small.len() as int]))
}

/// Elementwise product of a sequence with a shorter one that is repeated as
/// often as needed.
pub open spec fn times_cyclic<S: Scalar>(big: Seq<S>, small: Seq<S>) -> Seq<S> {
    Seq::new(big.len(), |p: int| big[p].spec_times(small[p % small.len() as int]))
}

/// For each of the `v` positions of `small`, the sum over the `m` repeats
/// of `small[j] * big[i * v + j]`, accumulated from zero in the order of
/// the repeats.
pub open spec fn times_folded<S: Scalar>(small: Seq<S>, big: Seq<S>, v: nat, m: nat) -> Seq<S> {
    Seq::new(v, |j: int| dot(small, j, 0, big, j, v as int, m))
}

/// A run of `n` copies of `value`.
pub fn filled<S: Scalar>(n: usize, value: S) -> (r: Vec<S>)
    ensures
        r@ == constant(n as nat, value),
{
    let mut out: Vec<S> = Vec::new();
    let mut i: usize = 0;
    while i < n
        invariant
            i <= n,
            out@ == constant(i as nat, value),
        decreases n - i,
    {
        out.push(value);
        assert(out@ =~= constant((i + 1) as nat, value));
        i += 1;
    }
    out
}

/// A copy of a run.
pub fn copied<S: Scalar>(a: &Vec<S>) -> (r: Vec<S>)
    ensures
        r@ == a@,
{
    let n = a.len();
    let mut out: Vec<S> = Vec::new();
    let mut i: usize = 0;
    while i < n
        invariant
            i <= n,
            n == a@.len(),
            out@ == a@.take(i as int),
        decreases n - i,
    {
        out.push(a[i]);
        assert(out@ =~= a@.take(i + 1));
        i += 1;
    }
    assert(a@.take(n as int) =~= a@);
    out
}

/// Combines two runs of one length element by element.
pub fn zip_map<S: Scalar, F: Fn(S, S) -> S>(a: &Vec<S>, b: &Vec<S>, f: F) -> (r: Vec<S>)
    requires
        a@.len() == b@.len(),
        forall|i: int| 0 <= i < a@.len() ==> #[trigger] call_requires(f, (a@[i], b@[i])),
    ensures
        r@.len() == a@.len(),
        forall|i: int| 0 <= i < a@.len() ==> call_ensures(f, (a@[i], b@[i]), #[trigger] r@[i]),
{
    let n = a.len();
    let mut out: Vec<S> = Vec::new();
    let mut i: usize = 0;
    while i < n
        invariant
            i <= n,
            n == a@.len(),
            n == b@.len(),
            out@.len() == i,
            forall|j: int| 0 <= j < n ==> #[trigger] call_requires(f, (a@[j], b@[j])),
            forall|j: int| 0 <= j < i ==> call_ensures(f, (a@[j], b@[j]), #[trigger] out@[j]),
        decreases n - i,
    {
        assert(call_requires(f, (a@[i as int], b@[i as int])));
        let v = f(a[i], b[i]);
        out.push(v);
        i += 1;
    }
    out
}

/// Applies a function to every element of a run.
pub fn map_each<S: Scalar, F: Fn(S) -> S>(a: &Vec<S>, f: F) -> (r: Vec<S>)
    requires
        forall|i: int| 0 <= i < a@.len() ==> #[trigger] call_requires(f, (a@[i],)),
    ensures
        r@.len() == a@.len(),
        forall|i: int| 0 <= i < a@.len() ==> call_ensures(f, (a@[i],), #[trigger] r@[i]),
{
    let n = a.len();
    let mut out: Vec<S> = Vec::new();
    let mut i: usize = 0;
    while i < n
        invariant
            i <= n,
            n == a@.len(),
            out@.len() == i,
            forall|j: int| 0 <= j < n ==> #[trigger] call_requires(f, (a@[j],)),
            forall|j: int| 0 <= j < i ==> call_ensures(f, (a@[j],), #[trigger] out@[j]),
        decreases n - i,
    {
        assert(call_requires(f, (a@[i as int],)));
        let v = f(a[i]);
        out.push(v);
        i += 1;
    }
    out
}

/// Combines a run with a shorter one that is repeated as often as needed.
pub fn zip_cyclic<S: Scalar, F: Fn(S, S) -> S>(big: &Vec<S>, small: &Vec<S>, f: F) -> (r: Vec<S>)
    requires
        big@.len() > 0 ==> small@.len() > 0,
        forall|x: S, y: S| call_requires(f, (x, y)),
    ensures
        r@.len() == big@.len(),
        forall|p: int|
            0 <= p < big@.len() ==> call_ensures(
                f,
                (big@[p], small@[p % small@.len() as int]),
                #[trigger] r@[p],
            ),
{
    let n = big.len();
    let v = small.len();
    let mut out: Vec<S> = Vec::new();
    let mut p: usize = 0;
    let mut j: usize = 0;
    while p < n
        invariant
            p <= n,
            n == big@.len(),
            v == small@.len(),
            n > 0 ==> v > 0,
            p < n ==> j < v && j == p % v,
            out@.len() == p,
            forall|x: S, y: S| call_requires(f, (x, y)),
            forall|q: int|
                0 <= q < p ==> call_ensures(
                    f,
                    (big@[q], small@[q % small@.len() as int]),
                    #[trigger] out@[q],
                ),
        decreases n - p,
    {
        let value = f(big[p], small[j]);
        out.push(value);
        proof {
            lemma_next_residue(p as int, v as int);
        }
        p += 1;
        j += 1;
        if j == v {
            j = 0;
        }
    }
    out
}

/// Elementwise sum of two runs of one length.
pub fn plus<S: Scalar>(a: &Vec<S>, b: &Vec<S>) -> (r: Vec<S>)
    requires
        a@.len() == b@.len(),
    ensures
        r@ == zip_plus(a@, b@),
{
    let r = zip_map(a, b, |x: S, y: S| -> (z: S)
        ensures
            z == x.spec_plus(y),
        { x.plus(y) });
    assert(r@ =~= zip_plus(a@, b@));
    r
}

/// Elementwise difference of two runs of one length.
pub fn minus<S: Scalar>(a: &Vec<S>, b: &Vec<S>) -> (r: Vec<S>)
    requires
        a@.len() == b@.len(),
    ensures
        r@ == zip_minus(a@, b@),
{
    let r = zip_map(a, b, |x: S, y: S| -> (z: S)
        ensures
            z == x.spec_minus(y),
        { x.minus(y) });
    assert(r@ =~= zip_minus(a@, b@));
    r
}

/// Elementwise product of two runs of one length.
pub fn times<S: Scalar>(a: &Vec<S>, b: &Vec<S>) -> (r: Vec<S>)
    requires
        a@.len() == b@.len(),
    ensures
        r@ == zip_times(a@, b@),
{
    let r = zip_map(a, b, |x: S, y: S| -> (z: S)
        ensures
            z == x.spec_times(y),
        { x.times(y) });
    assert(r@ =~= zip_times(a@, b@));
    r
}

/// Elementwise sum of a run with a shorter one, repeated as often as
/// needed.
pub fn plus_repeated<S: Scalar>(big: &Vec<S>, small: &Vec<S>) -> (r: Vec<S>)
    requires
        big@.len() > 0 ==> small@.len() > 0,
    ensures
        r@ == plus_cyclic(big@, small@),
{
    let r = zip_cyclic(big, small, |x: S, y: S| -> (z: S)
        ensures
            z == x.spec_plus(y),
        { x.plus(y) });
    assert(r@ =~= plus_cyclic(big@, small@));
    r
}

/// Elementwise product of a run with a shorter one, repeated as often as
/// needed.
pub fn times_repeated<S: Scalar>(big: &Vec<S>, small: &Vec<S>) -> (r: Vec<S>)
    requires
        big@.len() > 0 ==> small@.len() > 0,
    ensures
        r@ == times_cyclic(big@, small@),
{
    let r = zip_cyclic(big, small, |x: S, y: S| -> (z: S)
        ensures
            z == x.spec_times(y),
        { x.times(y) });
    assert(r@ =~= times_cyclic(big@, small@));
    r
}

/// The sum of all elements of a run, accumulated from zero in index order.
pub fn sum<S: Scalar>(a: &Vec<S>) -> (r: S)
    ensures
        r == sum_all(a@),
{
    let n = a.len();
    let mut acc = S::zero();
    let mut i: usize = 0;
    while i < n
        invariant
            i <= n,
            n == a@.len(),
            acc == sum_prefix(a@, i as nat),
        decreases n - i,
    {
        acc = acc.plus(a[i]);
        i += 1;
    }
    acc
}

proof fn lemma_step_bound(t: int, s: int, t_max: int)
    requires
        0 <= t <= t_max,
        0 <= s,
    ensures
        0 <= t * s <= t_max * s,
{
    assert(0 <= t * s <= t_max * s) by (nonlinear_arith)
        requires
            0 <= t <= t_max,
            0 <= s,
    ;
}

proof fn lemma_next_residue(p: int, v: int)
    requires
        0 <= p,
        0 < v,
    ensures
        (p + 1) % v == (if p % v + 1 == v {
            0
        } else {
            p % v + 1
        }),
{
    let q = p / v;
    let j = p % v;
    vstd::arithmetic::div_mod::lemma_fundamental_div_mod(p, v);
    vstd::arithmetic::div_mod::lemma_mod_pos_bound(p, v);
    vstd::arithmetic::div_mod::lemma_div_pos_is_pos(p, v);
    if j + 1 == v {
        assert(p + 1 == (q + 1) * v + 0) by (nonlinear_arith)
            requires
                p == v * q + j,
                j + 1 == v,
        ;
        vstd::arithmetic::div_mod::lemma_fundamental_div_mod_converse(p + 1, v, q + 1, 0);
    } else {
        assert(p + 1 == q * v + (j + 1)) by (nonlinear_arith)
            requires
                p == v * q + j,
        ;
        vstd::arithmetic::div_mod::lemma_fundamental_div_mod_converse(p + 1, v, q, j + 1);
    }
}

proof fn lemma_cell(i: int, j: int, cols: int)
    requires
        0 <= i,
        0 <= j < cols,
    ensures
        (i * cols + j) / cols == i,
        (i * cols + j) % cols == j,
{
    vstd::arithmetic::div_mod::lemma_fundamental_div_mod_converse(i * cols + j, cols, i, j);
}

/// Computes the dot product of two strided runs of scalars.
pub fn strided_dot<S: Scalar>(
    a: &Vec<S>,
    a0: usize,
    sa: usize,
    b: &Vec<S>,
    b0: usize,
    sb: usize,
    k: usize,
) -> (r: S)
    requires
        k > 0 ==> a0 + (k - 1) * sa < a@.len() && b0 + (k - 1) * sb < b@.len(),
    ensures
        r == dot(a@, a0 as int, sa as int, b@, b0 as int, sb as int, k as nat),
{
    // the length of a run that exists fits a machine word
    let a_len = a.len();
    let b_len = b.len();
    let mut acc = S::zero();
    let mut ia: usize = a0;
    let mut ib: usize = b0;
    let mut t: usize = 0;
    while t < k
        invariant
            t <= k,
            a_len == a@.len(),
            b_len == b@.len(),
            k > 0 ==> a0 + (k - 1) * sa < a@.len() && b0 + (k - 1) * sb < b@.len(),
            t < k ==> ia == a0 + t * sa && ib == b0 + t * sb,
            acc == dot(a@, a0 as int, sa as int, b@, b0 as int, sb as int, t as nat),
        decreases k - t,
    {
        let ghost before = t as int;
        proof {
            lemma_step_bound(before, sa as int, k - 1);
            lemma_step_bound(before, sb as int, k - 1);
        }
        acc = acc.plus(a[ia].times(b[ib]));
        t += 1;
        if t < k {
            proof {
                lemma_step_bound(t as int, sa as int, k - 1);
                lemma_step_bound(t as int, sb as int, k - 1);
                assert(t * sa == before * sa + sa) by (nonlinear_arith)
                    requires
                        t == before + 1,
                ;
                assert(t * sb == before * sb + sb) by (nonlinear_arith)
                    requires
                        t == before + 1,
                ;
            }
            ia += sa;
            ib += sb;
        }
    }
    acc
}

/// Whether every element that a matrix product reads lies inside operands
/// of the given lengths.
pub open spec fn walk_fits(
    rows: int,
    cols: int,
    inner: int,
    a_row: int,
    a_step: int,
    b_col: int,
    b_step: int,
    a_len: int,
    b_len: int,
) -> bool {
    rows > 0 && cols > 0 && inner > 0 ==> (rows - 1) * a_row + (inner - 1) * a_step < a_len && (cols
        - 1) * b_col + (inner - 1) * b_step < b_len
}

/// Computes a matrix product over two flat operands, row by row.
pub fn multiply<S: Scalar>(
    a: &Vec<S>,
    b: &Vec<S>,
    rows: usize,
    cols: usize,
    inner: usize,
    a_row: usize,
    a_step: usize,
    b_col: usize,
    b_step: usize,
) -> (r: Vec<S>)
    requires
        walk_fits(
            rows as int,
            cols as int,
            inner as int,
            a_row as int,
            a_step as int,
            b_col as int,
            b_step as int,
            a@.len() as int,
            b@.len() as int,
        ),
        rows * cols <= usize::MAX,
    ensures
        r@ == product(
            a@,
            b@,
            rows as nat,
            cols as nat,
            inner as nat,
            a_row as int,
            a_step as int,
            b_col as int,
            b_step as int,
        ),
{
    let ghost want = product(
        a@,
        b@,
        rows as nat,
        cols as nat,
        inner as nat,
        a_row as int,
        a_step as int,
        b_col as int,
        b_step as int,
    );
    // the length of a run that exists fits a machine word
    let a_len = a.len();
    let b_len = b.len();
    let mut out: Vec<S> = Vec::new();
    let mut i: usize = 0;
    while i < rows
        invariant
            i <= rows,
            a_len == a@.len(),
            b_len == b@.len(),
            inner > 0 && cols > 0 && rows > 0 ==> (rows - 1) * a_row + (inner - 1) * a_step < a@.len(),
            inner > 0 && cols > 0 && rows > 0 ==> (cols - 1) * b_col + (inner - 1) * b_step < b@.len(),
            rows * cols <= usize::MAX,
            want.len() == rows * cols,
            out@.len() == i * cols,
            forall|p: int| 0 <= p < out@.len() ==> out@[p] == want[p],
            want == product(
                a@,
                b@,
                rows as nat,
                cols as nat,
                inner as nat,
                a_row as int,
                a_step as int,
                b_col as int,
                b_step as int,
            ),
        decreases rows - i,
    {
        let mut j: usize = 0;
        while j < cols
            invariant
                i < rows,
                j <= cols,
                a_len == a@.len(),
                b_len == b@.len(),
                inner > 0 && cols > 0 && rows > 0 ==> (rows - 1) * a_row + (inner - 1) * a_step
                    < a@.len(),
                inner > 0 && cols > 0 && rows > 0 ==> (cols - 1) * b_col + (inner - 1) * b_step
                    < b@.len(),
                rows * cols <= usize::MAX,
                want.len() == rows * cols,
                out@.len() == i * cols + j,
                forall|p: int| 0 <= p < out@.len() ==> out@[p] == want[p],
                want == product(
                    a@,
                    b@,
                    rows as nat,
                    cols as nat,
                    inner as nat,
                    a_row as int,
                    a_step as int,
                    b_col as int,
                    b_step as int,
                ),
            decreases cols - j,
        {
            proof {
                lemma_cell(i as int, j as int, cols as int);
                assert(i * cols + j < rows * cols) by (nonlinear_arith)
                    requires
                        0 <= i < rows,
                        0 <= j < cols,
                ;
                if inner > 0 {
                    lemma_step_bound(i as int, a_row as int, rows - 1);
                    lemma_step_bound(j as int, b_col as int, cols - 1);
                    lemma_step_bound(inner - 1, a_step as int, inner - 1);
                    lemma_step_bound(inner - 1, b_step as int, inner - 1);
                }
            }
            let v = if inner == 0 {
                S::zero()
            } else {
                strided_dot(a, i * a_row, a_step, b, j * b_col, b_step, inner)
            };
            assert(v == want[i * cols + j]);
            out.push(v);
            j += 1;
        }
        proof {
            assert(i * cols + cols == (i + 1) * cols) by (nonlinear_arith);
        }
        i += 1;
    }
    assert(out@ =~= want);
    out
}

/// Multiplies each of the `m` repeats of a run of `v` elements inside
/// `big` by `small` and adds the repeats up.
pub fn times_fold<S: Scalar>(small: &Vec<S>, big: &Vec<S>, v: usize, m: usize) -> (r: Vec<S>)
    requires
        small@.len() == v,
        big@.len() == m * v,
    ensures
        r@ == times_folded(small@, big@, v as nat, m as nat),
{
    let mut out: Vec<S> = Vec::new();
    let mut j: usize = 0;
    while j < v
        invariant
            j <= v,
            small@.len() == v,
            big@.len() == m * v,
            out@.len() == j,
            forall|q: int| 0 <= q < j ==> out@[q] == dot(small@, q, 0, big@, q, v as int, m as nat),
        decreases v - j,
    {
        proof {
            if m > 0 {
                assert(j + (m - 1) * v < m * v) by (nonlinear_arith)
                    requires
                        0 <= j < v,
                        m > 0,
                ;
                assert((m - 1) * 0 == 0);
            }
        }
        let value = strided_dot(small, j, 0, big, j, v, m);
        out.push(value);
        j += 1;
    }
    assert(out@ =~= times_folded(small@, big@, v as nat, m as nat));
    out
}

} // verus!
