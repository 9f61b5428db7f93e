//! Arithmetic that works row by row: soft maximum, normalization, and the
//! attention of one head.
use crate::buffer::lemma_matmul_fits;
use crate::flat;
use crate::flat::{matmul, matmul_nt, sum_all, zip_times};
use crate::gradients::lemma_backward_products_fit;
use crate::scalar::Scalar;
use vstd::prelude::*;

verus! {

/// The largest of the first `k` elements; the first element when `k` is
/// at most one.
pub open spec fn max_prefix<S: Scalar>(a: Seq<S>, k: nat) -> S
    decreases k,
{
    if k <= 1 {
        a[0]
    } else {
        max_prefix(a, (k - 1) as nat).spec_max(a[k - 1])
    }
}

/// The largest element.
pub open spec fn max_all<S: Scalar>(a: Seq<S>) -> S {
    max_prefix(a, a.len())
}

/// Each element less `m`, exponentiated.
pub open spec fn shifted_exp<S: Scalar>(a: Seq<S>, m: S) -> Seq<S> {
    Seq::new(a.len(), |i: int| a[i].spec_minus(m).spec_exp())
}

/// Each element over `d`.
pub open spec fn scaled_down<S: Scalar>(a: Seq<S>, d: S) -> Seq<S> {
    Seq::new(a.len(), |i: int| a[i].spec_over(d))
}

/// Each element, or zero where the element is smaller.
pub open spec fn rectified<S: Scalar>(a: Seq<S>) -> Seq<S> {
    Seq::new(a.len(), |i: int| S::spec_zero().spec_max(a[i]))
}

/// The soft maximum of a row: the exponentials of the elements less the
/// largest, over the sum of those exponentials.
pub open spec fn softmax_row<S: Scalar>(a: Seq<S>) -> Seq<S> {
    let e = shifted_exp(a, max_all(a));
    scaled_down(e, sum_all(e))
}

/// The soft maximum of each of the first `rows` rows of `cols` elements.
pub open spec fn softmax_rows<S: Scalar>(x: Seq<S>, cols: nat, rows: nat) -> Seq<S>
    decreases rows,
{
    if rows == 0 {
        Seq::empty()
    } else {
        softmax_rows(x, cols, (rows - 1) as nat) + softmax_row(
            x.subrange((rows - 1) * cols, (rows * cols) as int),
        )
    }
}

/// A row less its mean.
pub open spec fn centered<S: Scalar>(a: Seq<S>) -> Seq<S> {
    let mean = sum_all(a).spec_over(S::spec_from_count(a.len() as usize));
    Seq::new(a.len(), |i: int| a[i].spec_minus(mean))
}

/// The standard deviation of a row, with `eps` added to the variance.
pub open spec fn deviation<S: Scalar>(a: Seq<S>, eps: S) -> S {
    let c = centered(a);
    sum_all(zip_times(c, c)).spec_over(S::spec_from_count(a.len() as usize)).spec_plus(
        eps,
    ).spec_sqrt()
}

/// A row normalized to mean zero and deviation one, then scaled by `gamma`
/// and shifted by `beta`, element by element.
pub open spec fn layer_norm_row<S: Scalar>(a: Seq<S>, gamma: Seq<S>, beta: Seq<S>, eps: S) -> Seq<S> {
    let c = centered(a);
    let sd = deviation(a, eps);
    Seq::new(a.len(), |i: int| c[i].spec_over(sd).spec_times(gamma[i]).spec_plus(beta[i]))
}

/// Each of the first `rows` rows of `cols` elements, normalized.
pub open spec fn layer_norm_rows<S: Scalar>(
    x: Seq<S>,
    gamma: Seq<S>,
    beta: Seq<S>,
    eps: S,
    cols: nat,
    rows: nat,
) -> Seq<S>
    decreases rows,
{
    if rows == 0 {
        Seq::empty()
    } else {
        layer_norm_rows(x, gamma, beta, eps, cols, (rows - 1) as nat) + layer_norm_row(
            x.subrange((rows - 1) * cols, (rows * cols) as int),
            gamma,
            beta,
            eps,
        )
    }
}

/// The sizes of an attention head: the number of queries, the number of
/// keys, the width of a key, and the width of a value.
pub struct HeadSize {
    pub queries: usize,
    pub keys: usize,
    pub key_width: usize,
    pub value_width: usize,
}

/// The attention of one head: the queries times the transposed keys, each
/// product over `scale`; the soft maximum of each row of that; and the
/// result times the values.
pub open spec fn head<S: Scalar>(q: Seq<S>, k: Seq<S>, v: Seq<S>, size: HeadSize, scale: S) -> Seq<S> {
    let scores = matmul_nt(q, k, size.queries as nat, size.key_width as nat, size.keys as nat);
    let weights = softmax_rows(scaled_down(scores, scale), size.keys as nat, size.queries as nat);
    matmul(weights, v, size.queries as nat, size.keys as nat, size.value_width as nat)
}

/// The attention of the first `count` heads, one after the other.
pub open spec fn heads<S: Scalar>(
    q: Seq<S>,
    k: Seq<S>,
    v: Seq<S>,
    size: HeadSize,
    scale: S,
    count: nat,
) -> Seq<S>
    decreases count,
{
    if count == 0 {
        Seq::empty()
    } else {
        let g = count - 1;
        heads(q, k, v, size, scale, g as nat) + head(
            q.subrange(g * (size.queries * size.key_width), count * (size.queries * size.key_width)),
            k.subrange(g * (size.keys * size.key_width), count * (size.keys * size.key_width)),
            v.subrange(g * (size.keys * size.value_width), count * (size.keys * size.value_width)),
            size,
            scale,
        )
    }
}

/// The products of `count` pairs of matrices laid out one after the
/// other: each `m` by `n` matrix of `a` times the `n` by `o` matrix of `b`
/// at the same place.
pub open spec fn matmul_batched<S: Scalar>(
    a: Seq<S>,
    b: Seq<S>,
    m: nat,
    n: nat,
    o: nat,
    count: nat,
) -> Seq<S>
    decreases count,
{
    if count == 0 {
        Seq::empty()
    } else {
        let g = count - 1;
        matmul_batched(a, b, m, n, o, g as nat) + matmul(
            a.subrange(g * (m * n), (count * (m * n)) as int),
            b.subrange(g * (n * o), (count * (n * o)) as int),
            m,
            n,
            o,
        )
    }
}

/// Copies a stretch of a run.
pub fn stretch<S: Scalar>(a: &Vec<S>, from: usize, to: usize) -> (r: Vec<S>)
    requires
        from <= to <= a@.len(),
    ensures
        r@ == a@.subrange(from as int, to as int),
{
    let mut out: Vec<S> = Vec::new();
    let mut i: usize = from;
    while i < to
        invariant
            from <= i <= to <= a@.len(),
            out@ == a@.subrange(from as int, i as int),
        decreases to - i,
    {
        out.push(a[i]);
        assert(out@ =~= a@.subrange(from as int, i + 1));
        i += 1;
    }
    out
}

/// Appends a run to another.
pub fn extend<S: Scalar>(out: &mut Vec<S>, more: &Vec<S>)
    ensures
        final(out)@ == old(out)@ + more@,
{
    let mut i: usize = 0;
    while i < more.len()
        invariant
            i <= more.len(),
            out@ == old(out)@ + more@.take(i as int),
        decreases more.len() - i,
    {
        out.push(more[i]);
        assert(out@ =~= old(out)@ + more@.take(i + 1));
        i += 1;
    }
    assert(more@.take(i as int) =~= more@);
}

/// The largest element of a run that is not empty.
pub fn largest<S: Scalar>(a: &Vec<S>) -> (r: S)
    requires
        a@.len() > 0,
    ensures
        r == max_all(a@),
{
    let mut m = a[0];
    let mut i: usize = 1;
    while i < a.len()
        invariant
            1 <= i <= a.len(),
            m == max_prefix(a@, i as nat),
        decreases a.len() - i,
    {
        m = m.max(a[i]);
        i += 1;
    }
    m
}

/// Divides every element by `d`.
pub fn scale_down<S: Scalar>(a: &Vec<S>, d: S) -> (r: Vec<S>)
    ensures
        r@ == scaled_down(a@, d),
{
    let r = flat::map_each(a, |x: S| -> (y: S)
        ensures
            y == x.spec_over(d),
        { x.over(d) });
    assert(r@ =~= scaled_down(a@, d));
    r
}

/// Replaces every element below zero by zero.
pub fn rectify<S: Scalar>(a: &Vec<S>) -> (r: Vec<S>)
    ensures
        r@ == rectified(a@),
{
    let r = flat::map_each(a, |x: S| -> (y: S)
        ensures
            y == S::spec_zero().spec_max(x),
        { S::zero().max(x) });
    assert(r@ =~= rectified(a@));
    r
}

/// The soft maximum of one row.
pub fn soften_row<S: Scalar>(a: &Vec<S>) -> (r: Vec<S>)
    ensures
        r@ == softmax_row(a@),
{
    if a.len() == 0 {
        let r: Vec<S> = Vec::new();
        assert(r@ =~= softmax_row(a@));
        return r;
    }
    let m = largest(a);
    let e = flat::map_each(a, |x: S| -> (y: S)
        ensures
            y == x.spec_minus(m).spec_exp(),
        { x.minus(m).exp() });
    assert(e@ =~= shifted_exp(a@, m));
    scale_down(&e, flat::sum(&e))
}

/// The soft maximum of each row of `cols` elements.
pub fn soften_rows<S: Scalar>(x: &Vec<S>, cols: usize, rows: usize) -> (r: Vec<S>)
    requires
        x@.len() == rows * cols,
    ensures
        r@ == softmax_rows(x@, cols as nat, rows as nat),
{
    let len = x.len();
    let mut out: Vec<S> = Vec::new();
    let mut i: usize = 0;
    let mut at: usize = 0;
    while i < rows
        invariant
            i <= rows,
            len == x@.len(),
            x@.len() == rows * cols,
            at == i * cols,
            out@ == softmax_rows(x@, cols as nat, i as nat),
        decreases rows - i,
    {
        let ghost before = i as int;
        proof {
            assert((before + 1) * cols == before * cols + cols) by (nonlinear_arith);
            assert((before + 1) * cols <= rows * cols) by (nonlinear_arith)
                requires
                    before + 1 <= rows,
            ;
        }
        let row = stretch(x, at, at + cols);
        let soft = soften_row(&row);
        extend(&mut out, &soft);
        at += cols;
        i += 1;
        assert(i * cols == before * cols + cols) by (nonlinear_arith)
            requires
                i == before + 1,
        ;
    }
    out
}

/// Normalizes one row, then scales and shifts it.
pub fn normalize_row<S: Scalar>(a: &Vec<S>, gamma: &Vec<S>, beta: &Vec<S>, eps: S) -> (r: Vec<S>)
    requires
        gamma@.len() == a@.len(),
        beta@.len() == a@.len(),
    ensures
        r@ == layer_norm_row(a@, gamma@, beta@, eps),
{
    let n = S::from_count(a.len());
    let mean = flat::sum(a).over(n);
    let c = flat::map_each(a, |x: S| -> (y: S)
        ensures
            y == x.spec_minus(mean),
        { x.minus(mean) });
    assert(c@ =~= centered(a@));
    let squares = flat::times(&c, &c);
    let sd = flat::sum(&squares).over(n).plus(eps).sqrt();
    let mut out: Vec<S> = Vec::new();
    let mut i: usize = 0;
    while i < a.len()
        invariant
            i <= a.len(),
            c@.len() == a@.len(),
            gamma@.len() == a@.len(),
            beta@.len() == a@.len(),
            out@.len() == i,
            forall|j: int|
                0 <= j < i ==> out@[j] == c@[j].spec_over(sd).spec_times(gamma@[j]).spec_plus(
                    beta@[j],
                ),
        decreases a.len() - i,
    {
        out.push(c[i].over(sd).times(gamma[i]).plus(beta[i]));
        i += 1;
    }
    assert(out@ =~= layer_norm_row(a@, gamma@, beta@, eps));
    out
}

/// Normalizes each row of `cols` elements.
pub fn normalize_rows<S: Scalar>(
    x: &Vec<S>,
    gamma: &Vec<S>,
    beta: &Vec<S>,
    eps: S,
    cols: usize,
    rows: usize,
) -> (r: Vec<S>)
    requires
        x@.len() == rows * cols,
        gamma@.len() == cols,
        beta@.len() == cols,
    ensures
        r@ == layer_norm_rows(x@, gamma@, beta@, eps, cols as nat, rows as nat),
{
    let len = x.len();
    let mut out: Vec<S> = Vec::new();
    let mut i: usize = 0;
    let mut at: usize = 0;
    while i < rows
        invariant
            i <= rows,
            len == x@.len(),
            x@.len() == rows * cols,
            gamma@.len() == cols,
            beta@.len() == cols,
            at == i * cols,
            out@ == layer_norm_rows(x@, gamma@, beta@, eps, cols as nat, i as nat),
        decreases rows - i,
    {
        let ghost before = i as int;
        proof {
            assert((before + 1) * cols == before * cols + cols) by (nonlinear_arith);
            assert((before + 1) * cols <= rows * cols) by (nonlinear_arith)
                requires
                    before + 1 <= rows,
            ;
        }
        let row = stretch(x, at, at + cols);
        let normal = normalize_row(&row, gamma, beta, eps);
        extend(&mut out, &normal);
        at += cols;
        i += 1;
        assert(i * cols == before * cols + cols) by (nonlinear_arith)
            requires
                i == before + 1,
        ;
    }
    out
}

/// The soft maximum of rows has as many elements as the rows.
pub proof fn lemma_softmax_rows_len<S: Scalar>(x: Seq<S>, cols: nat, rows: nat)
    requires
        rows * cols <= x.len(),
    ensures
        softmax_rows(x, cols, rows).len() == rows * cols,
    decreases rows,
{
    if rows > 0 {
        let low = (rows - 1) * cols;
        let high = (rows * cols) as int;
        assert(low + cols == high && 0 <= low) by (nonlinear_arith)
            requires
                rows > 0,
                low == (rows - 1) * cols,
                high == rows * cols,
        ;
        assert(x.subrange(low, high).len() == cols);
        let fewer = (rows - 1) as nat;
        assert(fewer * cols == low) by (nonlinear_arith)
            requires
                fewer == rows - 1,
                low == (rows - 1) * cols,
        ;
        lemma_softmax_rows_len(x, cols, fewer);
        assert(softmax_row(x.subrange(low, high)).len() == cols);
        assert(softmax_rows(x, cols, rows).len() == low + cols);
    } else {
        assert(rows * cols == 0) by (nonlinear_arith)
            requires
                rows == 0,
        ;
    }
}

/// Normalized rows have as many elements as the rows.
pub proof fn lemma_layer_norm_rows_len<S: Scalar>(
    x: Seq<S>,
    gamma: Seq<S>,
    beta: Seq<S>,
    eps: S,
    cols: nat,
    rows: nat,
)
    requires
        rows * cols <= x.len(),
    ensures
        layer_norm_rows(x, gamma, beta, eps, cols, rows).len() == rows * cols,
    decreases rows,
{
    if rows > 0 {
        let low = (rows - 1) * cols;
        let high = (rows * cols) as int;
        assert(low + cols == high && 0 <= low) by (nonlinear_arith)
            requires
                rows > 0,
                low == (rows - 1) * cols,
                high == rows * cols,
        ;
        assert(x.subrange(low, high).len() == cols);
        let fewer = (rows - 1) as nat;
        assert(fewer * cols == low) by (nonlinear_arith)
            requires
                fewer == rows - 1,
                low == (rows - 1) * cols,
        ;
        lemma_layer_norm_rows_len(x, gamma, beta, eps, cols, fewer);
        assert(layer_norm_row(x.subrange(low, high), gamma, beta, eps).len() == cols);
        assert(layer_norm_rows(x, gamma, beta, eps, cols, rows).len() == low + cols);
    } else {
        assert(rows * cols == 0) by (nonlinear_arith)
            requires
                rows == 0,
        ;
    }
}

/// Whether operands of the given lengths hold `count` heads of the given
/// size, and the results can be counted by a machine word.
pub open spec fn heads_fit(size: HeadSize, count: nat, q: nat, k: nat, v: nat) -> bool {
    &&& q == count * (size.queries * size.key_width)
    &&& k == count * (size.keys * size.key_width)
    &&& v == count * (size.keys * size.value_width)
    &&& size.queries * size.keys <= usize::MAX
    &&& size.queries * size.value_width <= usize::MAX
}

/// Computes the attention of one head.
pub fn attend_head<S: Scalar>(q: &Vec<S>, k: &Vec<S>, v: &Vec<S>, size: &HeadSize, scale: S) -> (r:
    Vec<S>)
    requires
        heads_fit(*size, 1, q@.len(), k@.len(), v@.len()),
    ensures
        r@ == head(q@, k@, v@, *size, scale),
        r@.len() == size.queries * size.value_width,
{
    proof {
        lemma_backward_products_fit(size.queries as int, size.keys as int, size.key_width as int);
        lemma_matmul_fits(size.queries as int, size.keys as int, size.value_width as int);
    }
    let scores = flat::multiply(
        q,
        k,
        size.queries,
        size.keys,
        size.key_width,
        size.key_width,
        1,
        size.key_width,
        1,
    );
    let scaled = scale_down(&scores, scale);
    let weights = soften_rows(&scaled, size.keys, size.queries);
    proof {
        lemma_softmax_rows_len(scaled@, size.keys as nat, size.queries as nat);
    }
    flat::multiply(&weights, v, size.queries, size.value_width, size.keys, size.keys, 1, 1, size.value_width)
}

/// Computes the attention of `count` heads, one after the other.
pub fn attend_heads<S: Scalar>(
    q: &Vec<S>,
    k: &Vec<S>,
    v: &Vec<S>,
    size: &HeadSize,
    scale: S,
    count: usize,
) -> (r: Vec<S>)
    requires
        heads_fit(*size, count as nat, q@.len(), k@.len(), v@.len()),
    ensures
        r@ == heads(q@, k@, v@, *size, scale, count as nat),
        r@.len() == count * (size.queries * size.value_width),
{
    // the length of a run that exists fits a machine word
    let q_len = q.len();
    let k_len = k.len();
    let v_len = v.len();
    if count == 0 {
        return Vec::new();
    }
    let ghost qw = size.queries * size.key_width;
    let ghost kw = size.keys * size.key_width;
    let ghost vw = size.keys * size.value_width;
    let ghost ow = size.queries * size.value_width;
    proof {
        assert(qw <= count * qw) by (nonlinear_arith)
            requires
                count >= 1,
                qw >= 0,
        ;
        assert(kw <= count * kw) by (nonlinear_arith)
            requires
                count >= 1,
                kw >= 0,
        ;
        assert(vw <= count * vw) by (nonlinear_arith)
            requires
                count >= 1,
                vw >= 0,
        ;
    }
    let q_step = size.queries * size.key_width;
    let k_step = size.keys * size.key_width;
    let v_step = size.keys * size.value_width;
    let mut out: Vec<S> = Vec::new();
    let mut g: usize = 0;
    let mut q_at: usize = 0;
    let mut k_at: usize = 0;
    let mut v_at: usize = 0;
    while g < count
        invariant
            g <= count,
            heads_fit(*size, count as nat, q@.len(), k@.len(), v@.len()),
            q_len == q@.len(),
            k_len == k@.len(),
            v_len == v@.len(),
            qw == size.queries * size.key_width,
            kw == size.keys * size.key_width,
            vw == size.keys * size.value_width,
            ow == size.queries * size.value_width,
            q_step == qw,
            k_step == kw,
            v_step == vw,
            q_at == g * qw,
            k_at == g * kw,
            v_at == g * vw,
            out@ == heads(q@, k@, v@, *size, scale, g as nat),
            out@.len() == g * ow,
        decreases count - g,
    {
        let ghost before = g as int;
        proof {
            assert((before + 1) * qw == before * qw + qw && (before + 1) * qw <= count * qw)
                by (nonlinear_arith)
                requires
                    before + 1 <= count,
                    qw >= 0,
            ;
            assert((before + 1) * kw == before * kw + kw && (before + 1) * kw <= count * kw)
                by (nonlinear_arith)
                requires
                    before + 1 <= count,
                    kw >= 0,
            ;
            assert((before + 1) * vw == before * vw + vw && (before + 1) * vw <= count * vw)
                by (nonlinear_arith)
                requires
                    before + 1 <= count,
                    vw >= 0,
            ;
            assert((before + 1) * ow == before * ow + ow) by (nonlinear_arith);
            assert(1 * qw == qw && 1 * kw == kw && 1 * vw == vw) by (nonlinear_arith);
        }
        let q_head = stretch(q, q_at, q_at + q_step);
        let k_head = stretch(k, k_at, k_at + k_step);
        let v_head = stretch(v, v_at, v_at + v_step);
        let one = attend_head(&q_head, &k_head, &v_head, size, scale);
        extend(&mut out, &one);
        q_at += q_step;
        k_at += k_step;
        v_at += v_step;
        g += 1;
        proof {
            assert(g * qw == before * qw + qw && g * kw == before * kw + kw && g * vw == before * vw
                + vw && g * ow == before * ow + ow) by (nonlinear_arith)
                requires
                    g == before + 1,
            ;
        }
    }
    out
}

/// Multiplies `count` pairs of matrices laid out one after the other.
pub fn multiply_batched<S: Scalar>(
    a: &Vec<S>,
    b: &Vec<S>,
    m: usize,
    n: usize,
    o: usize,
    count: usize,
) -> (r: Vec<S>)
    requires
        a@.len() == count * (m * n),
        b@.len() == count * (n * o),
        m * o <= usize::MAX,
    ensures
        r@ == matmul_batched(a@, b@, m as nat, n as nat, o as nat, count as nat),
        r@.len() == count * (m * o),
{
    // the length of a run that exists fits a machine word
    let a_len = a.len();
    let b_len = b.len();
    if count == 0 {
        return Vec::new();
    }
    let ghost aw = m * n;
    let ghost bw = n * o;
    let ghost ow = m * o;
    proof {
        assert(aw <= count * aw && bw <= count * bw) by (nonlinear_arith)
            requires
                count >= 1,
                aw >= 0,
                bw >= 0,
        ;
        lemma_matmul_fits(m as int, n as int, o as int);
    }
    let a_step = m * n;
    let b_step = n * o;
    let mut out: Vec<S> = Vec::new();
    let mut g: usize = 0;
    let mut a_at: usize = 0;
    let mut b_at: usize = 0;
    while g < count
        invariant
            g <= count,
            a_len == a@.len(),
            b_len == b@.len(),
            a@.len() == count * aw,
            b@.len() == count * bw,
            aw == m * n,
            bw == n * o,
            ow == m * o,
            ow <= usize::MAX,
            a_step == aw,
            b_step == bw,
            a_at == g * aw,
            b_at == g * bw,
            flat::walk_fits(
                m as int,
                o as int,
                n as int,
                n as int,
                1,
                1,
                o as int,
                m * n,
                n * o,
            ),
            out@ == matmul_batched(a@, b@, m as nat, n as nat, o as nat, g as nat),
            out@.len() == g * ow,
        decreases count - g,
    {
        let ghost before = g as int;
        proof {
            assert((before + 1) * aw == before * aw + aw && (before + 1) * aw <= count * aw)
                by (nonlinear_arith)
                requires
                    before + 1 <= count,
                    aw >= 0,
            ;
            assert((before + 1) * bw == before * bw + bw && (before + 1) * bw <= count * bw)
                by (nonlinear_arith)
                requires
                    before + 1 <= count,
                    bw >= 0,
            ;
            assert((before + 1) * ow == before * ow + ow) by (nonlinear_arith);
        }
        let left = stretch(a, a_at, a_at + a_step);
        let right = stretch(b, b_at, b_at + b_step);
        let one = flat::multiply(&left, &right, m, o, n, n, 1, 1, o);
        extend(&mut out, &one);
        a_at += a_step;
        b_at += b_step;
        g += 1;
        proof {
            assert(g * aw == before * aw + aw && g * bw == before * bw + bw && g * ow == before * ow
                + ow) by (nonlinear_arith)
                requires
                    g == before + 1,
            ;
        }
    }
    out
}

} // verus!
