//! Layers built from the tensor arithmetic: a linear map, layer
//! normalization, multi-head attention, and the transformer block and
//! encoder made of them.  The layers evaluate forward on tensors without a
//! tape.
use crate::buffer::{lemma_volume_1, lemma_volume_2, lemma_volume_3, volume, Buffer};
use crate::flat;
use crate::flat::{constant, matmul_nt, plus_cyclic, zip_minus, zip_plus};
use crate::gradients::{lemma_backward_products_fit, lemma_find_key, Gradients};
use crate::rows;
use crate::rows::{heads, layer_norm_rows, rectified, HeadSize};
use crate::scalar::Scalar;
use crate::tensor::{NoTape, Tensor};
use crate::unique_id::UniqueIds;
use vstd::prelude::*;

verus! {

/// A linear map with a bias: `rows` inputs of `ins` scalars each become
/// `rows` outputs of `outs` scalars each.
///
/// The weight has the shape `outs` by `ins`, the bias the shape `outs`.
pub struct Linear<S> {
    pub weight: Tensor<S, NoTape>,
    pub bias: Tensor<S, NoTape>,
}

impl<S: Scalar> Linear<S> {
    /// The width of an input.
    pub open spec fn ins(&self) -> nat {
        self.weight.dims()[1] as nat
    }

    /// The width of an output.
    pub open spec fn outs(&self) -> nat {
        self.weight.dims()[0] as nat
    }

    /// The weight is a matrix and the bias a vector as long as the matrix
    /// has rows.
    pub open spec fn wf(&self) -> bool {
        &&& self.weight.data.wf()
        &&& self.bias.data.wf()
        &&& self.weight.dims().len() == 2
        &&& self.bias.dims().len() == 1
        &&& self.bias.dims()[0] == self.weight.dims()[0]
    }

    /// What the layer makes of `rows` inputs: each input times the
    /// transposed weight, plus the bias.
    pub open spec fn apply(&self, x: Seq<S>, rows: nat) -> Seq<S> {
        plus_cyclic(matmul_nt(x, self.weight@, rows, self.ins(), self.outs()), self.bias@)
    }

    /// Builds the layer from a weight and a bias, or refuses them when
    /// their shapes do not fit each other.
    pub fn new(weight: Tensor<S, NoTape>, bias: Tensor<S, NoTape>) -> (r: Option<Self>)
        requires
            weight.data.wf(),
            bias.data.wf(),
        ensures
            r is Some <==> weight.dims().len() == 2 && bias.dims().len() == 1 && bias.dims()[0]
                == weight.dims()[0],
            r matches Some(layer) ==> layer.wf() && layer.weight == weight && layer.bias == bias,
    {
        if weight.data.shape.len() == 2 && bias.data.shape.len() == 1 && bias.data.shape[0]
            == weight.data.shape[0] {
            Some(Linear { weight, bias })
        } else {
            None
        }
    }

    /// Applies the layer to `rows` inputs laid out one after the other.
    pub fn forward_rows(&self, x: &Vec<S>, rows: usize) -> (r: Vec<S>)
        requires
            self.wf(),
            x@.len() == rows * self.ins(),
            rows * self.outs() <= usize::MAX,
        ensures
            r@ == self.apply(x@, rows as nat),
            r@.len() == rows * self.outs(),
    {
        let outs = self.weight.data.shape[0];
        let ins = self.weight.data.shape[1];
        proof {
            lemma_volume_2(self.weight.dims());
            lemma_volume_1(self.bias.dims());
            lemma_backward_products_fit(rows as int, outs as int, ins as int);
            if rows * outs > 0 && outs == 0 {
                assert(rows * outs == 0) by (nonlinear_arith)
                    requires
                        outs == 0,
                ;
            }
        }
        let product = flat::multiply(x, &self.weight.data.data, rows, outs, ins, ins, 1, ins, 1);
        flat::plus_repeated(&product, &self.bias.data.data)
    }
}

/// Layer normalization over the last axis, with a scale and a shift for
/// each place of that axis.
pub struct LayerNorm1D<S> {
    pub gamma: Tensor<S, NoTape>,
    pub beta: Tensor<S, NoTape>,
    pub epsilon: S,
}

impl<S: Scalar> LayerNorm1D<S> {
    /// The width of a row.
    pub open spec fn width(&self) -> nat {
        self.gamma.dims()[0] as nat
    }

    /// Scale and shift are vectors of one length.
    pub open spec fn wf(&self) -> bool {
        &&& self.gamma.data.wf()
        &&& self.beta.data.wf()
        &&& self.gamma.dims().len() == 1
        &&& self.beta.dims() == self.gamma.dims()
    }

    /// What the layer makes of `rows` rows.
    pub open spec fn apply(&self, x: Seq<S>, rows: nat) -> Seq<S> {
        layer_norm_rows(x, self.gamma@, self.beta@, self.epsilon, self.width(), rows)
    }

    /// Builds the layer from a scale, a shift and the number added to the
    /// variance, or refuses them when scale and shift differ in shape.
    pub fn new(gamma: Tensor<S, NoTape>, beta: Tensor<S, NoTape>, epsilon: S) -> (r: Option<Self>)
        requires
            gamma.data.wf(),
            beta.data.wf(),
        ensures
            r is Some <==> gamma.dims().len() == 1 && beta.dims() == gamma.dims(),
            r matches Some(layer) ==> layer.wf() && layer.gamma == gamma && layer.beta == beta
                && layer.epsilon == epsilon,
    {
        if gamma.data.shape.len() == 1 && crate::buffer::same_shape(
            &beta.data.shape,
            &gamma.data.shape,
        ) {
            Some(LayerNorm1D { gamma, beta, epsilon })
        } else {
            None
        }
    }

    /// Normalizes `rows` rows laid out one after the other.
    pub fn forward_rows(&self, x: &Vec<S>, rows: usize) -> (r: Vec<S>)
        requires
            self.wf(),
            x@.len() == rows * self.width(),
        ensures
            r@ == self.apply(x@, rows as nat),
            r@.len() == rows * self.width(),
    {
        let width = self.gamma.data.shape[0];
        proof {
            lemma_volume_1(self.gamma.dims());
            lemma_volume_1(self.beta.dims());
            rows::lemma_layer_norm_rows_len(
                x@,
                self.gamma@,
                self.beta@,
                self.epsilon,
                width as nat,
                rows as nat,
            );
        }
        rows::normalize_rows(
            x,
            &self.gamma.data.data,
            &self.beta.data.data,
            self.epsilon,
            width,
            rows,
        )
    }
}

/// Multi-head attention: queries, keys and values are linear maps of the
/// inputs, each head attends over its share of them, and a last linear map
/// mixes the heads' results.
pub struct MultiHeadAttention<S> {
    pub w_q: Linear<S>,
    pub w_k: Linear<S>,
    pub w_v: Linear<S>,
    pub w_o: Linear<S>,
    pub heads: usize,
}

/// The sizes of one attention call: the number of sequences, the length
/// of the sequences that keys and values come from, and the length of the
/// sequences that queries come from.
pub struct Lengths {
    pub batch: usize,
    pub keys: usize,
    pub queries: usize,
}

impl<S: Scalar> MultiHeadAttention<S> {
    /// The width of the keys, over all heads.
    pub open spec fn key_width(&self) -> nat {
        self.w_q.outs()
    }

    /// The width of the values, over all heads.
    pub open spec fn value_width(&self) -> nat {
        self.w_v.outs()
    }

    /// The width of the tokens that keys and values come from.
    pub open spec fn width(&self) -> nat {
        self.w_k.ins()
    }

    /// The four maps fit each other, and the heads divide the widths of
    /// keys and values.
    pub open spec fn wf(&self) -> bool {
        &&& self.w_q.wf()
        &&& self.w_k.wf()
        &&& self.w_v.wf()
        &&& self.w_o.wf()
        &&& self.heads > 0
        &&& self.w_k.outs() == self.w_q.outs()
        &&& self.w_v.ins() == self.w_k.ins()
        &&& self.w_o.ins() == self.w_v.outs()
        &&& self.key_width() % (self.heads as nat) == 0
        &&& self.value_width() % (self.heads as nat) == 0
    }

    /// The size of one head.
    pub open spec fn head_size(&self, n: Lengths) -> HeadSize {
        HeadSize {
            queries: n.queries,
            keys: n.keys,
            key_width: (self.key_width() / (self.heads as nat)) as usize,
            value_width: (self.value_width() / (self.heads as nat)) as usize,
        }
    }

    /// Whether every intermediate result of a call can be counted by a
    /// machine word.
    pub open spec fn fits(&self, n: Lengths) -> bool {
        &&& n.batch * n.queries <= usize::MAX
        &&& n.batch * n.keys <= usize::MAX
        &&& n.batch * self.heads <= usize::MAX
        &&& (n.batch * n.queries) * self.key_width() <= usize::MAX
        &&& (n.batch * n.keys) * self.key_width() <= usize::MAX
        &&& (n.batch * n.keys) * self.value_width() <= usize::MAX
        &&& (n.batch * n.queries) * self.value_width() <= usize::MAX
        &&& (n.batch * n.queries) * self.w_o.outs() <= usize::MAX
        &&& n.queries * n.keys <= usize::MAX
        &&& n.queries * self.value_width() <= usize::MAX
    }

    /// What attention makes of its inputs: the heads attend over the
    /// mapped queries, keys and values, with every score over the width of
    /// the tokens, and the last map is applied to what they return.
    pub open spec fn attention(&self, from_enc: Seq<S>, input: Seq<S>, n: Lengths) -> Seq<S> {
        let q = self.w_q.apply(input, (n.batch * n.queries) as nat);
        let k = self.w_k.apply(from_enc, (n.batch * n.keys) as nat);
        let v = self.w_v.apply(from_enc, (n.batch * n.keys) as nat);
        let tokens = heads(
            q,
            k,
            v,
            self.head_size(n),
            S::spec_from_count(self.width() as usize),
            (n.batch * self.heads) as nat,
        );
        self.w_o.apply(tokens, (n.batch * n.queries) as nat)
    }

    /// Computes attention over flat inputs: `from_enc` holds the tokens
    /// that keys and values come from, `input` those that queries come
    /// from.
    pub fn attend(&self, from_enc: &Vec<S>, input: &Vec<S>, n: &Lengths) -> (r: Vec<S>)
        requires
            self.wf(),
            self.fits(*n),
            from_enc@.len() == (n.batch * n.keys) * self.width(),
            input@.len() == (n.batch * n.queries) * self.w_q.ins(),
        ensures
            r@ == self.attention(from_enc@, input@, *n),
            r@.len() == (n.batch * n.queries) * self.w_o.outs(),
    {
        let key_width = self.w_q.weight.data.shape[0];
        let value_width = self.w_v.weight.data.shape[0];
        let width = self.w_k.weight.data.shape[1];
        let query_rows = n.batch * n.queries;
        let key_rows = n.batch * n.keys;
        let count = n.batch * self.heads;
        let q = self.w_q.forward_rows(input, query_rows);
        let k = self.w_k.forward_rows(from_enc, key_rows);
        let v = self.w_v.forward_rows(from_enc, key_rows);
        let size = HeadSize {
            queries: n.queries,
            keys: n.keys,
            key_width: key_width / self.heads,
            value_width: value_width / self.heads,
        };
        proof {
            lemma_heads_fit(
                n.batch as int,
                self.heads as int,
                n.queries as int,
                n.keys as int,
                key_width as int,
                value_width as int,
            );
            let kh = size.key_width as int;
            let vh = size.value_width as int;
            assert(kh == key_width as int / self.heads as int);
            assert(vh == value_width as int / self.heads as int);
            assert(q@.len() == query_rows * key_width);
            assert(k@.len() == key_rows * key_width);
            assert(v@.len() == key_rows * value_width);
            assert(q@.len() == count * (size.queries * size.key_width));
            assert(k@.len() == count * (size.keys * size.key_width));
            assert(v@.len() == count * (size.keys * size.value_width));
            assert(size.queries * size.value_width <= usize::MAX);
            assert(count * (size.queries * size.value_width) == query_rows * value_width);
        }
        let tokens = rows::attend_heads(&q, &k, &v, &size, S::from_count(width), count);
        self.w_o.forward_rows(&tokens, query_rows)
    }
}

/// The number of sequences in a shape of two or three axes: the extent of
/// the first of three axes, and one where there are two.
pub open spec fn batch_of(shape: Seq<usize>) -> usize {
    if shape.len() == 3 {
        shape[0]
    } else {
        1
    }
}

/// The lengths of a self-attention call on a tensor of the given shape.
pub open spec fn lengths_of(shape: Seq<usize>) -> Lengths {
    Lengths {
        batch: batch_of(shape),
        keys: shape[shape.len() - 2],
        queries: shape[shape.len() - 2],
    }
}

/// Reads the number of sequences, their length and the width of their
/// tokens off a shape of two or three axes.
pub fn split_shape(shape: &Vec<usize>) -> (r: (usize, usize, usize))
    requires
        shape@.len() == 2 || shape@.len() == 3,
    ensures
        r.0 == batch_of(shape@),
        r.1 == shape@[shape@.len() - 2],
        r.2 == shape@[shape@.len() - 1],
        volume(shape@) == (r.0 * r.1) * r.2,
{
    if shape.len() == 3 {
        proof {
            lemma_volume_3(shape@);
        }
        (shape[0], shape[1], shape[2])
    } else {
        proof {
            lemma_volume_2(shape@);
            assert(1 * shape@[0] == shape@[0]) by (nonlinear_arith);
        }
        (1, shape[0], shape[1])
    }
}

/// A rectifier: it replaces what is below zero by zero.
#[derive(Clone, Copy, Debug, Default)]
pub struct ReLU;

/// A transformer block: self-attention and a feed-forward network, each
/// added to its input and normalized.
pub struct TransformerBlock<S> {
    pub attn: MultiHeadAttention<S>,
    pub norm1: LayerNorm1D<S>,
    pub norm2: LayerNorm1D<S>,
    pub ff: (Linear<S>, ReLU, Linear<S>),
}

impl<S: Scalar> MultiHeadAttention<S> {
    /// Whether the layer can attend from a sequence to itself: queries,
    /// keys and values come from tokens of one width, which is also the
    /// width of the result.
    pub open spec fn wf_self(&self) -> bool {
        &&& self.wf()
        &&& self.w_q.ins() == self.width()
        &&& self.w_o.outs() == self.width()
    }

    /// Self-attention over a tensor of shape `(length, width)` or `(batch,
    /// length, width)`: queries, keys and values all come from the input.
    pub fn forward(&self, ids: &mut UniqueIds, input: Tensor<S, NoTape>) -> (r: Tensor<S, NoTape>)
        requires
            old(ids).has_more(),
            self.wf_self(),
            input.data.wf(),
            input.dims().len() == 2 || input.dims().len() == 3,
            input.dims()[input.dims().len() - 1] == self.width(),
            self.fits(lengths_of(input.dims())),
        ensures
            r.data.wf(),
            r.id == old(ids).next,
            final(ids).next == old(ids).next + 1,
            r.dims() == input.dims(),
            r@ == self.attention(input@, input@, lengths_of(input.dims())),
    {
        let (batch, length, width) = split_shape(&input.data.shape);
        let n = Lengths { batch, keys: length, queries: length };
        let data = self.attend(&input.data.data, &input.data.data, &n);
        Tensor::new(ids, Buffer { shape: input.data.shape, data })
    }
}

/// A shape of two or three axes with another extent for the last axis.
pub fn replace_last(shape: &Vec<usize>, width: usize) -> (r: Vec<usize>)
    requires
        shape@.len() == 2 || shape@.len() == 3,
    ensures
        r@ == shape@.update(shape@.len() - 1, width),
        volume(r@) == (batch_of(shape@) * shape@[shape@.len() - 2]) * width,
{
    let mut out: Vec<usize> = Vec::new();
    if shape.len() == 3 {
        out.push(shape[0]);
        out.push(shape[1]);
        out.push(width);
        proof {
            assert(out@ =~= shape@.update(2, width));
            lemma_volume_3(out@);
        }
    } else {
        out.push(shape[0]);
        out.push(width);
        proof {
            assert(out@ =~= shape@.update(1, width));
            lemma_volume_2(out@);
            assert(1 * shape@[0] == shape@[0]) by (nonlinear_arith);
        }
    }
    out
}

impl<S: Scalar> MultiHeadAttention<S> {
    /// Attention from one sequence to another: keys and values come from
    /// `from_enc`, of shape `(keys, width)` or `(batch, keys, width)`, and
    /// queries from `input`, of shape `(queries, n)` or `(batch, queries,
    /// n)`.  The result has the shape of `input` with the width of the
    /// last map's outputs.
    pub fn forward_with(
        &self,
        ids: &mut UniqueIds,
        from_enc: Tensor<S, NoTape>,
        input: Tensor<S, NoTape>,
    ) -> (r: Tensor<S, NoTape>)
        requires
            old(ids).has_more(),
            self.wf(),
            from_enc.data.wf(),
            input.data.wf(),
            input.dims().len() == 2 || input.dims().len() == 3,
            from_enc.dims().len() == input.dims().len(),
            batch_of(from_enc.dims()) == batch_of(input.dims()),
            from_enc.dims()[from_enc.dims().len() - 1] == self.width(),
            input.dims()[input.dims().len() - 1] == self.w_q.ins(),
            self.fits(
                Lengths {
                    batch: batch_of(input.dims()),
                    keys: from_enc.dims()[from_enc.dims().len() - 2],
                    queries: input.dims()[input.dims().len() - 2],
                },
            ),
        ensures
            r.data.wf(),
            r.id == old(ids).next,
            final(ids).next == old(ids).next + 1,
            r.dims() == input.dims().update(
                input.dims().len() - 1,
                self.w_o.weight.dims()[0],
            ),
            r@ == self.attention(
                from_enc@,
                input@,
                Lengths {
                    batch: batch_of(input.dims()),
                    keys: from_enc.dims()[from_enc.dims().len() - 2],
                    queries: input.dims()[input.dims().len() - 2],
                },
            ),
    {
        let (batch, keys, width) = split_shape(&from_enc.data.shape);
        let (same_batch, queries, n_width) = split_shape(&input.data.shape);
        let n = Lengths { batch, keys, queries };
        let data = self.attend(&from_enc.data.data, &input.data.data, &n);
        let shape = replace_last(&input.data.shape, self.w_o.weight.data.shape[0]);
        Tensor::new(ids, Buffer { shape, data })
    }
}

impl<S: Scalar> TransformerBlock<S> {
    /// The width of the tokens.
    pub open spec fn width(&self) -> nat {
        self.attn.width()
    }

    /// All layers work on tokens of one width.
    pub open spec fn wf(&self) -> bool {
        &&& self.attn.wf_self()
        &&& self.norm1.wf()
        &&& self.norm2.wf()
        &&& self.ff.0.wf()
        &&& self.ff.2.wf()
        &&& self.norm1.width() == self.width()
        &&& self.norm2.width() == self.width()
        &&& self.ff.0.ins() == self.width()
        &&& self.ff.2.ins() == self.ff.0.outs()
        &&& self.ff.2.outs() == self.width()
    }

    /// Whether every intermediate result of a call can be counted by a
    /// machine word.
    pub open spec fn fits(&self, n: Lengths) -> bool {
        &&& self.attn.fits(n)
        &&& (n.batch * n.queries) * self.ff.0.outs() <= usize::MAX
    }

    /// What the block makes of its input: the input plus its
    /// self-attention, normalized; then that plus the feed-forward network
    /// of it, normalized.
    pub open spec fn apply(&self, x: Seq<S>, n: Lengths) -> Seq<S> {
        let rows = (n.batch * n.queries) as nat;
        let y = self.norm1.apply(zip_plus(x, self.attn.attention(x, x, n)), rows);
        let f = self.ff.2.apply(rectified(self.ff.0.apply(y, rows)), rows);
        self.norm2.apply(zip_plus(y, f), rows)
    }

    /// Applies the block to flat input.
    pub fn forward_rows(&self, x: &Vec<S>, n: &Lengths) -> (r: Vec<S>)
        requires
            self.wf(),
            self.fits(*n),
            n.keys == n.queries,
            x@.len() == (n.batch * n.queries) * self.width(),
        ensures
            r@ == self.apply(x@, *n),
            r@.len() == x@.len(),
    {
        let rows = n.batch * n.queries;
        let attended = self.attn.attend(x, x, n);
        let y = self.norm1.forward_rows(&flat::plus(x, &attended), rows);
        let hidden = rows::rectify(&self.ff.0.forward_rows(&y, rows));
        let f = self.ff.2.forward_rows(&hidden, rows);
        self.norm2.forward_rows(&flat::plus(&y, &f), rows)
    }

    /// Applies the block to a tensor of shape `(length, width)` or
    /// `(batch, length, width)`.
    pub fn forward(&self, ids: &mut UniqueIds, input: Tensor<S, NoTape>) -> (r: Tensor<S, NoTape>)
        requires
            old(ids).has_more(),
            self.wf(),
            input.data.wf(),
            input.dims().len() == 2 || input.dims().len() == 3,
            input.dims()[input.dims().len() - 1] == self.width(),
            self.fits(lengths_of(input.dims())),
        ensures
            r.data.wf(),
            r.id == old(ids).next,
            final(ids).next == old(ids).next + 1,
            r.dims() == input.dims(),
            r@ == self.apply(input@, lengths_of(input.dims())),
    {
        let (batch, length, width) = split_shape(&input.data.shape);
        let n = Lengths { batch, keys: length, queries: length };
        let data = self.forward_rows(&input.data.data, &n);
        Tensor::new(ids, Buffer { shape: input.data.shape, data })
    }
}

/// A transformer encoder: blocks applied one after the other.
pub struct TransformerEncoder<S> {
    pub blocks: Vec<TransformerBlock<S>>,
}

/// What the first `count` blocks make of an input.
pub open spec fn encoded<S: Scalar>(
    blocks: Seq<TransformerBlock<S>>,
    x: Seq<S>,
    n: Lengths,
    count: nat,
) -> Seq<S>
    decreases count,
{
    if count == 0 {
        x
    } else {
        blocks[count - 1].apply(encoded(blocks, x, n, (count - 1) as nat), n)
    }
}

impl<S: Scalar> TransformerEncoder<S> {
    /// Whether all blocks are well formed and work on tokens of the given
    /// width.
    pub open spec fn wf(&self, width: nat) -> bool {
        forall|i: int|
            0 <= i < self.blocks@.len() ==> (#[trigger] self.blocks@[i]).wf()
                && self.blocks@[i].width() == width
    }

    /// Whether every intermediate result of a call can be counted by a
    /// machine word.
    pub open spec fn fits(&self, n: Lengths) -> bool {
        forall|i: int| 0 <= i < self.blocks@.len() ==> (#[trigger] self.blocks@[i]).fits(n)
    }

    /// What the encoder makes of its input.
    pub open spec fn apply(&self, x: Seq<S>, n: Lengths) -> Seq<S> {
        encoded(self.blocks@, x, n, self.blocks@.len())
    }

    /// Applies the blocks, one after the other, to a tensor of shape
    /// `(length, width)` or `(batch, length, width)`.
    pub fn forward(&self, ids: &mut UniqueIds, input: Tensor<S, NoTape>) -> (r: Tensor<S, NoTape>)
        requires
            old(ids).has_more(),
            input.data.wf(),
            input.dims().len() == 2 || input.dims().len() == 3,
            self.wf(input.dims()[input.dims().len() - 1] as nat),
            self.fits(lengths_of(input.dims())),
        ensures
            r.data.wf(),
            r.id == old(ids).next,
            final(ids).next == old(ids).next + 1,
            r.dims() == input.dims(),
            r@ == self.apply(input@, lengths_of(input.dims())),
    {
        let (batch, length, width) = split_shape(&input.data.shape);
        let n = Lengths { batch, keys: length, queries: length };
        let mut data = flat::copied(&input.data.data);
        let mut i: usize = 0;
        while i < self.blocks.len()
            invariant
                i <= self.blocks@.len(),
                input.data.wf(),
                self.wf(width as nat),
                self.fits(n),
                n.keys == n.queries,
                volume(input.dims()) == (n.batch * n.queries) * width,
                data@.len() == input@.len(),
                data@ == encoded(self.blocks@, input@, n, i as nat),
            decreases self.blocks@.len() - i,
        {
            assert(self.blocks@[i as int].wf());
            assert(self.blocks@[i as int].fits(n));
            data = self.blocks[i].forward_rows(&data, &n);
            i += 1;
        }
        Tensor::new(ids, Buffer { shape: input.data.shape, data })
    }
}

impl<S: Scalar> TransformerEncoder<S> {
    /// Whether all blocks are well formed.
    pub open spec fn blocks_wf(&self) -> bool {
        forall|i: int| 0 <= i < self.blocks@.len() ==> (#[trigger] self.blocks@[i]).wf()
    }

    /// Whether this encoder is `before` with each parameter less its step.
    pub open spec fn stepped(&self, before: &Self, steps: &Gradients<S>) -> bool {
        &&& self.blocks@.len() == before.blocks@.len()
        &&& forall|i: int|
            0 <= i < self.blocks@.len() ==> (#[trigger] self.blocks@[i]).stepped(
                &before.blocks@[i],
                steps,
            )
    }

    /// Whether this encoder is `before` with every block's parameters
    /// replaced.
    pub open spec fn drawn(&self, before: &Self) -> bool {
        &&& self.blocks@.len() == before.blocks@.len()
        &&& forall|i: int|
            0 <= i < self.blocks@.len() ==> (#[trigger] self.blocks@[i]).drawn(&before.blocks@[i])
    }

    /// Replaces the parameters of every block.
    pub fn reset_params(&mut self, rng: &mut rand::rngs::StdRng)
        requires
            old(self).blocks_wf(),
        ensures
            final(self).blocks_wf(),
            final(self).drawn(old(self)),
    {
        let mut i: usize = 0;
        while i < self.blocks.len()
            invariant
                i <= self.blocks@.len(),
                self.blocks@.len() == old(self).blocks@.len(),
                self.blocks_wf(),
                forall|j: int|
                    0 <= j < i ==> (#[trigger] self.blocks@[j]).drawn(&old(self).blocks@[j]),
                forall|j: int| i <= j < self.blocks@.len() ==> self.blocks@[j] == old(self).blocks@[j],
            decreases self.blocks@.len() - i,
        {
            assert(self.blocks@[i as int].wf());
            self.blocks[i].reset_params(rng);
            i += 1;
        }
    }

    /// Subtracts from each parameter what `steps` holds for it.
    pub fn update(&mut self, steps: &Gradients<S>)
        requires
            old(self).blocks_wf(),
            steps.wf(),
        ensures
            final(self).blocks_wf(),
            final(self).stepped(old(self), steps),
    {
        let mut i: usize = 0;
        while i < self.blocks.len()
            invariant
                i <= self.blocks@.len(),
                self.blocks@.len() == old(self).blocks@.len(),
                self.blocks_wf(),
                steps.wf(),
                forall|j: int|
                    0 <= j < i ==> (#[trigger] self.blocks@[j]).stepped(
                        &old(self).blocks@[j],
                        steps,
                    ),
                forall|j: int| i <= j < self.blocks@.len() ==> self.blocks@[j] == old(self).blocks@[j],
            decreases self.blocks@.len() - i,
        {
            assert(self.blocks@[i as int].wf());
            self.blocks[i].update(steps);
            i += 1;
        }
    }
}

/// A vector tensor with every element equal to `value`, under a fresh
/// identifier.
fn constant_vector<S: Scalar>(ids: &mut UniqueIds, width: usize, value: S) -> (r: Tensor<S, NoTape>)
    requires
        old(ids).has_more(),
    ensures
        r.data.wf(),
        r.dims() == seq![width],
        r@ == constant(width as nat, value),
        r.id == old(ids).next,
        final(ids).next == old(ids).next + 1,
{
    let mut shape: Vec<usize> = Vec::new();
    shape.push(width);
    proof {
        assert(shape@ =~= seq![width]);
        lemma_volume_1(shape@);
    }
    Tensor::new(ids, Buffer { shape, data: flat::filled(width, value) })
}

impl<S: Scalar> Linear<S> {
    /// Whether this is the layer from `ins` to `outs` scalars with all
    /// parameters zero, its two tensors numbered from `first` on.
    pub open spec fn zeroed(&self, ins: usize, outs: usize, first: int) -> bool {
        &&& self.wf()
        &&& self.weight.dims() == seq![outs, ins]
        &&& self.bias.dims() == seq![outs]
        &&& self.weight@ == constant((outs * ins) as nat, S::spec_zero())
        &&& self.bias@ == constant(outs as nat, S::spec_zero())
        &&& self.weight.id == first
        &&& self.bias.id == first + 1
    }

    /// The layer from `ins` to `outs` scalars with all parameters zero.
    ///
    /// Returns `None`, and issues no identifier, when the weight would
    /// have more elements than a machine word can count or fewer than two
    /// identifiers are left.
    pub fn default(ids: &mut UniqueIds, ins: usize, outs: usize) -> (r: Option<Self>)
        ensures
            r is Some <==> outs * ins <= usize::MAX && old(ids).next + 2 <= usize::MAX,
            r matches Some(layer) ==> layer.zeroed(ins, outs, old(ids).next as int) && final(ids).next == old(ids).next + 2,
            r is None ==> *final(ids) == *old(ids),
    {
        let count = match outs.checked_mul(ins) {
            Some(count) => count,
            None => {
                return None;
            },
        };
        if ids.next >= usize::MAX - 1 {
            return None;
        }
        let mut shape: Vec<usize> = Vec::new();
        shape.push(outs);
        shape.push(ins);
        proof {
            assert(shape@ =~= seq![outs, ins]);
            lemma_volume_2(shape@);
        }
        let weight = Tensor::new(ids, Buffer { shape, data: flat::filled(count, S::zero()) });
        let bias = constant_vector(ids, outs, S::zero());
        proof {
            lemma_volume_1(bias.dims());
        }
        Some(Linear { weight, bias })
    }
}

/// The number that a fresh normalization adds to the variance: one over a
/// hundred thousand.
pub open spec fn default_epsilon<S: Scalar>() -> S {
    S::spec_one().spec_over(S::spec_from_count(100000))
}

impl<S: Scalar> LayerNorm1D<S> {
    /// Whether this is the normalization of rows of the given width with
    /// a scale of ones and a shift of zeros, its two tensors numbered from
    /// `first` on.
    pub open spec fn fresh(&self, width: usize, first: int) -> bool {
        &&& self.wf()
        &&& self.gamma.dims() == seq![width]
        &&& self.gamma@ == constant(width as nat, S::spec_one())
        &&& self.beta@ == constant(width as nat, S::spec_zero())
        &&& self.epsilon == default_epsilon::<S>()
        &&& self.gamma.id == first
        &&& self.beta.id == first + 1
    }

    /// The normalization of rows of the given width with a scale of ones
    /// and a shift of zeros.
    ///
    /// Returns `None`, and issues no identifier, when fewer than two
    /// identifiers are left.
    pub fn default(ids: &mut UniqueIds, width: usize) -> (r: Option<Self>)
        ensures
            r is Some <==> old(ids).next + 2 <= usize::MAX,
            r matches Some(layer) ==> layer.fresh(width, old(ids).next as int) && final(ids).next
                == old(ids).next + 2,
            r is None ==> *final(ids) == *old(ids),
    {
        if ids.next >= usize::MAX - 1 {
            return None;
        }
        let gamma = constant_vector(ids, width, S::one());
        let beta = constant_vector(ids, width, S::zero());
        Some(LayerNorm1D { gamma, beta, epsilon: S::one().over(S::from_count(100000)) })
    }
}

/// The widths of an attention layer: of the tokens that keys and values
/// come from, of the tokens that queries come from, of keys and of values
/// over all heads, and the number of heads.
pub struct Widths {
    pub m: usize,
    pub n: usize,
    pub k: usize,
    pub v: usize,
    pub heads: usize,
}

/// Whether an attention layer of these widths can be built: the heads
/// divide the widths of keys and values, and every weight has a countable
/// number of elements.
pub open spec fn widths_fit(w: Widths) -> bool {
    &&& w.heads > 0
    &&& w.k % w.heads == 0
    &&& w.v % w.heads == 0
    &&& w.k * w.n <= usize::MAX
    &&& w.k * w.m <= usize::MAX
    &&& w.v * w.m <= usize::MAX
}

/// Tells whether an attention layer of these widths can be built.
pub fn check_widths(w: &Widths) -> (r: bool)
    ensures
        r == widths_fit(*w),
{
    w.heads > 0 && w.k % w.heads == 0 && w.v % w.heads == 0 && w.k.checked_mul(w.n).is_some()
        && w.k.checked_mul(w.m).is_some() && w.v.checked_mul(w.m).is_some()
}

impl<S: Scalar> MultiHeadAttention<S> {
    /// Whether this is the attention layer of the given widths with all
    /// parameters zero, its eight tensors numbered from `first` on.
    pub open spec fn zeroed(&self, w: Widths, first: int) -> bool {
        &&& self.wf()
        &&& self.heads == w.heads
        &&& self.w_q.zeroed(w.n, w.k, first)
        &&& self.w_k.zeroed(w.m, w.k, first + 2)
        &&& self.w_v.zeroed(w.m, w.v, first + 4)
        &&& self.w_o.zeroed(w.v, w.m, first + 6)
    }

    /// The attention layer of the given widths with all parameters zero.
    ///
    /// Returns `None`, and issues no identifier, when the widths do not
    /// fit or fewer than eight identifiers are left.
    pub fn default(ids: &mut UniqueIds, w: &Widths) -> (r: Option<Self>)
        ensures
            r is Some <==> widths_fit(*w) && old(ids).next + 8 <= usize::MAX,
            r matches Some(layer) ==> layer.zeroed(*w, old(ids).next as int) && final(ids).next
                == old(ids).next + 8,
            r is None ==> *final(ids) == *old(ids),
    {
        if !check_widths(w) || ids.next > usize::MAX - 8 {
            return None;
        }
        proof {
            assert(w.m * w.v == w.v * w.m) by (nonlinear_arith);
        }
        let w_q = Linear::default(ids, w.n, w.k).unwrap();
        let w_k = Linear::default(ids, w.m, w.k).unwrap();
        let w_v = Linear::default(ids, w.m, w.v).unwrap();
        let w_o = Linear::default(ids, w.v, w.m).unwrap();
        Some(MultiHeadAttention { w_q, w_k, w_v, w_o, heads: w.heads })
    }
}

/// The widths of a transformer block: of the tokens, of the hidden layer
/// of the feed-forward network, of the keys over all heads, and the
/// number of heads.
pub struct BlockWidths {
    pub m: usize,
    pub i: usize,
    pub k: usize,
    pub heads: usize,
}

impl BlockWidths {
    /// The widths of the block's self-attention.
    pub open spec fn attention(self) -> Widths {
        Widths { m: self.m, n: self.m, k: self.k, v: self.m, heads: self.heads }
    }

    /// Whether a block of these widths can be built.
    pub open spec fn fit(self) -> bool {
        widths_fit(self.attention()) && self.i * self.m <= usize::MAX
    }
}

impl<S: Scalar> TransformerBlock<S> {
    /// Whether this is the block of the given widths with zero maps and
    /// fresh normalizations, its sixteen tensors numbered from `first` on.
    pub open spec fn zeroed(&self, w: BlockWidths, first: int) -> bool {
        &&& self.wf()
        &&& self.width() == w.m
        &&& self.attn.zeroed(w.attention(), first)
        &&& self.norm1.fresh(w.m, first + 8)
        &&& self.norm2.fresh(w.m, first + 10)
        &&& self.ff.0.zeroed(w.m, w.i, first + 12)
        &&& self.ff.2.zeroed(w.i, w.m, first + 14)
    }

    /// The block of the given widths with zero maps and fresh
    /// normalizations.
    ///
    /// Returns `None`, and issues no identifier, when the widths do not
    /// fit or fewer than sixteen identifiers are left.
    pub fn default(ids: &mut UniqueIds, w: &BlockWidths) -> (r: Option<Self>)
        ensures
            r is Some <==> w.fit() && old(ids).next + 16 <= usize::MAX,
            r matches Some(block) ==> block.zeroed(*w, old(ids).next as int) && final(ids).next
                == old(ids).next + 16,
            r is None ==> *final(ids) == *old(ids),
    {
        let widths = Widths { m: w.m, n: w.m, k: w.k, v: w.m, heads: w.heads };
        if !check_widths(&widths) || w.i.checked_mul(w.m).is_none() || ids.next > usize::MAX - 16 {
            return None;
        }
        proof {
            assert(w.m * w.i == w.i * w.m) by (nonlinear_arith);
        }
        let attn = MultiHeadAttention::default(ids, &widths).unwrap();
        let norm1 = LayerNorm1D::default(ids, w.m).unwrap();
        let norm2 = LayerNorm1D::default(ids, w.m).unwrap();
        let ff_in = Linear::default(ids, w.m, w.i).unwrap();
        let ff_out = Linear::default(ids, w.i, w.m).unwrap();
        Some(TransformerBlock { attn, norm1, norm2, ff: (ff_in, ReLU, ff_out) })
    }
}

impl<S: Scalar> TransformerEncoder<S> {
    /// Whether this is the encoder of `layers` blocks of the given widths,
    /// each with zero maps and fresh normalizations, the tensors numbered
    /// from `first` on.
    pub open spec fn zeroed(&self, w: BlockWidths, layers: usize, first: int) -> bool {
        &&& self.blocks@.len() == layers
        &&& forall|i: int|
            0 <= i < layers ==> (#[trigger] self.blocks@[i]).zeroed(w, first + 16 * i)
    }

    /// The encoder of `layers` blocks for tokens of width `m`, with a
    /// hidden layer of width `i` and the given number of heads; keys are
    /// as wide as tokens.
    ///
    /// Returns `None`, and issues no identifier, when the widths do not
    /// fit or fewer than sixteen identifiers for each block are left.
    pub fn default(ids: &mut UniqueIds, m: usize, i: usize, layers: usize, heads: usize) -> (r:
        Option<Self>)
        ensures
            r is Some <==> (BlockWidths { m, i, k: m, heads }).fit() && old(ids).next + 16 * layers
                <= usize::MAX,
            r matches Some(encoder) ==> encoder.zeroed(
                BlockWidths { m, i, k: m, heads },
                layers,
                old(ids).next as int,
            ) && encoder.wf(m as nat) && final(ids).next == old(ids).next + 16 * layers,
            r is None ==> *final(ids) == *old(ids),
    {
        let w = BlockWidths { m, i, k: m, heads };
        let widths = Widths { m, n: m, k: m, v: m, heads };
        let needed = match layers.checked_mul(16) {
            Some(needed) => needed,
            None => {
                return None;
            },
        };
        if !check_widths(&widths) || i.checked_mul(m).is_none() || ids.next > usize::MAX - needed {
            return None;
        }
        let ghost first = ids.next as int;
        let mut blocks: Vec<TransformerBlock<S>> = Vec::new();
        let mut done: usize = 0;
        while done < layers
            invariant
                done <= layers,
                w == (BlockWidths { m, i, k: m, heads }),
                w.fit(),
                first + 16 * layers <= usize::MAX,
                ids.next == first + 16 * done,
                blocks@.len() == done,
                forall|j: int| 0 <= j < done ==> (#[trigger] blocks@[j]).zeroed(w, first + 16 * j),
            decreases layers - done,
        {
            let block = TransformerBlock::default(ids, &w).unwrap();
            blocks.push(block);
            done += 1;
        }
        Some(TransformerEncoder { blocks })
    }
}

/// The standard generator of `rand`.
#[verifier::external_type_specification]
#[verifier::external_body]
pub struct ExStdRng(rand::rngs::StdRng);

/// Draws a word from the generator with `RngCore::next_u64`.  The word is
/// random: nothing is claimed of it.
#[verifier::external_body]
fn next_word(rng: &mut rand::rngs::StdRng) -> u64 {
    rand::RngCore::next_u64(rng)
}

/// Draws `n` words from the generator.
pub fn draw(rng: &mut rand::rngs::StdRng, n: usize) -> (r: Vec<u64>)
    ensures
        r@.len() == n,
{
    let mut out: Vec<u64> = Vec::new();
    let mut i: usize = 0;
    while i < n
        invariant
            i <= n,
            out@.len() == i,
        decreases n - i,
    {
        out.push(next_word(rng));
        i += 1;
    }
    out
}

/// The scalars between `-bound` and `bound` that random words stand for.
pub open spec fn scattered<S: Scalar>(words: Seq<u64>, bound: S) -> Seq<S> {
    Seq::new(words.len(), |i: int| S::spec_uniform(words[i]).spec_times(bound))
}

/// Turns random words into scalars between `-bound` and `bound`.
pub fn scatter<S: Scalar>(words: &Vec<u64>, bound: S) -> (r: Vec<S>)
    ensures
        r@ == scattered(words@, bound),
{
    let mut out: Vec<S> = Vec::new();
    let mut i: usize = 0;
    while i < words.len()
        invariant
            i <= words.len(),
            out@.len() == i,
            forall|j: int| 0 <= j < i ==> out@[j] == S::spec_uniform(words@[j]).spec_times(bound),
        decreases words.len() - i,
    {
        out.push(S::uniform(words[i]).times(bound));
        i += 1;
    }
    assert(out@ =~= scattered(words@, bound));
    out
}

impl<S: Scalar> Tensor<S, NoTape> {
    /// Whether this tensor is `before` with other elements: the same
    /// identifier and the same shape.
    pub open spec fn renewed(&self, before: &Self) -> bool {
        &&& self.id == before.id
        &&& self.dims() == before.dims()
        &&& self.data.wf()
    }

    /// Whether this tensor is `before` less its step.
    pub open spec fn stepped(&self, before: &Self, steps: &Gradients<S>) -> bool {
        &&& self.renewed(before)
        &&& self@ == zip_minus(before@, steps.gradient(before.key()))
    }

    /// Subtracts from the tensor what `steps` holds for it; a tensor that
    /// `steps` does not mention stays as it is, less zero.
    pub fn update(&mut self, steps: &Gradients<S>)
        requires
            old(self).data.wf(),
            steps.wf(),
        ensures
            final(self).stepped(old(self), steps),
    {
        proof {
            lemma_find_key(steps.keys(), self.key());
        }
        let data = match steps.find(self.id, &self.data.shape) {
            Some(i) => flat::minus(&self.data.data, &steps.gradients[i]),
            None => flat::minus(&self.data.data, &flat::filled(self.data.data.len(), S::zero())),
        };
        self.data.data = data;
    }
}

impl<S: Scalar> Linear<S> {
    /// The bound of fresh parameters: one over the root of the width of
    /// an input.
    pub open spec fn bound(&self) -> S {
        S::spec_one().spec_over(S::spec_from_count(self.weight.dims()[1]).spec_sqrt())
    }

    /// Whether this layer is `before` with other parameters.
    pub open spec fn renewed(&self, before: &Self) -> bool {
        self.weight.renewed(&before.weight) && self.bias.renewed(&before.bias)
    }

    /// Whether this layer is `before` with each parameter less its step.
    pub open spec fn stepped(&self, before: &Self, steps: &Gradients<S>) -> bool {
        self.weight.stepped(&before.weight, steps) && self.bias.stepped(&before.bias, steps)
    }

    /// Whether this layer is `before` with the parameters that the given
    /// words stand for.
    pub open spec fn from_words(&self, before: &Self, weight: Seq<u64>, bias: Seq<u64>) -> bool {
        &&& self.renewed(before)
        &&& self.weight@ == scattered(weight, before.bound())
        &&& self.bias@ == scattered(bias, before.bound())
    }

    /// Whether this layer is `before` with parameters that some words
    /// stand for.
    pub open spec fn drawn(&self, before: &Self) -> bool {
        exists|weight: Seq<u64>, bias: Seq<u64>| #[trigger] self.from_words(before, weight, bias)
    }

    /// Replaces the parameters by the scalars that the words stand for,
    /// between the bound and its negative.
    pub fn randomize(&mut self, weight_words: &Vec<u64>, bias_words: &Vec<u64>)
        requires
            old(self).wf(),
            weight_words@.len() == old(self).weight@.len(),
            bias_words@.len() == old(self).bias@.len(),
        ensures
            final(self).wf(),
            final(self).renewed(old(self)),
            final(self).weight@ == scattered(weight_words@, old(self).bound()),
            final(self).bias@ == scattered(bias_words@, old(self).bound()),
    {
        let bound = S::one().over(S::from_count(self.weight.data.shape[1]).sqrt());
        self.weight.data.data = scatter(weight_words, bound);
        self.bias.data.data = scatter(bias_words, bound);
    }

    /// Replaces the parameters by random ones between the bound and its
    /// negative.
    pub fn reset_params(&mut self, rng: &mut rand::rngs::StdRng)
        requires
            old(self).wf(),
        ensures
            final(self).wf(),
            final(self).drawn(old(self)),
    {
        let weight_words = draw(rng, self.weight.data.data.len());
        let bias_words = draw(rng, self.bias.data.data.len());
        self.randomize(&weight_words, &bias_words);
        assert(self.from_words(old(self), weight_words@, bias_words@));
    }

    /// Subtracts from each parameter what `steps` holds for it.
    pub fn update(&mut self, steps: &Gradients<S>)
        requires
            old(self).wf(),
            steps.wf(),
        ensures
            final(self).wf(),
            final(self).stepped(old(self), steps),
    {
        self.weight.update(steps);
        self.bias.update(steps);
    }
}

impl<S: Scalar> LayerNorm1D<S> {
    /// Whether this layer is `before` with other parameters.
    pub open spec fn renewed(&self, before: &Self) -> bool {
        &&& self.gamma.renewed(&before.gamma)
        &&& self.beta.renewed(&before.beta)
        &&& self.epsilon == before.epsilon
    }

    /// Whether this layer is `before` with each parameter less its step.
    pub open spec fn stepped(&self, before: &Self, steps: &Gradients<S>) -> bool {
        &&& self.gamma.stepped(&before.gamma, steps)
        &&& self.beta.stepped(&before.beta, steps)
        &&& self.epsilon == before.epsilon
    }

    /// Whether this layer is `before` with a scale of ones and a shift of
    /// zeros.
    pub open spec fn reset(&self, before: &Self) -> bool {
        &&& self.renewed(before)
        &&& self.gamma@ == constant(before.gamma@.len(), S::spec_one())
        &&& self.beta@ == constant(before.beta@.len(), S::spec_zero())
    }

    /// Sets the scale to ones and the shift to zeros.
    pub fn reset_params(&mut self)
        requires
            old(self).wf(),
        ensures
            final(self).wf(),
            final(self).reset(old(self)),
    {
        self.gamma.data.data = flat::filled(self.gamma.data.data.len(), S::one());
        self.beta.data.data = flat::filled(self.beta.data.data.len(), S::zero());
    }

    /// Subtracts from each parameter what `steps` holds for it.
    pub fn update(&mut self, steps: &Gradients<S>)
        requires
            old(self).wf(),
            steps.wf(),
        ensures
            final(self).wf(),
            final(self).stepped(old(self), steps),
    {
        self.gamma.update(steps);
        self.beta.update(steps);
    }
}

impl<S: Scalar> MultiHeadAttention<S> {
    /// Whether this layer is `before` with each parameter less its step.
    pub open spec fn stepped(&self, before: &Self, steps: &Gradients<S>) -> bool {
        &&& self.w_q.stepped(&before.w_q, steps)
        &&& self.w_k.stepped(&before.w_k, steps)
        &&& self.w_v.stepped(&before.w_v, steps)
        &&& self.w_o.stepped(&before.w_o, steps)
        &&& self.heads == before.heads
    }

    /// Whether this layer is `before` with parameters that some words
    /// stand for.
    pub open spec fn drawn(&self, before: &Self) -> bool {
        &&& self.w_q.drawn(&before.w_q)
        &&& self.w_k.drawn(&before.w_k)
        &&& self.w_v.drawn(&before.w_v)
        &&& self.w_o.drawn(&before.w_o)
        &&& self.heads == before.heads
    }

    /// Replaces the parameters of the four maps by random ones.
    pub fn reset_params(&mut self, rng: &mut rand::rngs::StdRng)
        requires
            old(self).wf(),
        ensures
            final(self).wf(),
            final(self).drawn(old(self)),
    {
        self.w_q.reset_params(rng);
        self.w_k.reset_params(rng);
        self.w_v.reset_params(rng);
        self.w_o.reset_params(rng);
    }

    /// Subtracts from each parameter what `steps` holds for it.
    pub fn update(&mut self, steps: &Gradients<S>)
        requires
            old(self).wf(),
            steps.wf(),
        ensures
            final(self).wf(),
            final(self).stepped(old(self), steps),
    {
        self.w_q.update(steps);
        self.w_k.update(steps);
        self.w_v.update(steps);
        self.w_o.update(steps);
    }
}

impl<S: Scalar> TransformerBlock<S> {
    /// Whether this block is `before` with each parameter less its step.
    pub open spec fn stepped(&self, before: &Self, steps: &Gradients<S>) -> bool {
        &&& self.attn.stepped(&before.attn, steps)
        &&& self.norm1.stepped(&before.norm1, steps)
        &&& self.norm2.stepped(&before.norm2, steps)
        &&& self.ff.0.stepped(&before.ff.0, steps)
        &&& self.ff.2.stepped(&before.ff.2, steps)
    }

    /// Whether this block is `before` with parameters that some words
    /// stand for in the maps and with ones and zeros in the
    /// normalizations.
    pub open spec fn drawn(&self, before: &Self) -> bool {
        &&& self.attn.drawn(&before.attn)
        &&& self.norm1.reset(&before.norm1)
        &&& self.norm2.reset(&before.norm2)
        &&& self.ff.0.drawn(&before.ff.0)
        &&& self.ff.2.drawn(&before.ff.2)
    }

    /// Replaces the parameters of the maps by random ones and those of the
    /// normalizations by ones and zeros.
    pub fn reset_params(&mut self, rng: &mut rand::rngs::StdRng)
        requires
            old(self).wf(),
        ensures
            final(self).wf(),
            final(self).drawn(old(self)),
    {
        self.attn.reset_params(rng);
        self.norm1.reset_params();
        self.norm2.reset_params();
        self.ff.0.reset_params(rng);
        self.ff.2.reset_params(rng);
    }

    /// Subtracts from each parameter what `steps` holds for it.
    pub fn update(&mut self, steps: &Gradients<S>)
        requires
            old(self).wf(),
            steps.wf(),
        ensures
            final(self).wf(),
            final(self).stepped(old(self), steps),
    {
        self.attn.update(steps);
        self.norm1.update(steps);
        self.norm2.update(steps);
        self.ff.0.update(steps);
        self.ff.2.update(steps);
    }
}

/// Heads that divide the widths split the mapped inputs evenly.
proof fn lemma_heads_fit(batch: int, heads: int, queries: int, keys: int, kw: int, vw: int)
    requires
        0 <= batch,
        0 < heads,
        0 <= queries,
        0 <= keys,
        0 <= kw,
        0 <= vw,
        kw % heads == 0,
        vw % heads == 0,
    ensures
        (batch * queries) * kw == (batch * heads) * (queries * (kw / heads)),
        (batch * keys) * kw == (batch * heads) * (keys * (kw / heads)),
        (batch * keys) * vw == (batch * heads) * (keys * (vw / heads)),
        (batch * queries) * vw == (batch * heads) * (queries * (vw / heads)),
        0 <= kw / heads <= kw,
        0 <= vw / heads <= vw,
        queries * (vw / heads) <= queries * vw,
{
    vstd::arithmetic::div_mod::lemma_fundamental_div_mod(kw, heads);
    vstd::arithmetic::div_mod::lemma_fundamental_div_mod(vw, heads);
    let a = kw / heads;
    let b = vw / heads;
    assert(kw == heads * a);
    assert(vw == heads * b);
    assert(0 <= a <= kw) by (nonlinear_arith)
        requires
            kw == heads * a,
            heads > 0,
            kw >= 0,
    ;
    assert(0 <= b <= vw) by (nonlinear_arith)
        requires
            vw == heads * b,
            heads > 0,
            vw >= 0,
    ;
    assert((batch * queries) * kw == (batch * heads) * (queries * a)) by (nonlinear_arith)
        requires
            kw == heads * a,
    ;
    assert((batch * keys) * kw == (batch * heads) * (keys * a)) by (nonlinear_arith)
        requires
            kw == heads * a,
    ;
    assert((batch * keys) * vw == (batch * heads) * (keys * b)) by (nonlinear_arith)
        requires
            vw == heads * b,
    ;
    assert((batch * queries) * vw == (batch * heads) * (queries * b)) by (nonlinear_arith)
        requires
            vw == heads * b,
    ;
    assert(queries * b <= queries * vw) by (nonlinear_arith)
        requires
            0 <= b <= vw,
            0 <= queries,
    ;
}

} // verus!
