use dfdx::buffer::Buffer;
use dfdx::nn::{
    draw, scatter, BlockWidths, LayerNorm1D, Linear, MultiHeadAttention, ReLU, TransformerBlock,
    TransformerEncoder, Widths,
};
use dfdx::ops::{backward, mul, sum};
use dfdx::scalar::Scalar;
use dfdx::tensor::{NoTape, Tensor};
use dfdx::unique_id::UniqueIds;
use rand::rngs::StdRng;
use rand::SeedableRng;

/// Single-precision floating point as the scalar of the tensors.
#[derive(Clone, Copy, Debug, PartialEq)]
struct F(f32);

impl Scalar for F {
    fn spec_zero() -> Self {
        F(0.0)
    }

    fn spec_one() -> Self {
        F(1.0)
    }

    fn spec_from_count(n: usize) -> Self {
        F(n as f32)
    }

    fn spec_plus(self, rhs: Self) -> Self {
        F(self.0 + rhs.0)
    }

    fn spec_minus(self, rhs: Self) -> Self {
        F(self.0 - rhs.0)
    }

    fn spec_times(self, rhs: Self) -> Self {
        F(self.0 * rhs.0)
    }

    fn spec_over(self, rhs: Self) -> Self {
        F(self.0 / rhs.0)
    }

    fn spec_exp(self) -> Self {
        F(self.0.exp())
    }

    fn spec_sqrt(self) -> Self {
        F(self.0.sqrt())
    }

    fn spec_max(self, rhs: Self) -> Self {
        F(self.0.max(rhs.0))
    }

    fn spec_uniform(word: u64) -> Self {
        F((word >> 40) as f32 / 8388608.0 - 1.0)
    }

    fn zero() -> Self {
        F(0.0)
    }

    fn one() -> Self {
        F(1.0)
    }

    fn from_count(n: usize) -> Self {
        F(n as f32)
    }

    fn plus(self, rhs: Self) -> Self {
        F(self.0 + rhs.0)
    }

    fn minus(self, rhs: Self) -> Self {
        F(self.0 - rhs.0)
    }

    fn times(self, rhs: Self) -> Self {
        F(self.0 * rhs.0)
    }

    fn over(self, rhs: Self) -> Self {
        F(self.0 / rhs.0)
    }

    fn exp(self) -> Self {
        F(self.0.exp())
    }

    fn sqrt(self) -> Self {
        F(self.0.sqrt())
    }

    fn max(self, rhs: Self) -> Self {
        F(self.0.max(rhs.0))
    }

    fn uniform(word: u64) -> Self {
        F((word >> 40) as f32 / 8388608.0 - 1.0)
    }
}

fn tensor(ids: &mut UniqueIds, shape: Vec<usize>, values: &[f32]) -> Tensor<F, NoTape> {
    let data: Vec<F> = values.iter().map(|v| F(*v)).collect();
    Tensor::new(ids, Buffer::new(shape, data).unwrap())
}

fn values(t: &Tensor<F, NoTape>) -> Vec<f32> {
    t.data.data.iter().map(|v| v.0).collect()
}

fn random(ids: &mut UniqueIds, rng: &mut StdRng, shape: Vec<usize>) -> Tensor<F, NoTape> {
    let n = shape.iter().product();
    Tensor::new(ids, Buffer::new(shape, scatter(&draw(rng, n), F(1.0))).unwrap())
}

fn linear(ids: &mut UniqueIds, rng: &mut StdRng, ins: usize, outs: usize) -> Linear<F> {
    let weight = random(ids, rng, vec![outs, ins]);
    let bias = random(ids, rng, vec![outs]);
    Linear::new(weight, bias).unwrap()
}

fn attention(ids: &mut UniqueIds, rng: &mut StdRng, m: usize, n: usize, k: usize, v: usize, heads: usize) -> MultiHeadAttention<F> {
    MultiHeadAttention {
        w_q: linear(ids, rng, n, k),
        w_k: linear(ids, rng, m, k),
        w_v: linear(ids, rng, m, v),
        w_o: linear(ids, rng, v, m),
        heads,
    }
}

fn norm(ids: &mut UniqueIds, width: usize) -> LayerNorm1D<F> {
    let gamma = tensor(ids, vec![width], &vec![1.0; width]);
    let beta = tensor(ids, vec![width], &vec![0.0; width]);
    LayerNorm1D::new(gamma, beta, F(1e-5)).unwrap()
}

fn block(ids: &mut UniqueIds, rng: &mut StdRng, m: usize, inner: usize, heads: usize) -> TransformerBlock<F> {
    TransformerBlock {
        attn: attention(ids, rng, m, m, m, m, heads),
        norm1: norm(ids, m),
        norm2: norm(ids, m),
        ff: (linear(ids, rng, m, inner), ReLU::default(), linear(ids, rng, inner, m)),
    }
}

fn close(a: &[f32], b: &[f32]) {
    assert_eq!(a.len(), b.len());
    for (x, y) in a.iter().zip(b) {
        assert!((x - y).abs() < 1e-5, "{} is not close to {}", x, y);
    }
}

#[test]
fn test_matmul() {
    let mut rng = StdRng::seed_from_u64(0);
    let mut ids = UniqueIds::new();
    let inp = random(&mut ids, &mut rng, vec![4]);
    let out = inp.duplicate().reshape(&mut ids, vec![2, 2]).unwrap();
    println!("Inp: {:?}", values(&inp));
    println!("Out: {:?}", values(&out));
    assert_eq!(out.data.shape, vec![2, 2]);
    assert_eq!(values(&out), values(&inp));
    assert!(inp.duplicate().reshape(&mut ids, vec![3, 2]).is_none());
    assert!(inp.duplicate().reshape(&mut ids, vec![1, 1, 1, 2, 2]).is_none());
}

#[test]
fn test_linear_forward() {
    let mut ids = UniqueIds::new();
    let weight = tensor(&mut ids, vec![2, 3], &[1.0, 2.0, 3.0, 0.0, -1.0, 1.0]);
    let bias = tensor(&mut ids, vec![2], &[10.0, 20.0]);
    let layer = Linear::new(weight, bias).unwrap();
    let out = layer.forward_rows(&vec![F(1.0), F(1.0), F(1.0), F(2.0), F(0.0), F(-1.0)], 2);
    assert_eq!(out, vec![F(16.0), F(20.0), F(9.0), F(19.0)]);
    let weight = tensor(&mut ids, vec![2, 3], &[0.0; 6]);
    let bias = tensor(&mut ids, vec![3], &[0.0; 3]);
    assert!(Linear::new(weight, bias).is_none());
}

#[test]
fn test_layer_norm_forward() {
    let mut ids = UniqueIds::new();
    let gamma = tensor(&mut ids, vec![4], &[1.0, 2.0, 1.0, 1.0]);
    let beta = tensor(&mut ids, vec![4], &[0.0, 0.0, 5.0, 0.0]);
    let layer = LayerNorm1D::new(gamma, beta, F(0.0)).unwrap();
    let out = layer.forward_rows(&vec![F(1.0), F(3.0), F(1.0), F(3.0)], 1);
    assert_eq!(out, vec![F(-1.0), F(2.0), F(4.0), F(1.0)]);
}

#[test]
fn test_reset_params_keeps_shapes_and_bound() {
    let mut rng = StdRng::seed_from_u64(1);
    let mut ids = UniqueIds::new();
    let mut model = block(&mut ids, &mut rng, 4, 16, 2);
    let before = values(&model.ff.0.weight);
    let id = model.ff.0.weight.id;
    model.norm1.gamma.data.data[0] = F(7.0);
    model.reset_params(&mut rng);
    assert_eq!(model.ff.0.weight.id, id);
    assert_eq!(model.ff.0.weight.data.shape, vec![16, 4]);
    assert_ne!(values(&model.ff.0.weight), before);
    assert!(values(&model.ff.0.weight).iter().all(|w| w.abs() <= 0.5));
    assert!(values(&model.ff.2.weight).iter().all(|w| w.abs() <= 0.25));
    assert!(values(&model.attn.w_q.bias).iter().all(|w| w.abs() <= 0.5));
    assert_eq!(values(&model.norm1.gamma), vec![1.0; 4]);
    assert_eq!(values(&model.norm2.beta), vec![0.0; 4]);
    let found = values(&model.ff.0.weight);
    assert!(found.iter().any(|w| *w > 0.0) && found.iter().any(|w| *w < 0.0));
}

#[test]
fn test_randomize_follows_the_words() {
    let mut ids = UniqueIds::new();
    let mut layer = Linear::new(tensor(&mut ids, vec![1, 4], &[0.0; 4]), tensor(&mut ids, vec![1], &[0.0])).unwrap();
    layer.randomize(&vec![0, u64::MAX, 1 << 63, 1 << 62], &vec![3 << 62]);
    close(&values(&layer.weight), &[-0.5, 0.5, 0.0, -0.25]);
    close(&values(&layer.bias), &[0.25]);
}

#[test]
fn test_update_subtracts_the_gradient() {
    let mut rng = StdRng::seed_from_u64(2);
    let mut ids = UniqueIds::new();
    let mut layer = linear(&mut ids, &mut rng, 2, 2);
    let before = values(&layer.weight);
    let bias = values(&layer.bias);
    let c = tensor(&mut ids, vec![2, 2], &[1.0, 2.0, 3.0, 4.0]);
    let product = mul(&mut ids, &c, layer.weight.duplicate().trace());
    let loss = sum(&mut ids, product);
    let steps = backward(loss);
    layer.update(&steps);
    let want: Vec<f32> = before.iter().zip([1.0, 2.0, 3.0, 4.0]).map(|(w, g)| w - g).collect();
    assert_eq!(values(&layer.weight), want);
    assert_eq!(values(&layer.bias), bias);
}

#[test]
fn test_batched_attention_is_attention_per_sequence() {
    let mut rng = StdRng::seed_from_u64(3);
    let mut ids = UniqueIds::new();
    let model = attention(&mut ids, &mut rng, 4, 4, 6, 8, 2);
    let first = random(&mut ids, &mut rng, vec![3, 4]);
    let second = random(&mut ids, &mut rng, vec![3, 4]);
    let mut both = values(&first);
    both.extend(values(&second));
    let batch = tensor(&mut ids, vec![2, 3, 4], &both);
    let out = model.forward(&mut ids, batch);
    assert_eq!(out.data.shape, vec![2, 3, 4]);
    let mut want = values(&model.forward(&mut ids, first));
    want.extend(values(&model.forward(&mut ids, second)));
    close(&values(&out), &want);
}

#[test]
fn test_attention_between_two_sequences() {
    let mut rng = StdRng::seed_from_u64(4);
    let mut ids = UniqueIds::new();
    let model = attention(&mut ids, &mut rng, 4, 6, 8, 2, 2);
    let from_enc = random(&mut ids, &mut rng, vec![5, 4]);
    let input = random(&mut ids, &mut rng, vec![3, 6]);
    let out = model.forward_with(&mut ids, from_enc, input);
    assert_eq!(out.data.shape, vec![3, 4]);
    assert!(values(&out).iter().all(|v| v.is_finite()));

    let model = attention(&mut ids, &mut rng, 4, 4, 8, 4, 1);
    let x = random(&mut ids, &mut rng, vec![3, 4]);
    let crossed = model.forward_with(&mut ids, x.duplicate(), x.duplicate());
    let own = model.forward(&mut ids, x);
    assert_eq!(values(&crossed), values(&own));
}

#[test]
fn test_attention_with_one_key_returns_its_value() {
    // with a single key every weight is one, so the result is the mapped value
    let mut ids = UniqueIds::new();
    let eye = [1.0, 0.0, 0.0, 1.0];
    let map = |ids: &mut UniqueIds| Linear::new(tensor(ids, vec![2, 2], &eye), tensor(ids, vec![2], &[0.0; 2])).unwrap();
    let model = MultiHeadAttention { w_q: map(&mut ids), w_k: map(&mut ids), w_v: map(&mut ids), w_o: map(&mut ids), heads: 1 };
    let x = tensor(&mut ids, vec![1, 2], &[3.0, -4.0]);
    assert_eq!(values(&model.forward(&mut ids, x)), vec![3.0, -4.0]);
}

#[test]
fn test_encoder_applies_its_blocks_in_order() {
    let mut rng = StdRng::seed_from_u64(5);
    let mut ids = UniqueIds::new();
    let x = random(&mut ids, &mut rng, vec![3, 4]);
    let empty: TransformerEncoder<F> = TransformerEncoder::default(&mut ids, 4, 8, 0, 2).unwrap();
    assert_eq!(empty.blocks.len(), 0);
    assert_eq!(values(&empty.forward(&mut ids, x.duplicate())), values(&x));

    let model = TransformerEncoder { blocks: vec![block(&mut ids, &mut rng, 4, 8, 2), block(&mut ids, &mut rng, 4, 8, 1)] };
    let out = model.forward(&mut ids, x.duplicate());
    let step = model.blocks[0].forward(&mut ids, x);
    let want = model.blocks[1].forward(&mut ids, step);
    assert_eq!(values(&out), values(&want));
    assert_eq!(out.data.shape, vec![3, 4]);
}

#[test]
fn test_encoder_reset_and_update() {
    let mut rng = StdRng::seed_from_u64(6);
    let mut ids = UniqueIds::new();
    let mut model = TransformerEncoder { blocks: vec![block(&mut ids, &mut rng, 4, 8, 2)] };
    let before = values(&model.blocks[0].attn.w_o.weight);
    model.reset_params(&mut rng);
    let fresh = values(&model.blocks[0].attn.w_o.weight);
    assert_ne!(fresh, before);
    let c = tensor(&mut ids, vec![4, 4], &[0.5; 16]);
    let product = mul(&mut ids, &c, model.blocks[0].attn.w_o.weight.duplicate().trace());
    let loss = sum(&mut ids, product);
    model.update(&backward(loss));
    let want: Vec<f32> = fresh.iter().map(|w| w - 0.5).collect();
    assert_eq!(values(&model.blocks[0].attn.w_o.weight), want);
    assert_eq!(values(&model.blocks[0].norm1.gamma), vec![1.0; 4]);
}

#[test]
fn test_default_layers_are_zero_maps_and_fresh_normalizations() {
    let mut ids = UniqueIds::new();
    let layer: Linear<F> = Linear::default(&mut ids, 3, 2).unwrap();
    assert_eq!(layer.weight.data.shape, vec![2, 3]);
    assert_eq!(values(&layer.weight), vec![0.0; 6]);
    assert_eq!(values(&layer.bias), vec![0.0; 2]);
    assert_eq!((layer.weight.id, layer.bias.id, ids.next), (0, 1, 2));

    let norm: LayerNorm1D<F> = LayerNorm1D::default(&mut ids, 3).unwrap();
    assert_eq!(values(&norm.gamma), vec![1.0; 3]);
    assert_eq!(values(&norm.beta), vec![0.0; 3]);
    assert_eq!(norm.epsilon, F(1e-5));

    let widths = Widths { m: 4, n: 6, k: 8, v: 2, heads: 2 };
    let attn: MultiHeadAttention<F> = MultiHeadAttention::default(&mut ids, &widths).unwrap();
    assert_eq!(attn.w_q.weight.data.shape, vec![8, 6]);
    assert_eq!(attn.w_k.weight.data.shape, vec![8, 4]);
    assert_eq!(attn.w_v.weight.data.shape, vec![2, 4]);
    assert_eq!(attn.w_o.weight.data.shape, vec![4, 2]);
    assert_eq!(attn.heads, 2);
    assert_eq!(ids.next, 12);

    let block: TransformerBlock<F> =
        TransformerBlock::default(&mut ids, &BlockWidths { m: 4, i: 16, k: 8, heads: 2 }).unwrap();
    assert_eq!(block.ff.0.weight.data.shape, vec![16, 4]);
    assert_eq!(block.ff.2.weight.data.shape, vec![4, 16]);
    assert_eq!(block.attn.w_v.weight.data.shape, vec![4, 4]);
    assert_eq!(ids.next, 28);
}

#[test]
fn test_default_encoder_has_its_layers() {
    let mut ids = UniqueIds::new();
    let model: TransformerEncoder<F> = TransformerEncoder::default(&mut ids, 8, 16, 3, 2).unwrap();
    assert_eq!(model.blocks.len(), 3);
    assert_eq!(ids.next, 48);
    assert_eq!(model.blocks[2].attn.w_q.weight.id, 32);
    assert_eq!(model.blocks[1].ff.2.weight.data.shape, vec![8, 16]);
    // zero maps leave the normalized input: every row normalizes to zeros
    let x = tensor(&mut ids, vec![2, 8], &[3.0; 16]);
    let y = model.forward(&mut ids, x);
    assert_eq!(values(&y), vec![0.0; 16]);
}

#[test]
fn test_defaults_that_cannot_be_built() {
    let mut ids = UniqueIds::new();
    assert!(TransformerEncoder::<F>::default(&mut ids, 8, 16, 1, 3).is_none());
    assert!(TransformerEncoder::<F>::default(&mut ids, 8, 16, 1, 0).is_none());
    assert!(TransformerEncoder::<F>::default(&mut ids, 8, 16, usize::MAX, 2).is_none());
    assert!(Linear::<F>::default(&mut ids, usize::MAX, 2).is_none());
    assert!(MultiHeadAttention::<F>::default(&mut ids, &Widths { m: 4, n: 4, k: 6, v: 4, heads: 4 }).is_none());
    assert_eq!(ids.next, 0);
    let mut spent = UniqueIds { next: usize::MAX - 1 };
    assert!(Linear::<F>::default(&mut spent, 1, 1).is_none());
    assert!(LayerNorm1D::<F>::default(&mut spent, 1).is_none());
    assert_eq!(spent.next, usize::MAX - 1);
}
