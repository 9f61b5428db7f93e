use dfdx::buffer::Buffer;
use dfdx::fixed::{Fixed, ONE};
use dfdx::nn::{Linear, MultiHeadAttention};
use dfdx::ops::{add, backward, mean, mul};
use dfdx::scalar::Scalar;
use dfdx::tensor::{NoTape, Tensor};
use dfdx::unique_id::UniqueIds;

fn fixed(v: f64) -> Fixed {
    Fixed::from_raw((v * ONE as f64).round() as i64)
}

fn float(v: Fixed) -> f64 {
    v.raw as f64 / ONE as f64
}

fn mat<const M: usize, const N: usize>(ids: &mut UniqueIds, rows: [[f32; N]; M]) -> Tensor<Fixed, NoTape> {
    let data: Vec<Fixed> = rows.iter().flatten().map(|v| fixed(*v as f64)).collect();
    Tensor::new(ids, Buffer::new(vec![M, N], data).unwrap())
}

fn row<const N: usize>(ids: &mut UniqueIds, values: [f32; N]) -> Tensor<Fixed, NoTape> {
    let data: Vec<Fixed> = values.iter().map(|v| fixed(*v as f64)).collect();
    Tensor::new(ids, Buffer::new(vec![N], data).unwrap())
}

fn assert_close<const M: usize, const N: usize>(found: &Tensor<Fixed, NoTape>, expected: &[[f32; N]; M]) {
    assert_eq!(found.data.shape, vec![M, N]);
    for (i, want) in expected.iter().flatten().enumerate() {
        let got = float(found.data.data[i]);
        assert!((got - *want as f64).abs() <= 1e-5, "element {}: {} is not close to {}", i, got, want);
    }
}

#[test]
fn test_fixed_sums_and_products_are_exact() {
    assert_eq!(Fixed::zero().raw, 0);
    assert_eq!(Fixed::one().raw, ONE);
    assert_eq!(Fixed::from_count(3).raw, 3 * ONE);
    assert_eq!(fixed(1.5).plus(fixed(2.25)), fixed(3.75));
    assert_eq!(fixed(1.5).minus(fixed(2.25)), fixed(-0.75));
    assert_eq!(fixed(1.5).times(fixed(-2.0)), fixed(-3.0));
    assert_eq!(fixed(-1.5).times(fixed(-2.0)), fixed(3.0));
    assert_eq!(fixed(3.0).over(fixed(-2.0)), fixed(-1.5));
    assert_eq!(fixed(1.0).over(fixed(3.0)).raw, ONE / 3);
    assert_eq!(fixed(-1.0).max(fixed(0.5)), fixed(0.5));
    assert_eq!(fixed(2.0).max(fixed(0.5)), fixed(2.0));
}

#[test]
fn test_fixed_saturates_at_the_ends_of_its_range() {
    let big = Fixed::from_raw(i64::MAX);
    let small = Fixed::from_raw(i64::MIN);
    assert_eq!(big.plus(big).raw, i64::MAX);
    assert_eq!(small.plus(small).raw, i64::MIN);
    assert_eq!(small.minus(big).raw, i64::MIN);
    assert_eq!(big.times(big).raw, i64::MAX);
    assert_eq!(big.times(small).raw, i64::MIN);
    assert_eq!(small.times(small).raw, i64::MAX);
    assert_eq!(Fixed::from_count(usize::MAX).raw, i64::MAX);
    assert_eq!(fixed(1.0).over(Fixed::zero()).raw, i64::MAX);
    assert_eq!(fixed(-1.0).over(Fixed::zero()).raw, i64::MIN);
    assert_eq!(Fixed::zero().over(Fixed::zero()).raw, 0);
    assert_eq!(fixed(23.0).exp().raw, i64::MAX);
    assert_eq!(fixed(-23.0).exp().raw, 0);
}

#[test]
fn test_fixed_roots_and_exponentials_are_close() {
    assert_eq!(fixed(4.0).sqrt(), fixed(2.0));
    assert_eq!(fixed(0.0).sqrt(), fixed(0.0));
    assert_eq!(fixed(-4.0).sqrt(), fixed(0.0));
    assert_eq!(Fixed::zero().exp(), Fixed::one());
    for v in [0.25f64, 2.0, 3.0, 10.0, 12345.678, 1e-6] {
        assert!((float(fixed(v).sqrt()) - v.sqrt()).abs() < 1e-8, "sqrt {}", v);
    }
    for v in [-20.0f64, -3.5, -1.0, -0.01, 0.01, 0.5, 1.0, 2.0, 7.25, 20.0] {
        let want = v.exp();
        assert!((float(fixed(v).exp()) - want).abs() <= 1e-7 * want.max(1.0), "exp {}", v);
    }
}

#[test]
fn test_fixed_gradients() {
    let mut ids = UniqueIds::new();
    let x = row(&mut ids, [1.0, -2.0, 0.5, 4.0]);
    let c = row(&mut ids, [3.0, 3.0, 3.0, 3.0]);
    let y = mul(&mut ids, &x, x.duplicate().trace());
    let y = add(&mut ids, &c, y);
    let loss = mean(&mut ids, y);
    assert_eq!(loss.data.data[0], fixed(8.3125));
    let gradients = backward(loss);
    let found = gradients.gradient_for(x.id, &x.data.shape).unwrap();
    assert_eq!(found, vec![fixed(0.5), fixed(-1.0), fixed(0.25), fixed(2.0)]);
}

#[test]
fn test_self_attention_in_fixed_point() {
    let mut ids = UniqueIds::new();
    let model: MultiHeadAttention<Fixed> = MultiHeadAttention {
        heads: 1,
        w_q: Linear {
            weight: mat(&mut ids, [
                [
                    0.1574, -0.2003, 0.0850, 0.2589, -0.0813, 0.0932, -0.0137, 0.2020,
                ],
                [
                    0.2021, -0.1780, -0.2722, -0.1615, 0.4079, -0.3185, -0.3676, -0.2339,
                ],
                [
                    -0.4066, 0.4068, -0.0236, 0.2187, 0.0192, -0.2541, -0.3628, -0.3462,
                ],
                [
                    -0.3576, 0.1455, -0.2628, -0.3512, 0.2617, 0.4011, -0.1893, 0.0074,
                ],
                [
                    0.3362, -0.1857, -0.1462, 0.2258, 0.2525, -0.1959, 0.4204, 0.0527,
                ],
                [
                    -0.2779, 0.2277, 0.0287, -0.3090, -0.2154, -0.3343, -0.4102, 0.1247,
                ],
                [
                    0.1978, -0.0637, 0.3727, -0.1929, -0.2977, 0.0057, 0.2015, -0.3023,
                ],
                [
                    -0.0626, -0.3986, -0.0338, 0.0366, -0.3096, 0.1367, -0.0734, -0.3320,
                ],
            ]),
            bias: row(&mut ids, [
                0.0773, -0.2218, 0.0269, 0.2612, 0.2109, -0.2013, 0.0431, -0.0836,
            ]),
        },
        w_k: Linear {
            weight: mat(&mut ids, [
                [
                    0.2069, 0.0154, -0.2676, -0.3061, -0.2987, -0.3143, -0.3604, 0.1183,
                ],
                [
                    -0.4073, -0.4290, 0.1581, -0.0480, -0.0837, 0.2044, -0.0503, -0.3374,
                ],
                [
                    -0.3744, 0.1356, 0.3755, -0.4040, -0.3553, 0.2100, -0.2551, 0.0068,
                ],
                [
                    0.0492, -0.0793, 0.3224, 0.0782, 0.4010, -0.2416, 0.2916, -0.1970,
                ],
                [
                    0.2141, -0.4310, 0.1829, 0.1139, -0.1791, -0.0331, -0.2026, -0.0118,
                ],
                [
                    0.0752, 0.2486, 0.3596, 0.2715, 0.1719, 0.3920, 0.1833, -0.0486,
                ],
                [
                    -0.3989, -0.4021, -0.1274, -0.1533, -0.2212, 0.2649, -0.0964, 0.0363,
                ],
                [
                    -0.2067, 0.1342, 0.4172, -0.1923, 0.3606, 0.1490, -0.1655, -0.2564,
                ],
            ]),
            bias: row(&mut ids, [
                0.3314, 0.1901, -0.2715, 0.1083, 0.0523, 0.2471, 0.3526, -0.3369,
            ]),
        },
        w_v: Linear {
            weight: mat(&mut ids, [
                [
                    0.2284, -0.1289, 0.0660, 0.3557, 0.0571, -0.1956, 0.3716, -0.3293,
                ],
                [
                    0.0483, 0.1731, 0.2582, 0.1026, -0.1180, -0.0721, -0.1970, -0.3602,
                ],
                [
                    -0.1556, 0.0342, 0.2193, -0.2418, 0.2231, -0.0216, 0.0725, -0.2824,
                ],
                [
                    -0.1965, -0.0953, -0.2434, 0.1300, -0.3424, 0.2907, -0.1313, 0.3331,
                ],
                [
                    0.0551, 0.1247, 0.2200, 0.0062, -0.4232, -0.1389, 0.1476, -0.0718,
                ],
                [
                    -0.0776, -0.3066, -0.0368, -0.1757, -0.0697, -0.2670, 0.1791, 0.2097,
                ],
                [
                    -0.0299, 0.3960, 0.1764, 0.0571, 0.2683, -0.3625, 0.2716, -0.1853,
                ],
                [
                    -0.3581, -0.1497, -0.2204, -0.1340, -0.0511, 0.2451, -0.1244, 0.1805,
                ],
            ]),
            bias: row(&mut ids, [
                -0.0994, -0.1629, -0.2694, -0.0869, 0.1631, -0.1892, -0.0901, 0.3148,
            ]),
        },
        w_o: Linear {
            weight: mat(&mut ids, [
                [
                    0.1190, -0.2099, 0.1869, -0.3508, 0.0826, -0.3263, 0.2366, -0.2100,
                ],
                [
                    0.2002, -0.2365, -0.1015, 0.2539, -0.1125, 0.2926, -0.0981, -0.1495,
                ],
                [
                    -0.1831, 0.0348, 0.2623, 0.1650, 0.2114, -0.0376, 0.1850, -0.3326,
                ],
                [
                    -0.0636, 0.1737, -0.1024, -0.0246, 0.2178, -0.3127, -0.0506, 0.0568,
                ],
                [
                    -0.3384, -0.1202, -0.2316, 0.0117, 0.2929, -0.2060, 0.1966, -0.3274,
                ],
                [
                    0.2589, 0.3003, -0.2277, 0.2488, -0.0594, -0.0645, 0.0931, 0.2376,
                ],
                [
                    0.3371, 0.0463, -0.1292, 0.1341, 0.2008, -0.0325, 0.0914, 0.0517,
                ],
                [
                    -0.2241, 0.0426, 0.2326, -0.3048, -0.2760, -0.0868, -0.2429, 0.1446,
                ],
            ]),
            bias: row(&mut ids, [
                0.0800, 0.0567, 0.2609, -0.1651, -0.0820, -0.1058, -0.3133, -0.1181,
            ]),
        },
    };
    let x = mat(&mut ids, [
        [
            0.7207, 0.3572, 0.2341, 0.4865, 0.2949, 0.5450, 0.8236, 0.4674,
        ],
        [
            0.4800, 0.6774, 0.9052, 0.4714, 0.5683, 0.7339, 0.1975, 0.3909,
        ],
    ]); // Sequence of 2 token vectors with 8 dims each
    let y = model.forward(&mut ids, x);
    assert_close(
        &y,
        &[
            [
                0.3727123,
                -0.06548928,
                0.1931893,
                0.015571773,
                0.16583481,
                -0.073905066,
                -0.19729866,
                -0.21708608,
            ],
            [
                0.37352866,
                -0.067618236,
                0.19414166,
                0.016556486,
                0.16638368,
                -0.074163824,
                -0.19822657,
                -0.21566412,
            ],
        ],
    );
}


