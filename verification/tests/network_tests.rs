use feedforward::network::{DimensionError, LayerBuilder, NetworkBuilder, Network};

fn bits(v: &[f64]) -> Vec<u64> {
    let mut r = Vec::new();
    for x in v {
        r.push(x.to_bits());
    }
    r
}

fn floats(v: &[u64]) -> Vec<f64> {
    let mut r = Vec::new();
    for x in v {
        r.push(f64::from_bits(*x));
    }
    r
}

/// The categorical cross-entropy of an output distribution against a
/// target, accumulated left to right exactly as the engine does.
fn cross_entropy(p: &[f64], t: &[f64]) -> f64 {
    let mut s = 0.0f64;
    for j in 0..t.len() {
        s = s + t[j] * libm::log(p[j]);
    }
    0.0 - s
}

fn small_net() -> Network {
    // topology 2 -> 2 -> 2 with fixed parameters
    let params = bits(&[
        0.5, -1.0, 0.25, 0.75, // hidden weights, row-major
        0.1, -0.3, // hidden biases
        1.0, -0.5, 0.2, 0.4, // output weights
        0.0, 0.05, // output biases
    ]);
    NetworkBuilder::new().learning_rate(1.0f64.to_bits()).input_size(2).output_size(2).hidden(
        LayerBuilder::new().neurons(2),
    ).build_with_params(&params).unwrap()
}

#[test]
fn eval_rejects_wrong_input_length() {
    let net = small_net();
    let r = net.eval(&bits(&[1.0, 2.0, 3.0]));
    assert_eq!(r.err(), Some(DimensionError::InputLength));
    let r = net.eval(&bits(&[1.0]));
    assert_eq!(r.err(), Some(DimensionError::InputLength));
}

#[test]
fn train_rejects_wrong_lengths_and_mutates_nothing() {
    let mut net = small_net();
    let before = net.to_params();
    let r = net.train(&bits(&[1.0]), &bits(&[1.0, 0.0]));
    assert_eq!(r.err(), Some(DimensionError::InputLength));
    assert_eq!(net.to_params(), before);
    let r = net.train(&bits(&[1.0, 2.0]), &bits(&[1.0, 0.0, 0.0]));
    assert_eq!(r.err(), Some(DimensionError::TargetLength));
    assert_eq!(net.to_params(), before);
}

#[test]
fn output_is_a_distribution() {
    let net = NetworkBuilder::new().learning_rate(0.1f64.to_bits()).input_size(4).output_size(3)
        .hidden(LayerBuilder::new().neurons(5)).build().unwrap();
    let out = floats(&net.eval(&bits(&[0.9, -0.7, 0.2, 0.4])).unwrap());
    assert_eq!(out.len(), 3);
    let mut sum = 0.0f64;
    for p in &out {
        assert!(*p >= 0.0 && *p <= 1.0);
        sum += *p;
    }
    assert!((sum - 1.0).abs() < 1e-6);
}

#[test]
fn zero_network_gives_uniform_output() {
    // all-zero parameters: ReLU of zero is zero, so the output layer sees a
    // zero vector and softmax returns the uniform distribution
    let params: Vec<u64> = vec![0.0f64.to_bits(); (3 * 3 + 3) + (4 * 3 + 4)];
    let net = NetworkBuilder::new().learning_rate(0.1f64.to_bits()).input_size(3).output_size(4)
        .hidden(LayerBuilder::new().neurons(3)).build_with_params(&params).unwrap();
    let out = floats(&net.eval(&bits(&[0.0, 0.0, 0.0])).unwrap());
    for p in &out {
        assert!((p - 0.25).abs() < 1e-12);
        assert_eq!(*p, out[0]);
    }
}

#[test]
fn eval_is_idempotent() {
    let net = NetworkBuilder::new().learning_rate(0.1f64.to_bits()).input_size(3).output_size(2)
        .hidden(LayerBuilder::new().neurons(4)).build().unwrap();
    let x = bits(&[0.3, -0.8, 0.05]);
    let a = net.eval(&x).unwrap();
    let b = net.eval(&x).unwrap();
    assert_eq!(a, b);
}

#[test]
fn forward_pass_matches_hand_computation() {
    let net = small_net();
    let x = [1.0f64, 2.0];
    // the engine's exact operation order: a running sum from zero, then the
    // bias; ReLU on the hidden layer; shifted softmax on the output layer
    let w0 = [[0.5f64, -1.0], [0.25, 0.75]];
    let b0 = [0.1f64, -0.3];
    let mut h = [0.0f64; 2];
    for j in 0..2 {
        let mut acc = 0.0f64;
        for k in 0..2 {
            acc = acc + w0[j][k] * x[k];
        }
        let pre = acc + b0[j];
        h[j] = if 0.0 < pre { pre } else { 0.0 };
    }
    let w1 = [[1.0f64, -0.5], [0.2, 0.4]];
    let b1 = [0.0f64, 0.05];
    let mut pre1 = [0.0f64; 2];
    for j in 0..2 {
        let mut acc = 0.0f64;
        for k in 0..2 {
            acc = acc + w1[j][k] * h[k];
        }
        pre1[j] = acc + b1[j];
    }
    let mut m = pre1[0];
    for j in 1..2 {
        if m < pre1[j] {
            m = pre1[j];
        }
    }
    let mut e = [0.0f64; 2];
    for j in 0..2 {
        e[j] = libm::exp(pre1[j] - m);
    }
    let mut s = 0.0f64;
    for j in 0..2 {
        s = s + e[j];
    }
    let mut expected = [0.0f64; 2];
    for j in 0..2 {
        expected[j] = e[j] / s;
    }
    let out = net.eval(&bits(&x)).unwrap();
    assert_eq!(out, bits(&expected));
}

#[test]
fn train_returns_cross_entropy_of_forward_pass() {
    let mut net = small_net();
    let x = bits(&[1.0, 2.0]);
    let t = bits(&[1.0, 0.0]);
    let out = floats(&net.eval(&x).unwrap());
    let expected = cross_entropy(&out, &[1.0, 0.0]);
    let loss = net.train(&x, &t).unwrap();
    assert_eq!(loss, expected.to_bits());
}

#[test]
fn one_step_decreases_loss() {
    // the monotone-improvement property of gradient descent, checked over
    // several random initializations with a small learning rate
    for _ in 0..10 {
        let mut net = NetworkBuilder::new().learning_rate(0.01f64.to_bits()).input_size(3)
            .output_size(2).hidden(LayerBuilder::new().neurons(4)).build().unwrap();
        let x = bits(&[0.4, -0.9, 0.7]);
        let t = bits(&[0.0, 1.0]);
        let loss_before = f64::from_bits(net.train(&x, &t).unwrap());
        let out_after = floats(&net.eval(&x).unwrap());
        let loss_after = cross_entropy(&out_after, &[0.0, 1.0]);
        assert!(loss_after < loss_before + 1e-12);
    }
}

#[test]
fn backpropagation_matches_finite_differences() {
    let x = [0.8f64, -0.4];
    let t = [0.0f64, 1.0];
    let build = |params: &Vec<u64>| -> Network {
        NetworkBuilder::new().learning_rate(1.0f64.to_bits()).input_size(2).output_size(2).hidden(
            LayerBuilder::new().neurons(3),
        ).build_with_params(params).unwrap()
    };
    let params0 = bits(&[
        0.3, -0.2, 0.15, 0.45, -0.35, 0.1, // hidden weights
        0.05, -0.15, 0.2, // hidden biases
        0.4, -0.3, 0.25, -0.1, 0.35, -0.45, // output weights
        0.1, -0.05, // output biases
    ]);
    // the analytic gradient: with a unit learning rate, the parameter drop
    // of one training step
    let mut net = build(&params0);
    net.train(&bits(&x), &bits(&t)).unwrap();
    let params1 = net.to_params();
    let loss_at = |params: &Vec<f64>| -> f64 {
        let net = build(&bits(params));
        let out = floats(&net.eval(&bits(&x)).unwrap());
        cross_entropy(&out, &t)
    };
    let eps = 1e-6f64;
    for idx in 0..params0.len() {
        let grad = f64::from_bits(params0[idx]) - f64::from_bits(params1[idx]);
        let mut plus = floats(&params0);
        plus[idx] += eps;
        let mut minus = floats(&params0);
        minus[idx] -= eps;
        let fd = (loss_at(&plus) - loss_at(&minus)) / (2.0 * eps);
        assert!(
            (grad - fd).abs() < 1e-4,
            "parameter {}: analytic {} vs finite difference {}",
            idx,
            grad,
            fd
        );
    }
}

#[test]
fn end_to_end_learns_a_fixed_example() {
    let mut net = NetworkBuilder::new().learning_rate(0.1f64.to_bits()).input_size(4)
        .output_size(2).hidden(LayerBuilder::new().neurons(3)).build().unwrap();
    let x = bits(&[1.0, 0.0, 0.0, 0.0]);
    let t = bits(&[1.0, 0.0]);
    for _ in 0..1000 {
        net.train(&x, &t).unwrap();
    }
    let out = floats(&net.eval(&x).unwrap());
    assert!(out[0] > 0.9, "first component is {}", out[0]);
}
