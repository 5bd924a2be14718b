use feedforward::network::{ConfigError, LayerBuilder, NetworkBuilder};

fn base() -> NetworkBuilder {
    NetworkBuilder::new()
        .learning_rate(0.1f64.to_bits())
        .input_size(3)
        .output_size(2)
        .hidden(LayerBuilder::new().neurons(4))
}

#[test]
fn missing_learning_rate() {
    let r = NetworkBuilder::new().input_size(3).output_size(2).hidden(
        LayerBuilder::new().neurons(4),
    ).build();
    assert_eq!(r.err(), Some(ConfigError::MissingLearningRate));
}

#[test]
fn invalid_learning_rate_zero() {
    let r = NetworkBuilder::new().learning_rate(0.0f64.to_bits()).input_size(3).output_size(2)
        .hidden(LayerBuilder::new().neurons(4)).build();
    assert_eq!(r.err(), Some(ConfigError::InvalidLearningRate));
}

#[test]
fn invalid_learning_rate_negative() {
    let r = NetworkBuilder::new().learning_rate((-0.5f64).to_bits()).input_size(3).output_size(2)
        .hidden(LayerBuilder::new().neurons(4)).build();
    assert_eq!(r.err(), Some(ConfigError::InvalidLearningRate));
}

#[test]
fn invalid_learning_rate_nan() {
    let r = NetworkBuilder::new().learning_rate(f64::NAN.to_bits()).input_size(3).output_size(2)
        .hidden(LayerBuilder::new().neurons(4)).build();
    assert_eq!(r.err(), Some(ConfigError::InvalidLearningRate));
}

#[test]
fn missing_input_size() {
    let r = NetworkBuilder::new().learning_rate(0.1f64.to_bits()).output_size(2).hidden(
        LayerBuilder::new().neurons(4),
    ).build();
    assert_eq!(r.err(), Some(ConfigError::MissingInputSize));
}

#[test]
fn invalid_input_size_zero() {
    let r = NetworkBuilder::new().learning_rate(0.1f64.to_bits()).input_size(0).output_size(2)
        .hidden(LayerBuilder::new().neurons(4)).build();
    assert_eq!(r.err(), Some(ConfigError::InvalidInputSize));
}

#[test]
fn missing_output_size() {
    let r = NetworkBuilder::new().learning_rate(0.1f64.to_bits()).input_size(3).hidden(
        LayerBuilder::new().neurons(4),
    ).build();
    assert_eq!(r.err(), Some(ConfigError::MissingOutputSize));
}

#[test]
fn invalid_output_size_zero() {
    let r = NetworkBuilder::new().learning_rate(0.1f64.to_bits()).input_size(3).output_size(0)
        .hidden(LayerBuilder::new().neurons(4)).build();
    assert_eq!(r.err(), Some(ConfigError::InvalidOutputSize));
}

#[test]
fn no_hidden_layers() {
    let r = NetworkBuilder::new().learning_rate(0.1f64.to_bits()).input_size(3).output_size(2)
        .build();
    assert_eq!(r.err(), Some(ConfigError::NoHiddenLayers));
}

#[test]
fn missing_neurons() {
    let r = NetworkBuilder::new().learning_rate(0.1f64.to_bits()).input_size(3).output_size(2)
        .hidden(LayerBuilder::new()).build();
    assert_eq!(r.err(), Some(ConfigError::MissingNeurons));
}

#[test]
fn invalid_neurons_zero() {
    let r = NetworkBuilder::new().learning_rate(0.1f64.to_bits()).input_size(3).output_size(2)
        .hidden(LayerBuilder::new().neurons(0)).build();
    assert_eq!(r.err(), Some(ConfigError::InvalidNeurons));
}

#[test]
fn too_many_weights() {
    let r = NetworkBuilder::new().learning_rate(0.1f64.to_bits()).input_size(usize::MAX)
        .output_size(2).hidden(LayerBuilder::new().neurons(usize::MAX)).build();
    assert_eq!(r.err(), Some(ConfigError::TooManyWeights));
}

#[test]
fn wrong_parameter_count_short() {
    let params: Vec<u64> = vec![0u64; 5];
    let r = base().build_with_params(&params);
    assert_eq!(r.err(), Some(ConfigError::WrongParameterCount));
}

#[test]
fn wrong_parameter_count_long() {
    // topology 3 -> 4 -> 2: (4 * 3 + 4) + (2 * 4 + 2) = 26 parameters
    let params: Vec<u64> = vec![0u64; 27];
    let r = base().build_with_params(&params);
    assert_eq!(r.err(), Some(ConfigError::WrongParameterCount));
}

#[test]
fn build_with_params_validates_first() {
    let params: Vec<u64> = vec![0u64; 26];
    let r = NetworkBuilder::new().input_size(3).output_size(2).hidden(
        LayerBuilder::new().neurons(4),
    ).build_with_params(&params);
    assert_eq!(r.err(), Some(ConfigError::MissingLearningRate));
}

#[test]
fn build_reports_configured_sizes() {
    let net = base().build().unwrap();
    assert_eq!(net.input_size(), 3);
    assert_eq!(net.output_size(), 2);
    assert_eq!(net.layer_count(), 2);
    assert_eq!(net.learning_rate(), 0.1f64.to_bits());
}

#[test]
fn initialization_stays_in_range() {
    let net = base().build().unwrap();
    let params = net.to_params();
    // topology 3 -> 4 -> 2: 16 + 10 parameters
    assert_eq!(params.len(), 26);
    for p in params {
        let v = f64::from_bits(p);
        assert!(v >= -0.5 && v < 0.5);
    }
}

#[test]
fn params_round_trip() {
    let mut params: Vec<u64> = Vec::new();
    for i in 0..26u32 {
        params.push((0.01 * f64::from(i) - 0.1).to_bits());
    }
    let net = base().build_with_params(&params).unwrap();
    assert_eq!(net.to_params(), params);
}

#[test]
fn builder_accepts_several_hidden_layers() {
    let net = NetworkBuilder::new().learning_rate(0.05f64.to_bits()).input_size(5).output_size(3)
        .hidden(LayerBuilder::new().neurons(7)).hidden(LayerBuilder::new().neurons(4)).build()
        .unwrap();
    assert_eq!(net.layer_count(), 3);
    assert_eq!(net.output_size(), 3);
    // (7 * 5 + 7) + (4 * 7 + 4) + (3 * 4 + 3) = 42 + 32 + 15
    assert_eq!(net.to_params().len(), 89);
}
