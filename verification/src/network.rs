//! The network engine: a validating builder, dense layers, forward
//! propagation with rectified-linear hidden activations and a numerically
//! stable softmax output layer, and a gradient-descent training step driven
//! by backpropagation of the softmax/cross-entropy error signal.
//!
//! Contracts are stated over the bit patterns of IEEE-754 binary64 scalars;
//! the module `scalar` gives the model of the arithmetic.

use vstd::prelude::*;
use vstd::arithmetic::div_mod::{lemma_fundamental_div_mod, lemma_mod_bound, lemma_div_by_multiple};
use vstd::arithmetic::mul::{lemma_mul_inequality, lemma_mul_is_commutative, lemma_mul_nonnegative};
use crate::scalar::{
    POS_ZERO, EXPONENT_MASK, add_bits, sub_bits, mul_bits, div_bits, exp_bits, ln_bits,
    lt_bits, relu_bits, is_pos_finite_bits, in_init_range, fadd, fsub, fmul, fdiv, fexp,
    fln, flt, frelu, fresh_rng, sample_init,
};

verus! {

/// Why a configuration could not be turned into a network.
#[derive(Clone, Copy, Debug, PartialEq, Eq, Structural)]
pub enum ConfigError {
    /// No learning rate was supplied.
    MissingLearningRate,
    /// The learning rate is not a strictly positive finite number.
    InvalidLearningRate,
    /// No input size was supplied.
    MissingInputSize,
    /// The input size is zero.
    InvalidInputSize,
    /// No output size was supplied.
    MissingOutputSize,
    /// The output size is zero.
    InvalidOutputSize,
    /// No hidden layer was registered; at least one is required.
    NoHiddenLayers,
    /// A hidden-layer specification carries no neuron count.
    MissingNeurons,
    /// A hidden-layer specification asks for zero neurons.
    InvalidNeurons,
    /// Some layer's weight matrix would not fit in memory.
    TooManyWeights,
    /// The supplied parameter vector does not match the topology's size.
    WrongParameterCount,
}

/// Why a forward pass or a training step rejected its vectors.
#[derive(Clone, Copy, Debug, PartialEq, Eq, Structural)]
pub enum DimensionError {
    /// The input vector's length is not the network's input size.
    InputLength,
    /// The target vector's length is not the network's output size.
    TargetLength,
}

/// The running sum, left to right, of the first `n` products of a weight row
/// (the `n` entries of `w` from `off` on) with the entries of `x`, starting
/// from positive zero.
pub open spec fn row_dot(w: Seq<u64>, off: int, x: Seq<u64>, n: int) -> u64
    decreases n,
{
    if n <= 0 {
        POS_ZERO
    } else {
        add_bits(row_dot(w, off, x, n - 1), mul_bits(w[off + n - 1], x[n - 1]))
    }
}

/// The running sum, left to right, of the first `n` products of one column
/// of a row-major matrix `w` with `cols` columns with the entries of `d`.
pub open spec fn col_dot(w: Seq<u64>, cols: int, col: int, d: Seq<u64>, n: int) -> u64
    decreases n,
{
    if n <= 0 {
        POS_ZERO
    } else {
        add_bits(col_dot(w, cols, col, d, n - 1), mul_bits(w[(n - 1) * cols + col], d[n - 1]))
    }
}

/// The largest of the first `n` entries of `s` under the IEEE-754 ordered
/// comparison, scanning left to right.
pub open spec fn seq_max(s: Seq<u64>, n: int) -> u64
    decreases n,
{
    if n <= 1 {
        s[0]
    } else if lt_bits(seq_max(s, n - 1), s[n - 1]) {
        s[n - 1]
    } else {
        seq_max(s, n - 1)
    }
}

/// The running sum, left to right, of the first `n` entries of `s`, starting
/// from positive zero.
pub open spec fn seq_sum(s: Seq<u64>, n: int) -> u64
    decreases n,
{
    if n <= 0 {
        POS_ZERO
    } else {
        add_bits(seq_sum(s, n - 1), s[n - 1])
    }
}

/// The rectified-linear activation applied to every entry.
pub open spec fn relu_seq(s: Seq<u64>) -> Seq<u64> {
    Seq::new(s.len(), |j: int| relu_bits(s[j]))
}

/// The shifted exponentials of the softmax: each entry less the largest,
/// exponentiated.
pub open spec fn exp_shift_seq(s: Seq<u64>) -> Seq<u64> {
    Seq::new(s.len(), |j: int| exp_bits(sub_bits(s[j], seq_max(s, s.len() as int))))
}

/// The numerically stable softmax: subtract the largest entry, exponentiate,
/// and divide each exponential by their running sum.
pub open spec fn softmax_bits(s: Seq<u64>) -> Seq<u64> {
    Seq::new(s.len(), |j: int| div_bits(exp_shift_seq(s)[j], seq_sum(exp_shift_seq(s), s.len() as int)))
}

/// The running sum, left to right, of `t[j] * ln(p[j])` over the first `n`
/// entries; the categorical cross-entropy loss is its negation.
pub open spec fn loss_sum(p: Seq<u64>, t: Seq<u64>, n: int) -> u64
    decreases n,
{
    if n <= 0 {
        POS_ZERO
    } else {
        add_bits(loss_sum(p, t, n - 1), mul_bits(t[n - 1], ln_bits(p[n - 1])))
    }
}

/// One dense layer: a row-major weight matrix with one row per neuron, one
/// bias per neuron, and a flag selecting the output activation.
pub struct Layer {
    weights: Vec<u64>,
    biases: Vec<u64>,
    output: bool,
}

impl Layer {
    /// The layer's neuron count: the length of its bias vector.
    pub closed spec fn spec_neurons(&self) -> int {
        self.biases@.len() as int
    }

    /// The layer's input width, derived from the weight count.
    pub closed spec fn spec_inputs(&self) -> int {
        if self.spec_neurons() == 0 {
            0
        } else {
            self.weights@.len() as int / self.spec_neurons()
        }
    }

    /// Whether this is the output layer (softmax instead of rectification).
    pub closed spec fn spec_output(&self) -> bool {
        self.output
    }

    /// The flattened row-major weight matrix.
    pub closed spec fn spec_weights(&self) -> Seq<u64> {
        self.weights@
    }

    /// The bias vector.
    pub closed spec fn spec_biases(&self) -> Seq<u64> {
        self.biases@
    }

    /// Shape invariant: at least one neuron and one input, and exactly
    /// `neurons * inputs` weights.
    pub closed spec fn wf(&self) -> bool {
        &&& self.spec_neurons() >= 1
        &&& self.spec_inputs() >= 1
        &&& self.weights@.len() == self.spec_neurons() * self.spec_inputs()
    }

    /// The pre-activation vector on input `x`: for each neuron, the running
    /// dot product of its weight row with `x`, plus its bias.
    pub closed spec fn spec_pre(&self, x: Seq<u64>) -> Seq<u64> {
        Seq::new(
            self.spec_neurons() as nat,
            |j: int| add_bits(
                row_dot(self.weights@, j * self.spec_inputs(), x, self.spec_inputs()),
                self.biases@[j],
            ),
        )
    }

    /// The post-activation vector: softmax for the output layer,
    /// rectification otherwise.
    pub closed spec fn spec_post(&self, pre: Seq<u64>) -> Seq<u64> {
        if self.output {
            softmax_bits(pre)
        } else {
            relu_seq(pre)
        }
    }

    /// The layer's neuron count.
    pub fn neurons(&self) -> (n: usize)
        ensures
            n == self.spec_neurons(),
    {
        self.biases.len()
    }

    /// The layer's input width.
    pub fn inputs(&self) -> (n: usize)
        requires
            self.spec_neurons() >= 1,
        ensures
            n == self.spec_inputs(),
    {
        self.weights.len() / self.biases.len()
    }

    /// A freshly initialized dense layer: `neurons` rows of `inputs` weights
    /// and one bias per neuron, every parameter drawn from [-0.5, 0.5).
    fn new_random(inputs: usize, neurons: usize, output: bool, rng: &mut rand::rngs::ThreadRng) -> (r: Layer)
        requires
            1 <= inputs,
            1 <= neurons,
            inputs * neurons <= usize::MAX,
        ensures
            r.wf(),
            r.spec_inputs() == inputs,
            r.spec_neurons() == neurons,
            r.spec_output() == output,
            forall|k: int| 0 <= k < r.spec_weights().len() ==> in_init_range(#[trigger] r.spec_weights()[k]),
            forall|k: int| 0 <= k < r.spec_biases().len() ==> in_init_range(#[trigger] r.spec_biases()[k]),
    {
        let total = neurons * inputs;
        let mut weights: Vec<u64> = Vec::new();
        let mut idx: usize = 0;
        while idx < total
            invariant
                weights@.len() == idx,
                idx <= total,
                forall|k: int| 0 <= k < idx ==> in_init_range(#[trigger] weights@[k]),
            decreases total - idx,
        {
            weights.push(sample_init(rng));
            idx += 1;
        }
        let mut biases: Vec<u64> = Vec::new();
        let mut j: usize = 0;
        while j < neurons
            invariant
                biases@.len() == j,
                j <= neurons,
                forall|k: int| 0 <= k < j ==> in_init_range(#[trigger] biases@[k]),
            decreases neurons - j,
        {
            biases.push(sample_init(rng));
            j += 1;
        }
        let r = Layer { weights, biases, output };
        proof {
            lemma_div_by_multiple(inputs as int, neurons as int);
            assert(r.spec_inputs() == inputs);
        }
        r
    }

    /// The pre-activation sums on input `x`: for each neuron, its weight row
    /// dotted with `x` left to right, plus its bias.
    fn compute_pre(&self, x: &Vec<u64>) -> (r: Vec<u64>)
        requires
            self.wf(),
            x@.len() == self.spec_inputs(),
        ensures
            r@ == self.spec_pre(x@),
            r@.len() == self.spec_neurons(),
    {
        let neurons = self.biases.len();
        let inputs = self.weights.len() / neurons;
        let wlen = self.weights.len();
        let mut r: Vec<u64> = Vec::new();
        let mut j: usize = 0;
        while j < neurons
            invariant
                j <= neurons,
                r@.len() == j,
                self.wf(),
                x@.len() == self.spec_inputs(),
                neurons == self.spec_neurons(),
                inputs == self.spec_inputs(),
                wlen == self.spec_weights().len(),
                forall|t: int| 0 <= t < j ==> #[trigger] r@[t] == add_bits(
                    row_dot(self.spec_weights(), t * self.spec_inputs(), x@, self.spec_inputs()),
                    self.spec_biases()[t],
                ),
            decreases neurons - j,
        {
            proof {
                lemma_flat_index(j as int, 0, inputs as int, neurons as int);
                assert(neurons * inputs == self.spec_weights().len());
            }
            let off = j * inputs;
            let mut acc: u64 = POS_ZERO;
            let mut k: usize = 0;
            while k < inputs
                invariant
                    k <= inputs,
                    j < neurons,
                    off == j * inputs,
                    self.wf(),
                    x@.len() == self.spec_inputs(),
                    neurons == self.spec_neurons(),
                    inputs == self.spec_inputs(),
                    wlen == self.spec_weights().len(),
                    acc == row_dot(self.spec_weights(), off as int, x@, k as int),
                decreases inputs - k,
            {
                proof {
                    lemma_flat_index(j as int, k as int, inputs as int, neurons as int);
                    assert(neurons * inputs == self.spec_weights().len());
                }
                acc = fadd(acc, fmul(self.weights[off + k], x[k]));
                k += 1;
            }
            r.push(fadd(acc, self.biases[j]));
            j += 1;
        }
        proof {
            assert(r@ =~= self.spec_pre(x@));
        }
        r
    }
}

/// The neuron count recorded in one hidden-layer specification, zero when
/// none was supplied.
pub open spec fn hidden_count(h: Seq<Option<usize>>, i: int) -> int {
    match h[i] {
        Some(n) => n as int,
        None => 0,
    }
}

/// The input width of the `i`-th constructed layer: the configured input
/// size for the first, the previous hidden layer's neuron count after that.
pub open spec fn dim_inputs(ins: int, h: Seq<Option<usize>>, i: int) -> int {
    if i <= 0 {
        ins
    } else {
        hidden_count(h, i - 1)
    }
}

/// The neuron count of the `i`-th constructed layer: the configured count
/// for hidden layers, the output size for the final layer.
pub open spec fn dim_neurons(outs: int, h: Seq<Option<usize>>, i: int) -> int {
    if i >= h.len() {
        outs
    } else {
        hidden_count(h, i)
    }
}

/// The first fault among the hidden-layer specifications from index `i` on:
/// a missing neuron count, or a zero one.
pub open spec fn hidden_error_at(h: Seq<Option<usize>>, i: int) -> Option<ConfigError>
    decreases h.len() - i,
{
    if i < 0 || i >= h.len() {
        None
    } else {
        match h[i] {
            None => Some(ConfigError::MissingNeurons),
            Some(n) => if n == 0 {
                Some(ConfigError::InvalidNeurons)
            } else {
                hidden_error_at(h, i + 1)
            },
        }
    }
}

/// The first layer from index `i` on whose weight matrix would overflow a
/// `usize`, if any.
pub open spec fn size_error_at(ins: int, outs: int, h: Seq<Option<usize>>, i: int) -> Option<ConfigError>
    decreases h.len() + 1 - i,
{
    if i < 0 || i > h.len() {
        None
    } else if dim_inputs(ins, h, i) * dim_neurons(outs, h, i) > usize::MAX as int {
        Some(ConfigError::TooManyWeights)
    } else {
        size_error_at(ins, outs, h, i + 1)
    }
}

/// One hidden layer's configuration: its neuron count, once chosen.
#[derive(Clone, Copy)]
pub struct LayerBuilder {
    neurons: Option<usize>,
}

impl LayerBuilder {
    /// The recorded neuron count.
    pub closed spec fn spec_neurons(&self) -> Option<usize> {
        self.neurons
    }

    /// A hidden-layer specification with no neuron count chosen yet.
    pub fn new() -> (r: Self)
        ensures
            r.spec_neurons() is None,
    {
        LayerBuilder { neurons: None }
    }

    /// Chooses the layer's neuron count.
    pub fn neurons(self, neurons: usize) -> (r: Self)
        ensures
            r.spec_neurons() == Some(neurons),
    {
        LayerBuilder { neurons: Some(neurons) }
    }
}

/// Accumulating configuration for a network: learning rate, input and output
/// sizes, and the ordered hidden-layer specifications. Nothing is validated
/// until `build`.
pub struct NetworkBuilder {
    learning_rate: Option<u64>,
    input_size: Option<usize>,
    output_size: Option<usize>,
    hidden: Vec<LayerBuilder>,
}

impl Default for NetworkBuilder {
    /// An empty configuration: nothing chosen yet.
    fn default() -> (r: Self)
        ensures
            r.spec_learning_rate() is None,
            r.spec_input_size() is None,
            r.spec_output_size() is None,
            r.spec_hidden() == Seq::<Option<usize>>::empty(),
    {
        let r = NetworkBuilder {
            learning_rate: None,
            input_size: None,
            output_size: None,
            hidden: Vec::new(),
        };
        proof {
            assert(r.spec_hidden() =~= Seq::<Option<usize>>::empty());
        }
        r
    }
}

impl NetworkBuilder {
    /// The recorded learning rate (a binary64 bit pattern).
    pub closed spec fn spec_learning_rate(&self) -> Option<u64> {
        self.learning_rate
    }

    /// The recorded input size.
    pub closed spec fn spec_input_size(&self) -> Option<usize> {
        self.input_size
    }

    /// The recorded output size.
    pub closed spec fn spec_output_size(&self) -> Option<usize> {
        self.output_size
    }

    /// The recorded hidden-layer neuron counts, in registration order.
    pub closed spec fn spec_hidden(&self) -> Seq<Option<usize>> {
        self.hidden@.map_values(|lb: LayerBuilder| lb.neurons)
    }

    /// An empty configuration: nothing chosen yet.
    pub fn new() -> (r: Self)
        ensures
            r.spec_learning_rate() is None,
            r.spec_input_size() is None,
            r.spec_output_size() is None,
            r.spec_hidden() == Seq::<Option<usize>>::empty(),
    {
        Self::default()
    }

    /// Chooses the learning rate, given as a binary64 bit pattern.
    pub fn learning_rate(self, learning_rate: u64) -> (r: Self)
        ensures
            r.spec_learning_rate() == Some(learning_rate),
            r.spec_input_size() == self.spec_input_size(),
            r.spec_output_size() == self.spec_output_size(),
            r.spec_hidden() == self.spec_hidden(),
    {
        NetworkBuilder {
            learning_rate: Some(learning_rate),
            input_size: self.input_size,
            output_size: self.output_size,
            hidden: self.hidden,
        }
    }

    /// Chooses the input size.
    pub fn input_size(self, input_size: usize) -> (r: Self)
        ensures
            r.spec_input_size() == Some(input_size),
            r.spec_learning_rate() == self.spec_learning_rate(),
            r.spec_output_size() == self.spec_output_size(),
            r.spec_hidden() == self.spec_hidden(),
    {
        NetworkBuilder {
            learning_rate: self.learning_rate,
            input_size: Some(input_size),
            output_size: self.output_size,
            hidden: self.hidden,
        }
    }

    /// Chooses the output size.
    pub fn output_size(self, output_size: usize) -> (r: Self)
        ensures
            r.spec_output_size() == Some(output_size),
            r.spec_learning_rate() == self.spec_learning_rate(),
            r.spec_input_size() == self.spec_input_size(),
            r.spec_hidden() == self.spec_hidden(),
    {
        NetworkBuilder {
            learning_rate: self.learning_rate,
            input_size: self.input_size,
            output_size: Some(output_size),
            hidden: self.hidden,
        }
    }

    /// Registers one more hidden layer, after those already registered.
    pub fn hidden(self, layer: LayerBuilder) -> (r: Self)
        ensures
            r.spec_hidden() == self.spec_hidden().push(layer.spec_neurons()),
            r.spec_learning_rate() == self.spec_learning_rate(),
            r.spec_input_size() == self.spec_input_size(),
            r.spec_output_size() == self.spec_output_size(),
    {
        let ghost before = self.spec_hidden();
        let mut hidden = self.hidden;
        hidden.push(layer);
        let r = NetworkBuilder {
            learning_rate: self.learning_rate,
            input_size: self.input_size,
            output_size: self.output_size,
            hidden,
        };
        proof {
            assert(r.spec_hidden() =~= before.push(layer.spec_neurons()));
        }
        r
    }

    /// The first configuration fault, in a fixed order: the learning rate,
    /// the input size, the output size, the hidden-layer list, each hidden
    /// layer in turn, and finally the weight-matrix sizes.
    pub closed spec fn spec_validate(&self) -> Option<ConfigError> {
        match self.learning_rate {
            None => Some(ConfigError::MissingLearningRate),
            Some(lr) => if !is_pos_finite_bits(lr) {
                Some(ConfigError::InvalidLearningRate)
            } else {
                match self.input_size {
                    None => Some(ConfigError::MissingInputSize),
                    Some(ins) => if ins == 0 {
                        Some(ConfigError::InvalidInputSize)
                    } else {
                        match self.output_size {
                            None => Some(ConfigError::MissingOutputSize),
                            Some(outs) => if outs == 0 {
                                Some(ConfigError::InvalidOutputSize)
                            } else if self.spec_hidden().len() == 0 {
                                Some(ConfigError::NoHiddenLayers)
                            } else {
                                match hidden_error_at(self.spec_hidden(), 0) {
                                    Some(e) => Some(e),
                                    None => size_error_at(
                                        ins as int,
                                        outs as int,
                                        self.spec_hidden(),
                                        0,
                                    ),
                                }
                            },
                        }
                    },
                }
            },
        }
    }

    /// The network `net` has exactly the topology this configuration asks
    /// for: one dense layer per registered hidden layer, in order, then the
    /// output layer, with the configured learning rate and sizes.
    pub closed spec fn spec_builds(&self, net: Network) -> bool {
        let h = self.spec_hidden();
        let ins = net.spec_input_size() as int;
        &&& net.wf()
        &&& self.spec_learning_rate() == Some(net.spec_learning_rate())
        &&& self.spec_input_size() == Some(net.spec_input_size())
        &&& self.spec_output_size() matches Some(outs) && net.spec_layers().len() == h.len() + 1
            && forall|i: int| 0 <= i < net.spec_layers().len() ==> {
                let l = #[trigger] net.spec_layers()[i];
                &&& l.spec_inputs() == dim_inputs(ins, h, i)
                &&& l.spec_neurons() == dim_neurons(outs as int, h, i)
            }
    }

    /// Validates the configuration and extracts its plain values: the
    /// learning rate, the sizes, and the hidden neuron counts in order.
    fn checked_counts(&self) -> (r: Result<(u64, usize, usize, Vec<usize>), ConfigError>)
        ensures
            r is Err <==> self.spec_validate() is Some,
            r matches Err(e) ==> self.spec_validate() == Some(e),
            r matches Ok(ok) ==> ({
                let (lr, ins, outs, counts) = ok;
                &&& self.spec_validate() is None
                &&& Some(lr) == self.spec_learning_rate()
                &&& Some(ins) == self.spec_input_size()
                &&& Some(outs) == self.spec_output_size()
                &&& ins >= 1
                &&& outs >= 1
                &&& is_pos_finite_bits(lr)
                &&& counts@.len() == self.spec_hidden().len()
                &&& counts@.len() >= 1
                &&& forall|j: int| 0 <= j < counts@.len() ==> (#[trigger] counts@[j]) as int
                    == hidden_count(self.spec_hidden(), j) && counts@[j] > 0
            }),
    {
        let lr = match self.learning_rate {
            None => {
                return Err(ConfigError::MissingLearningRate);
            },
            Some(v) => v,
        };
        if !(0 < lr && lr < EXPONENT_MASK) {
            return Err(ConfigError::InvalidLearningRate);
        }
        let ins = match self.input_size {
            None => {
                return Err(ConfigError::MissingInputSize);
            },
            Some(v) => v,
        };
        if ins == 0 {
            return Err(ConfigError::InvalidInputSize);
        }
        let outs = match self.output_size {
            None => {
                return Err(ConfigError::MissingOutputSize);
            },
            Some(v) => v,
        };
        if outs == 0 {
            return Err(ConfigError::InvalidOutputSize);
        }
        if self.hidden.len() == 0 {
            return Err(ConfigError::NoHiddenLayers);
        }
        let ghost h = self.spec_hidden();
        let mut counts: Vec<usize> = Vec::new();
        let mut i: usize = 0;
        while i < self.hidden.len()
            invariant
                i <= self.hidden.len(),
                counts@.len() == i,
                h == self.spec_hidden(),
                h.len() == self.hidden@.len(),
                h.len() >= 1,
                self.spec_learning_rate() == Some(lr),
                is_pos_finite_bits(lr),
                self.spec_input_size() == Some(ins),
                ins >= 1,
                self.spec_output_size() == Some(outs),
                outs >= 1,
                forall|j: int| 0 <= j < i ==> (#[trigger] counts@[j]) as int == hidden_count(h, j)
                    && counts@[j] > 0,
                hidden_error_at(h, 0) == hidden_error_at(h, i as int),
            decreases self.hidden.len() - i,
        {
            proof {
                assert(h[i as int] == self.hidden@[i as int].neurons);
            }
            match self.hidden[i].neurons {
                None => {
                    proof {
                        assert(hidden_error_at(h, i as int) == Some(ConfigError::MissingNeurons));
                    }
                    return Err(ConfigError::MissingNeurons);
                },
                Some(n) => {
                    if n == 0 {
                        proof {
                            assert(hidden_error_at(h, i as int) == Some(ConfigError::InvalidNeurons));
                        }
                        return Err(ConfigError::InvalidNeurons);
                    }
                    counts.push(n);
                    proof {
                        assert(hidden_error_at(h, i as int) == hidden_error_at(h, i as int + 1));
                    }
                },
            }
            i += 1;
        }
        let mut i: usize = 0;
        while i < counts.len()
            invariant
                i <= counts.len(),
                counts@.len() == h.len(),
                counts@.len() >= 1,
                h == self.spec_hidden(),
                self.spec_learning_rate() == Some(lr),
                is_pos_finite_bits(lr),
                self.spec_input_size() == Some(ins),
                ins >= 1,
                self.spec_output_size() == Some(outs),
                outs >= 1,
                hidden_error_at(h, 0) is None,
                forall|j: int| 0 <= j < counts@.len() ==> (#[trigger] counts@[j]) as int
                    == hidden_count(h, j) && counts@[j] > 0,
                size_error_at(ins as int, outs as int, h, 0)
                    == size_error_at(ins as int, outs as int, h, i as int),
            decreases counts.len() - i,
        {
            let n_in = if i == 0 {
                ins
            } else {
                counts[i - 1]
            };
            let n_out = counts[i];
            proof {
                assert(n_in as int == dim_inputs(ins as int, h, i as int));
                assert(n_out as int == dim_neurons(outs as int, h, i as int));
                lemma_mul_overflow(n_in as int, n_out as int, usize::MAX as int);
            }
            if n_in > usize::MAX / n_out {
                proof {
                    assert(size_error_at(ins as int, outs as int, h, i as int)
                        == Some(ConfigError::TooManyWeights));
                }
                return Err(ConfigError::TooManyWeights);
            }
            proof {
                assert(size_error_at(ins as int, outs as int, h, i as int)
                    == size_error_at(ins as int, outs as int, h, i as int + 1));
            }
            i += 1;
        }
        let n_in = counts[counts.len() - 1];
        proof {
            assert(n_in as int == dim_inputs(ins as int, h, h.len() as int));
            assert(outs as int == dim_neurons(outs as int, h, h.len() as int));
            lemma_mul_overflow(n_in as int, outs as int, usize::MAX as int);
        }
        if n_in > usize::MAX / outs {
            return Err(ConfigError::TooManyWeights);
        }
        proof {
            assert(size_error_at(ins as int, outs as int, h, h.len() as int)
                == size_error_at(ins as int, outs as int, h, h.len() as int + 1));
        }
        Ok((lr, ins, outs, counts))
    }

    /// Validates the configuration and constructs the network, randomly
    /// initializing every weight and bias in [-0.5, 0.5). The network's
    /// topology is exactly the configured one; on any configuration fault
    /// the specific error comes back and nothing is built.
    pub fn build(self) -> (r: Result<Network, ConfigError>)
        ensures
            r is Err <==> self.spec_validate() is Some,
            r matches Err(e) ==> self.spec_validate() == Some(e),
            r matches Ok(net) ==> self.spec_builds(net) && net.spec_init_ranged(),
    {
        let (lr, ins, outs, counts) = match self.checked_counts() {
            Err(e) => {
                return Err(e);
            },
            Ok(t) => t,
        };
        let ghost h = self.spec_hidden();
        proof {
            assert(size_error_at(ins as int, outs as int, h, 0) is None);
        }
        let mut rng = fresh_rng();
        let mut layers: Vec<Layer> = Vec::new();
        let mut i: usize = 0;
        while i < counts.len()
            invariant
                i <= counts.len(),
                layers@.len() == i,
                counts@.len() == h.len(),
                counts@.len() >= 1,
                ins >= 1,
                outs >= 1,
                forall|j: int| 0 <= j < counts@.len() ==> (#[trigger] counts@[j]) as int
                    == hidden_count(h, j) && counts@[j] > 0,
                size_error_at(ins as int, outs as int, h, i as int) is None,
                forall|j: int| 0 <= j < i ==> {
                    let l = #[trigger] layers@[j];
                    &&& l.wf()
                    &&& l.spec_inputs() == dim_inputs(ins as int, h, j)
                    &&& l.spec_neurons() == dim_neurons(outs as int, h, j)
                    &&& !l.spec_output()
                },
                forall|j: int, k: int| 0 <= j < i && 0 <= k < layers@[j].spec_weights().len()
                    ==> in_init_range(#[trigger] layers@[j].spec_weights()[k]),
                forall|j: int, k: int| 0 <= j < i && 0 <= k < layers@[j].spec_biases().len()
                    ==> in_init_range(#[trigger] layers@[j].spec_biases()[k]),
            decreases counts.len() - i,
        {
            let n_in = if i == 0 {
                ins
            } else {
                counts[i - 1]
            };
            let n_out = counts[i];
            proof {
                assert(n_in as int == dim_inputs(ins as int, h, i as int));
                assert(n_out as int == dim_neurons(outs as int, h, i as int));
                assert(size_error_at(ins as int, outs as int, h, i as int)
                    == size_error_at(ins as int, outs as int, h, i as int + 1));
            }
            let layer = Layer::new_random(n_in, n_out, false, &mut rng);
            layers.push(layer);
            i += 1;
        }
        let n_in = counts[counts.len() - 1];
        proof {
            assert(n_in as int == dim_inputs(ins as int, h, h.len() as int));
            assert(outs as int == dim_neurons(outs as int, h, h.len() as int));
        }
        let out_layer = Layer::new_random(n_in, outs, true, &mut rng);
        layers.push(out_layer);
        let net = Network { learning_rate: lr, input_size: ins, layers };
        proof {
            assert forall|i2: int| 1 <= i2 < net.layers@.len() implies
                (#[trigger] net.layers@[i2]).spec_inputs() == net.layers@[i2 - 1].spec_neurons() by {
                assert(dim_inputs(ins as int, h, i2) == dim_neurons(outs as int, h, i2 - 1));
            }
            assert(net.wf());
            assert(self.spec_builds(net));
            assert(net.spec_init_ranged());
        }
        Ok(net)
    }

    /// The total parameter count of the configured topology.
    pub closed spec fn spec_param_count(&self) -> int {
        match (self.input_size, self.output_size) {
            (Some(ins), Some(outs)) => param_count_from(
                ins as int,
                outs as int,
                self.spec_hidden(),
                0,
            ),
            _ => 0,
        }
    }

    /// Validates the configuration and constructs the network from the
    /// given flattened parameters instead of random ones: every layer's
    /// row-major weights, then its biases, in layer order, exactly as
    /// `Network::to_params` writes them. A vector whose length is not the
    /// topology's parameter count is rejected.
    #[verifier::rlimit(60)]
    pub fn build_with_params(self, params: &Vec<u64>) -> (r: Result<Network, ConfigError>)
        ensures
            r is Ok <==> (self.spec_validate() is None && params@.len()
                == self.spec_param_count()),
            self.spec_validate() matches Some(e) ==> r == Err::<Network, ConfigError>(e),
            self.spec_validate() is None && params@.len() != self.spec_param_count() ==> r
                == Err::<Network, ConfigError>(ConfigError::WrongParameterCount),
            r matches Ok(net) ==> self.spec_builds(net) && net.spec_params() == params@,
    {
        let (lr, ins, outs, counts) = match self.checked_counts() {
            Err(e) => {
                return Err(e);
            },
            Ok(t) => t,
        };
        let ghost h = self.spec_hidden();
        let ghost total = param_count_from(ins as int, outs as int, h, 0);
        proof {
            assert(size_error_at(ins as int, outs as int, h, 0) is None);
            assert(total == self.spec_param_count());
        }
        let mut layers: Vec<Layer> = Vec::new();
        let mut off: usize = 0;
        let mut i: usize = 0;
        while i < counts.len()
            invariant
                i <= counts.len(),
                layers@.len() == i,
                counts@.len() == h.len(),
                counts@.len() >= 1,
                ins >= 1,
                outs >= 1,
                h == self.spec_hidden(),
                self.spec_validate() is None,
                total == self.spec_param_count(),
                total == param_count_from(ins as int, outs as int, h, 0),
                off <= params@.len(),
                off + param_count_from(ins as int, outs as int, h, i as int) == total,
                params_of_layers(layers@, i as int) == params@.subrange(0, off as int),
                forall|j: int| 0 <= j < counts@.len() ==> (#[trigger] counts@[j]) as int
                    == hidden_count(h, j) && counts@[j] > 0,
                size_error_at(ins as int, outs as int, h, i as int) is None,
                forall|j: int| 0 <= j < i ==> {
                    let l = #[trigger] layers@[j];
                    &&& l.wf()
                    &&& l.spec_inputs() == dim_inputs(ins as int, h, j)
                    &&& l.spec_neurons() == dim_neurons(outs as int, h, j)
                    &&& !l.spec_output()
                },
            decreases counts.len() - i,
        {
            let n_in = if i == 0 {
                ins
            } else {
                counts[i - 1]
            };
            let n_out = counts[i];
            proof {
                assert(n_in as int == dim_inputs(ins as int, h, i as int));
                assert(n_out as int == dim_neurons(outs as int, h, i as int));
                assert(size_error_at(ins as int, outs as int, h, i as int)
                    == size_error_at(ins as int, outs as int, h, i as int + 1));
                lemma_param_count_nonneg(ins as int, outs as int, h, i as int + 1);
            }
            let wcount = n_in * n_out;
            if params.len() - off < wcount {
                return Err(ConfigError::WrongParameterCount);
            }
            let w = copy_range(params, off, wcount);
            let off2 = off + wcount;
            if params.len() - off2 < n_out {
                return Err(ConfigError::WrongParameterCount);
            }
            let b = copy_range(params, off2, n_out);
            off = off2 + n_out;
            let layer = Layer { weights: w, biases: b, output: false };
            proof {
                lemma_mul_is_commutative(n_in as int, n_out as int);
                lemma_div_by_multiple(n_in as int, n_out as int);
                assert(layer.wf());
                assert(layer.spec_inputs() == n_in);
            }
            let ghost old_layers = layers@;
            layers.push(layer);
            proof {
                lemma_params_prefix(old_layers, layers@, i as int);
                assert(params_of_layers(layers@, i as int + 1) =~= params@.subrange(
                    0,
                    off as int,
                ));
            }
            i += 1;
        }
        let n_in = counts[counts.len() - 1];
        proof {
            assert(n_in as int == dim_inputs(ins as int, h, h.len() as int));
            assert(outs as int == dim_neurons(outs as int, h, h.len() as int));
            assert(size_error_at(ins as int, outs as int, h, h.len() as int)
                == size_error_at(ins as int, outs as int, h, h.len() as int + 1));
            assert(param_count_from(ins as int, outs as int, h, h.len() as int + 1) == 0);
        }
        let wcount = n_in * outs;
        if params.len() - off < wcount {
            return Err(ConfigError::WrongParameterCount);
        }
        let w = copy_range(params, off, wcount);
        let off2 = off + wcount;
        if params.len() - off2 < outs {
            return Err(ConfigError::WrongParameterCount);
        }
        let b = copy_range(params, off2, outs);
        let off3 = off2 + outs;
        if off3 != params.len() {
            return Err(ConfigError::WrongParameterCount);
        }
        let layer = Layer { weights: w, biases: b, output: true };
        proof {
            lemma_mul_is_commutative(n_in as int, outs as int);
            lemma_div_by_multiple(n_in as int, outs as int);
            assert(layer.wf());
            assert(layer.spec_inputs() == n_in);
        }
        let ghost old_layers = layers@;
        layers.push(layer);
        proof {
            lemma_params_prefix(old_layers, layers@, h.len() as int);
            assert(params_of_layers(layers@, h.len() as int + 1) =~= params@.subrange(
                0,
                off3 as int,
            ));
        }
        let net = Network { learning_rate: lr, input_size: ins, layers };
        proof {
            assert forall|i2: int| 1 <= i2 < net.layers@.len() implies
                (#[trigger] net.layers@[i2]).spec_inputs() == net.layers@[i2 - 1].spec_neurons() by {
                assert(dim_inputs(ins as int, h, i2) == dim_neurons(outs as int, h, i2 - 1));
            }
            assert(net.wf());
            assert(self.spec_builds(net));
            assert(params@.subrange(0, params@.len() as int) =~= params@);
            assert(net.spec_params() == params@);
        }
        Ok(net)
    }
}

/// The flattened parameters of the first `i` layers of a stack, in layer
/// order: each layer's row-major weights, then its biases.
pub open spec fn params_of_layers(ls: Seq<Layer>, i: int) -> Seq<u64>
    decreases i,
{
    if i <= 0 {
        Seq::empty()
    } else {
        params_of_layers(ls, i - 1) + ls[i - 1].spec_weights() + ls[i - 1].spec_biases()
    }
}

/// The parameter count of the configured topology from layer `i` on: for
/// each layer its weight matrix and then its biases.
pub open spec fn param_count_from(ins: int, outs: int, h: Seq<Option<usize>>, i: int) -> int
    decreases h.len() + 1 - i,
{
    if i < 0 || i > h.len() {
        0
    } else {
        dim_inputs(ins, h, i) * dim_neurons(outs, h, i) + dim_neurons(outs, h, i)
            + param_count_from(ins, outs, h, i + 1)
    }
}

/// A topology's parameter count is never negative.
proof fn lemma_param_count_nonneg(ins: int, outs: int, h: Seq<Option<usize>>, i: int)
    requires
        ins >= 0,
        outs >= 0,
    ensures
        param_count_from(ins, outs, h, i) >= 0,
    decreases h.len() + 1 - i,
{
    if i < 0 || i > h.len() {
    } else {
        lemma_param_count_nonneg(ins, outs, h, i + 1);
        lemma_mul_nonnegative(dim_inputs(ins, h, i), dim_neurons(outs, h, i));
    }
}

/// Flattening the first `i` layers of a stack reads only those layers.
proof fn lemma_params_prefix(ls1: Seq<Layer>, ls2: Seq<Layer>, i: int)
    requires
        forall|j: int| 0 <= j < i ==> ls1[j] == ls2[j],
    ensures
        params_of_layers(ls1, i) == params_of_layers(ls2, i),
    decreases i,
{
    if i > 0 {
        lemma_params_prefix(ls1, ls2, i - 1);
    }
}

/// A copy of `count` scalars of `v` starting at `start`.
fn copy_range(v: &Vec<u64>, start: usize, count: usize) -> (r: Vec<u64>)
    requires
        start + count <= v@.len(),
    ensures
        r@ == v@.subrange(start as int, start as int + count as int),
{
    let n = v.len();
    let mut r: Vec<u64> = Vec::new();
    let mut k: usize = 0;
    while k < count
        invariant
            k <= count,
            start + count <= v@.len(),
            n == v@.len(),
            r@.len() == k,
            forall|t: int| 0 <= t < k ==> r@[t] == v@[start + t],
        decreases count - k,
    {
        r.push(v[start + k]);
        k += 1;
    }
    proof {
        assert(r@ =~= v@.subrange(start as int, start as int + count as int));
    }
    r
}

/// A row-major index stays within the matrix: row `j` of `rows`, column `k`
/// of `cols`.
proof fn lemma_flat_index(j: int, k: int, cols: int, rows: int)
    requires
        0 <= j < rows,
        0 <= k < cols,
    ensures
        0 <= j * cols + k < rows * cols,
{
    assert(0 <= j * cols + k < rows * cols) by (nonlinear_arith)
        requires
            0 <= j < rows,
            0 <= k < cols,
    ;
}

/// A multiplication exceeds a bound exactly when one factor exceeds the
/// bound divided by the other.
proof fn lemma_mul_overflow(x: int, y: int, m: int)
    requires
        x >= 0,
        y >= 1,
        m >= 0,
    ensures
        (x * y > m) <==> (x > m / y),
{
    lemma_fundamental_div_mod(m, y);
    lemma_mod_bound(m, y);
    let q = m / y;
    lemma_mul_is_commutative(y, q);
    if x <= q {
        lemma_mul_inequality(x, q, y);
        assert(q * y <= m);
    } else {
        lemma_mul_inequality(q + 1, x, y);
        assert((q + 1) * y == q * y + y) by (nonlinear_arith);
        assert(x * y > m);
    }
}

/// An ordered stack of dense layers with a learning rate: the last layer is
/// the softmax output layer, every earlier one a rectified hidden layer.
pub struct Network {
    learning_rate: u64,
    input_size: usize,
    layers: Vec<Layer>,
}

impl Network {
    /// The layer stack.
    pub closed spec fn spec_layers(&self) -> Seq<Layer> {
        self.layers@
    }

    /// The learning rate's bit pattern.
    pub closed spec fn spec_learning_rate(&self) -> u64 {
        self.learning_rate
    }

    /// The declared input size.
    pub closed spec fn spec_input_size(&self) -> usize {
        self.input_size
    }

    /// The output size: the last layer's neuron count.
    pub closed spec fn spec_output_size(&self) -> int {
        self.layers@.last().spec_neurons()
    }

    /// Structural invariant: at least a hidden and an output layer, every
    /// layer well formed, adjacent widths agreeing, the output flag on the
    /// last layer alone, a positive finite learning rate, and a positive
    /// input size matching the first layer.
    pub closed spec fn wf(&self) -> bool {
        let ls = self.layers@;
        &&& ls.len() >= 2
        &&& self.input_size >= 1
        &&& is_pos_finite_bits(self.learning_rate)
        &&& forall|i: int| 0 <= i < ls.len() ==> (#[trigger] ls[i]).wf()
        &&& ls[0].spec_inputs() == self.input_size
        &&& forall|i: int| 1 <= i < ls.len() ==> (#[trigger] ls[i]).spec_inputs() == ls[i - 1].spec_neurons()
        &&& forall|i: int| 0 <= i < ls.len() ==> ((#[trigger] ls[i]).spec_output() <==> i == ls.len() - 1)
    }

    /// Every weight and bias lies in the initialization interval.
    pub closed spec fn spec_init_ranged(&self) -> bool {
        &&& forall|i: int, k: int| 0 <= i < self.layers@.len()
            && 0 <= k < self.layers@[i].spec_weights().len()
            ==> in_init_range(#[trigger] self.layers@[i].spec_weights()[k])
        &&& forall|i: int, k: int| 0 <= i < self.layers@.len()
            && 0 <= k < self.layers@[i].spec_biases().len()
            ==> in_init_range(#[trigger] self.layers@[i].spec_biases()[k])
    }

    /// The output of the first `i` layers on input `x` (the input itself
    /// when `i` is zero).
    pub closed spec fn spec_post_upto(&self, x: Seq<u64>, i: int) -> Seq<u64>
        decreases i,
    {
        if i <= 0 {
            x
        } else {
            let l = self.layers@[i - 1];
            l.spec_post(l.spec_pre(self.spec_post_upto(x, i - 1)))
        }
    }

    /// Layer `i`'s pre-activation vector during a forward pass on `x`.
    pub closed spec fn spec_pre_at(&self, x: Seq<u64>, i: int) -> Seq<u64> {
        self.layers@[i].spec_pre(self.spec_post_upto(x, i))
    }

    /// The network's output on `x`: the output layer's post-activation
    /// vector.
    pub closed spec fn spec_eval(&self, x: Seq<u64>) -> Seq<u64> {
        self.spec_post_upto(x, self.layers@.len() as int)
    }

    /// The backpropagated error signal at layer `i` during a training step
    /// on `(x, t)`: at the output layer the combined softmax/cross-entropy
    /// gradient, the output less the target; at a hidden layer the next
    /// layer's weight columns dotted with the next signal, kept where the
    /// neuron's pre-activation is strictly positive and zeroed elsewhere
    /// (the derivative of rectification).
    pub closed spec fn spec_delta(&self, x: Seq<u64>, t: Seq<u64>, i: int) -> Seq<u64>
        decreases self.spec_layers().len() - i
            when 0 <= i < self.spec_layers().len()
    {
        let l = self.layers@[i];
        if i == self.layers@.len() - 1 {
            Seq::new(
                l.spec_neurons() as nat,
                |j: int| sub_bits(self.spec_post_upto(x, i + 1)[j], t[j]),
            )
        } else {
            let next = self.layers@[i + 1];
            let dnext = self.spec_delta(x, t, i + 1);
            Seq::new(
                l.spec_neurons() as nat,
                |j: int| if lt_bits(POS_ZERO, self.spec_pre_at(x, i)[j]) {
                    col_dot(next.spec_weights(), next.spec_inputs(), j, dnext, next.spec_neurons())
                } else {
                    POS_ZERO
                },
            )
        }
    }

    /// Layer `i`'s weights after one gradient-descent step on `(x, t)`:
    /// each weight less the learning rate times its gradient, the error
    /// signal at its neuron times the layer's input at its column (the
    /// outer product of the two vectors).
    pub closed spec fn spec_updated_weights(&self, x: Seq<u64>, t: Seq<u64>, i: int) -> Seq<u64> {
        let l = self.layers@[i];
        let d = self.spec_delta(x, t, i);
        let inp = self.spec_post_upto(x, i);
        Seq::new(
            l.spec_weights().len(),
            |idx: int| sub_bits(
                l.spec_weights()[idx],
                mul_bits(
                    self.learning_rate,
                    mul_bits(d[idx / l.spec_inputs()], inp[idx % l.spec_inputs()]),
                ),
            ),
        )
    }

    /// Layer `i`'s biases after one gradient-descent step on `(x, t)`: each
    /// bias less the learning rate times the error signal at its neuron.
    pub closed spec fn spec_updated_biases(&self, x: Seq<u64>, t: Seq<u64>, i: int) -> Seq<u64> {
        let l = self.layers@[i];
        let d = self.spec_delta(x, t, i);
        Seq::new(
            l.spec_biases().len(),
            |j: int| sub_bits(l.spec_biases()[j], mul_bits(self.learning_rate, d[j])),
        )
    }

    /// The categorical cross-entropy loss of the forward pass on `x`
    /// against the target `t`: the negation of the running sum of
    /// `t[j] * ln(output[j])`.
    pub closed spec fn spec_loss(&self, x: Seq<u64>, t: Seq<u64>) -> u64 {
        sub_bits(POS_ZERO, loss_sum(self.spec_eval(x), t, t.len() as int))
    }

    /// The network's parameters flattened in layer order: each layer's
    /// row-major weights, then its biases.
    pub closed spec fn spec_params(&self) -> Seq<u64> {
        params_of_layers(self.layers@, self.layers@.len() as int)
    }

    /// The network `new` is `self` after exactly one training step on
    /// `(x, t)`: the topology, the output flags and the learning rate are
    /// unchanged, and every layer's weights and biases are the
    /// gradient-descent update computed from `self`'s parameters alone.
    pub closed spec fn spec_trained(&self, new: Network, x: Seq<u64>, t: Seq<u64>) -> bool {
        &&& new.layers@.len() == self.layers@.len()
        &&& new.learning_rate == self.learning_rate
        &&& new.input_size == self.input_size
        &&& forall|i: int| 0 <= i < self.layers@.len() ==> {
            let l = #[trigger] new.layers@[i];
            &&& l.spec_output() == self.layers@[i].spec_output()
            &&& l.spec_weights() == self.spec_updated_weights(x, t, i)
            &&& l.spec_biases() == self.spec_updated_biases(x, t, i)
        }
    }

    /// The network's declared input size.
    pub fn input_size(&self) -> (n: usize)
        ensures
            n == self.spec_input_size(),
    {
        self.input_size
    }

    /// The network's output size: the output layer's neuron count.
    pub fn output_size(&self) -> (n: usize)
        requires
            self.wf(),
        ensures
            n == self.spec_output_size(),
    {
        let l = &self.layers[self.layers.len() - 1];
        l.neurons()
    }

    /// The learning rate's bit pattern.
    pub fn learning_rate(&self) -> (r: u64)
        ensures
            r == self.spec_learning_rate(),
    {
        self.learning_rate
    }

    /// The number of layers, the output layer included.
    pub fn layer_count(&self) -> (n: usize)
        ensures
            n == self.spec_layers().len(),
    {
        self.layers.len()
    }

    /// Runs the full forward pass, recording every layer's pre- and
    /// post-activation vectors in order.
    fn forward_prop(&self, input: &Vec<u64>) -> (r: Vec<LayerEvalResult>)
        requires
            self.wf(),
            input@.len() == self.spec_input_size(),
        ensures
            r@.len() == self.spec_layers().len(),
            forall|i: int| 0 <= i < r@.len() ==> {
                let step = #[trigger] r@[i];
                &&& step.pre_activation@ == self.spec_pre_at(input@, i)
                &&& step.post_activation@ == self.spec_post_upto(input@, i + 1)
                &&& step.pre_activation@.len() == self.spec_layers()[i].spec_neurons()
                &&& step.post_activation@.len() == self.spec_layers()[i].spec_neurons()
            },
    {
        let mut results: Vec<LayerEvalResult> = Vec::new();
        let mut current: Vec<u64> = clone_vec(input);
        let mut i: usize = 0;
        while i < self.layers.len()
            invariant
                i <= self.layers@.len(),
                self.wf(),
                input@.len() == self.spec_input_size(),
                results@.len() == i,
                current@ == self.spec_post_upto(input@, i as int),
                current@.len() == if i == 0 {
                    self.spec_input_size() as int
                } else {
                    self.spec_layers()[i - 1].spec_neurons()
                },
                forall|t: int| 0 <= t < i ==> {
                    let step = #[trigger] results@[t];
                    &&& step.pre_activation@ == self.spec_pre_at(input@, t)
                    &&& step.post_activation@ == self.spec_post_upto(input@, t + 1)
                    &&& step.pre_activation@.len() == self.spec_layers()[t].spec_neurons()
                    &&& step.post_activation@.len() == self.spec_layers()[t].spec_neurons()
                },
            decreases self.layers@.len() - i,
        {
            let layer = &self.layers[i];
            let pre = layer.compute_pre(&current);
            let post = if layer.output {
                softmax_vec(&pre)
            } else {
                relu_map(&pre)
            };
            proof {
                assert(self.spec_post_upto(input@, i as int + 1)
                    == layer.spec_post(layer.spec_pre(current@)));
                assert(post@.len() == layer.spec_neurons());
            }
            current = clone_vec(&post);
            results.push(LayerEvalResult { pre_activation: pre, post_activation: post });
            i += 1;
        }
        results
    }

    /// Forward propagation: feeds `input` through every layer and returns
    /// the output layer's post-activation vector, whose length is the
    /// network's output size. An input of the wrong length is rejected with
    /// a dimension error, and nothing else ever fails. The result is a
    /// function of the network's parameters and the input alone.
    pub fn eval(&self, input: &Vec<u64>) -> (r: Result<Vec<u64>, DimensionError>)
        requires
            self.wf(),
        ensures
            r is Ok <==> input@.len() == self.spec_input_size(),
            r is Err ==> r == Err::<Vec<u64>, DimensionError>(DimensionError::InputLength),
            r matches Ok(out) ==> out@ == self.spec_eval(input@)
                && out@.len() == self.spec_output_size(),
    {
        if input.len() != self.input_size {
            return Err(DimensionError::InputLength);
        }
        let mut results = self.forward_prop(input);
        let n = results.len();
        let last = results.remove(n - 1);
        Ok(last.post_activation)
    }

    /// Serializes the parameters: every layer's row-major weights, then its
    /// biases, in layer order. `NetworkBuilder::build_with_params` accepts
    /// the result for a network of the same topology.
    pub fn to_params(&self) -> (r: Vec<u64>)
        ensures
            r@ == self.spec_params(),
    {
        let mut out: Vec<u64> = Vec::new();
        let mut i: usize = 0;
        while i < self.layers.len()
            invariant
                i <= self.layers@.len(),
                out@ == params_of_layers(self.layers@, i as int),
            decreases self.layers@.len() - i,
        {
            let layer = &self.layers[i];
            let ghost base = out@;
            let mut k: usize = 0;
            while k < layer.weights.len()
                invariant
                    k <= layer.weights@.len(),
                    out@ == base + layer.weights@.subrange(0, k as int),
                decreases layer.weights@.len() - k,
            {
                out.push(layer.weights[k]);
                proof {
                    assert(out@ =~= base + layer.weights@.subrange(0, k as int + 1));
                }
                k += 1;
            }
            proof {
                assert(layer.weights@.subrange(0, layer.weights@.len() as int) =~= layer.weights@);
            }
            let ghost base2 = out@;
            let mut k: usize = 0;
            while k < layer.biases.len()
                invariant
                    k <= layer.biases@.len(),
                    out@ == base2 + layer.biases@.subrange(0, k as int),
                    base2 == base + layer.weights@,
                decreases layer.biases@.len() - k,
            {
                out.push(layer.biases[k]);
                proof {
                    assert(out@ =~= base2 + layer.biases@.subrange(0, k as int + 1));
                }
                k += 1;
            }
            proof {
                assert(layer.biases@.subrange(0, layer.biases@.len() as int) =~= layer.biases@);
                assert(out@ =~= params_of_layers(self.layers@, i as int + 1));
            }
            i += 1;
        }
        out
    }

    /// One training step on a single example: validates both dimensions
    /// before touching anything, runs the forward pass, backpropagates the
    /// softmax/cross-entropy error signal, and updates every layer's
    /// weights and biases by plain gradient descent, each layer's gradient
    /// computed from the old parameters alone. Returns the loss of the
    /// forward pass it ran. On a dimension error nothing is mutated.
    #[verifier::rlimit(60)]
    pub fn train(&mut self, input: &Vec<u64>, target: &Vec<u64>) -> (r: Result<u64, DimensionError>)
        requires
            old(self).wf(),
        ensures
            final(self).wf(),
            r is Ok <==> (input@.len() == old(self).spec_input_size() && target@.len()
                == old(self).spec_output_size()),
            input@.len() != old(self).spec_input_size() ==> r == Err::<u64, DimensionError>(
                DimensionError::InputLength,
            ) && *final(self) == *old(self),
            input@.len() == old(self).spec_input_size() && target@.len() != old(
                self,
            ).spec_output_size() ==> r == Err::<u64, DimensionError>(DimensionError::TargetLength)
                && *final(self) == *old(self),
            r matches Ok(loss) ==> loss == old(self).spec_loss(input@, target@) && old(
                self,
            ).spec_trained(*final(self), input@, target@),
    {
        if input.len() != self.input_size {
            return Err(DimensionError::InputLength);
        }
        let osz = self.output_size();
        if target.len() != osz {
            return Err(DimensionError::TargetLength);
        }
        let lcount = self.layers.len();
        let results = self.forward_prop(input);
        // backpropagated error signals, from the output layer down
        let mut deltas_rev: Vec<Vec<u64>> = Vec::new();
        let mut step: usize = 0;
        while step < lcount
            invariant
                step <= lcount,
                *self == *old(self),
                lcount == self.layers@.len(),
                self.wf(),
                input@.len() == self.spec_input_size(),
                target@.len() == self.spec_output_size(),
                results@.len() == lcount,
                forall|i2: int| 0 <= i2 < lcount ==> {
                    let fr = #[trigger] results@[i2];
                    &&& fr.pre_activation@ == self.spec_pre_at(input@, i2)
                    &&& fr.post_activation@ == self.spec_post_upto(input@, i2 + 1)
                    &&& fr.pre_activation@.len() == self.spec_layers()[i2].spec_neurons()
                    &&& fr.post_activation@.len() == self.spec_layers()[i2].spec_neurons()
                },
                deltas_rev@.len() == step,
                forall|s: int| 0 <= s < step ==> (#[trigger] deltas_rev@[s])@ == self.spec_delta(
                    input@,
                    target@,
                    lcount - 1 - s,
                ) && deltas_rev@[s]@.len() == self.spec_layers()[lcount - 1 - s].spec_neurons(),
            decreases lcount - step,
        {
            let i = lcount - 1 - step;
            let d: Vec<u64> = if step == 0 {
                let dd = output_delta(&results[i].post_activation, target);
                proof {
                    assert(dd@ =~= self.spec_delta(input@, target@, i as int));
                }
                dd
            } else {
                let next = &self.layers[i + 1];
                let dn = &deltas_rev[step - 1];
                let dd = hidden_delta(&results[i].pre_activation, next, dn);
                proof {
                    assert(dd@ =~= self.spec_delta(input@, target@, i as int));
                }
                dd
            };
            deltas_rev.push(d);
            step += 1;
        }
        // the loss of the forward pass, before any update
        let loss = cross_entropy(&results[lcount - 1].post_activation, target);
        proof {
            assert(loss == self.spec_loss(input@, target@));
        }
        // every gradient is computed from the old parameters; the new stack
        // replaces the old one only once it is complete
        let lr = self.learning_rate;
        let mut new_layers: Vec<Layer> = Vec::new();
        let mut i: usize = 0;
        while i < lcount
            invariant
                i <= lcount,
                *self == *old(self),
                lcount == self.layers@.len(),
                self.wf(),
                lr == self.spec_learning_rate(),
                input@.len() == self.spec_input_size(),
                target@.len() == self.spec_output_size(),
                results@.len() == lcount,
                forall|i2: int| 0 <= i2 < lcount ==> {
                    let fr = #[trigger] results@[i2];
                    &&& fr.post_activation@ == self.spec_post_upto(input@, i2 + 1)
                    &&& fr.post_activation@.len() == self.spec_layers()[i2].spec_neurons()
                },
                deltas_rev@.len() == lcount,
                forall|s: int| 0 <= s < lcount ==> (#[trigger] deltas_rev@[s])@ == self.spec_delta(
                    input@,
                    target@,
                    lcount - 1 - s,
                ) && deltas_rev@[s]@.len() == self.spec_layers()[lcount - 1 - s].spec_neurons(),
                new_layers@.len() == i,
                forall|j: int| 0 <= j < i ==> {
                    let l = #[trigger] new_layers@[j];
                    &&& l.spec_output() == self.spec_layers()[j].spec_output()
                    &&& l.spec_weights() == self.spec_updated_weights(input@, target@, j)
                    &&& l.spec_biases() == self.spec_updated_biases(input@, target@, j)
                    &&& l.wf()
                    &&& l.spec_neurons() == self.spec_layers()[j].spec_neurons()
                    &&& l.spec_inputs() == self.spec_layers()[j].spec_inputs()
                },
            decreases lcount - i,
        {
            let layer = &self.layers[i];
            let d = &deltas_rev[lcount - 1 - i];
            let nl: Layer = if i == 0 {
                updated_layer(layer, lr, d, input)
            } else {
                updated_layer(layer, lr, d, &results[i - 1].post_activation)
            };
            proof {
                assert(nl.spec_weights() =~= self.spec_updated_weights(input@, target@, i as int));
                assert(nl.spec_biases() =~= self.spec_updated_biases(input@, target@, i as int));
            }
            new_layers.push(nl);
            i += 1;
        }
        self.layers = new_layers;
        proof {
            assert forall|i2: int| 1 <= i2 < self.layers@.len() implies
                (#[trigger] self.layers@[i2]).spec_inputs()
                == self.layers@[i2 - 1].spec_neurons() by {}
            assert(self.wf());
            assert(old(self).spec_trained(*self, input@, target@));
        }
        Ok(loss)
    }
}

/// The output layer's error signal: the post-activation vector less the
/// target, entry by entry.
fn output_delta(post: &Vec<u64>, target: &Vec<u64>) -> (d: Vec<u64>)
    requires
        post@.len() == target@.len(),
    ensures
        d@.len() == post@.len(),
        forall|j: int| 0 <= j < d@.len() ==> #[trigger] d@[j] == sub_bits(post@[j], target@[j]),
{
    let mut d: Vec<u64> = Vec::new();
    let mut j: usize = 0;
    while j < post.len()
        invariant
            j <= post@.len(),
            post@.len() == target@.len(),
            d@.len() == j,
            forall|t2: int| 0 <= t2 < j ==> #[trigger] d@[t2] == sub_bits(post@[t2], target@[t2]),
        decreases post@.len() - j,
    {
        d.push(fsub(post[j], target[j]));
        j += 1;
    }
    d
}

/// A hidden layer's error signal: for each neuron whose pre-activation is
/// strictly positive, the next layer's weight column dotted with the next
/// layer's signal; positive zero for the others.
fn hidden_delta(pre: &Vec<u64>, next: &Layer, dnext: &Vec<u64>) -> (d: Vec<u64>)
    requires
        next.wf(),
        dnext@.len() == next.spec_neurons(),
        pre@.len() == next.spec_inputs(),
    ensures
        d@.len() == pre@.len(),
        forall|j: int| 0 <= j < d@.len() ==> #[trigger] d@[j] == if lt_bits(POS_ZERO, pre@[j]) {
            col_dot(next.spec_weights(), next.spec_inputs(), j, dnext@, next.spec_neurons())
        } else {
            POS_ZERO
        },
{
    let cols = next.inputs();
    let rows = next.neurons();
    let wl = next.weights.len();
    let mut d: Vec<u64> = Vec::new();
    let mut j: usize = 0;
    while j < pre.len()
        invariant
            j <= pre@.len(),
            d@.len() == j,
            next.wf(),
            cols == next.spec_inputs(),
            rows == next.spec_neurons(),
            wl == next.spec_weights().len(),
            dnext@.len() == rows,
            pre@.len() == cols,
            forall|t2: int| 0 <= t2 < j ==> #[trigger] d@[t2] == if lt_bits(POS_ZERO, pre@[t2]) {
                col_dot(next.spec_weights(), next.spec_inputs(), t2, dnext@, next.spec_neurons())
            } else {
                POS_ZERO
            },
        decreases pre@.len() - j,
    {
        if flt(POS_ZERO, pre[j]) {
            let mut acc: u64 = POS_ZERO;
            let mut m: usize = 0;
            while m < rows
                invariant
                    m <= rows,
                    j < cols,
                    next.wf(),
                    cols == next.spec_inputs(),
                    rows == next.spec_neurons(),
                    wl == next.spec_weights().len(),
                    dnext@.len() == rows,
                    acc == col_dot(next.spec_weights(), cols as int, j as int, dnext@, m as int),
                decreases rows - m,
            {
                proof {
                    lemma_flat_index(m as int, j as int, cols as int, rows as int);
                    assert(rows * cols == next.spec_weights().len());
                }
                acc = fadd(acc, fmul(next.weights[m * cols + j], dnext[m]));
                m += 1;
            }
            d.push(acc);
        } else {
            d.push(POS_ZERO);
        }
        j += 1;
    }
    d
}

/// The categorical cross-entropy loss of an output vector against a target:
/// the negated running sum of `target[j] * ln(post[j])`.
fn cross_entropy(post: &Vec<u64>, target: &Vec<u64>) -> (loss: u64)
    requires
        post@.len() == target@.len(),
    ensures
        loss == sub_bits(POS_ZERO, loss_sum(post@, target@, target@.len() as int)),
{
    let mut s: u64 = POS_ZERO;
    let mut j: usize = 0;
    while j < target.len()
        invariant
            j <= target@.len(),
            post@.len() == target@.len(),
            s == loss_sum(post@, target@, j as int),
        decreases target@.len() - j,
    {
        s = fadd(s, fmul(target[j], fln(post[j])));
        j += 1;
    }
    fsub(POS_ZERO, s)
}

/// One layer after a gradient-descent step: every weight and bias moved
/// against its gradient, scaled by the learning rate; the shape and the
/// output flag are untouched.
fn updated_layer(layer: &Layer, lr: u64, d: &Vec<u64>, inp: &Vec<u64>) -> (r: Layer)
    requires
        layer.wf(),
        d@.len() == layer.spec_neurons(),
        inp@.len() == layer.spec_inputs(),
    ensures
        r.wf(),
        r.spec_output() == layer.spec_output(),
        r.spec_neurons() == layer.spec_neurons(),
        r.spec_inputs() == layer.spec_inputs(),
        r.spec_weights().len() == layer.spec_weights().len(),
        r.spec_biases().len() == layer.spec_biases().len(),
        forall|idx: int| 0 <= idx < r.spec_weights().len() ==> #[trigger] r.spec_weights()[idx]
            == sub_bits(
            layer.spec_weights()[idx],
            mul_bits(
                lr,
                mul_bits(d@[idx / layer.spec_inputs()], inp@[idx % layer.spec_inputs()]),
            ),
        ),
        forall|j: int| 0 <= j < r.spec_biases().len() ==> #[trigger] r.spec_biases()[j]
            == sub_bits(layer.spec_biases()[j], mul_bits(lr, d@[j])),
{
    let rows = layer.biases.len();
    let cols = layer.weights.len() / rows;
    let wl = layer.weights.len();
    let mut w: Vec<u64> = Vec::new();
    let mut idx: usize = 0;
    while idx < wl
        invariant
            idx <= wl,
            w@.len() == idx,
            layer.wf(),
            rows == layer.spec_neurons(),
            cols == layer.spec_inputs(),
            wl == layer.spec_weights().len(),
            d@.len() == rows,
            inp@.len() == cols,
            forall|t2: int| 0 <= t2 < idx ==> #[trigger] w@[t2] == sub_bits(
                layer.spec_weights()[t2],
                mul_bits(lr, mul_bits(d@[t2 / (cols as int)], inp@[t2 % (cols as int)])),
            ),
        decreases wl - idx,
    {
        proof {
            lemma_mod_bound(idx as int, cols as int);
            lemma_div_bound(idx as int, cols as int, rows as int);
        }
        let j = idx / cols;
        let k = idx % cols;
        w.push(fsub(layer.weights[idx], fmul(lr, fmul(d[j], inp[k]))));
        idx += 1;
    }
    let mut b: Vec<u64> = Vec::new();
    let mut j: usize = 0;
    while j < rows
        invariant
            j <= rows,
            b@.len() == j,
            layer.wf(),
            rows == layer.spec_neurons(),
            d@.len() == rows,
            forall|t2: int| 0 <= t2 < j ==> #[trigger] b@[t2] == sub_bits(
                layer.spec_biases()[t2],
                mul_bits(lr, d@[t2]),
            ),
        decreases rows - j,
    {
        b.push(fsub(layer.biases[j], fmul(lr, d[j])));
        j += 1;
    }
    let r = Layer { weights: w, biases: b, output: layer.output };
    proof {
        lemma_mul_is_commutative(rows as int, cols as int);
        lemma_div_by_multiple(cols as int, rows as int);
        assert(r.spec_inputs() == cols);
    }
    r
}

/// The row index of a flat row-major position stays within the row count.
proof fn lemma_div_bound(idx: int, cols: int, rows: int)
    requires
        0 <= idx < rows * cols,
        1 <= cols,
    ensures
        0 <= idx / cols < rows,
{
    lemma_fundamental_div_mod(idx, cols);
    lemma_mod_bound(idx, cols);
    let q = idx / cols;
    if q < 0 {
        lemma_mul_inequality(q, -1, cols);
        lemma_mul_is_commutative(cols, q);
        assert(false);
    }
    if q >= rows {
        lemma_mul_inequality(rows, q, cols);
        lemma_mul_is_commutative(cols, q);
        assert(false);
    }
}

/// One layer's record of a forward pass: the neuron sums before the
/// activation function, and the vector after it.
struct LayerEvalResult {
    pre_activation: Vec<u64>,
    post_activation: Vec<u64>,
}

/// A copy of a scalar vector.
fn clone_vec(v: &Vec<u64>) -> (r: Vec<u64>)
    ensures
        r@ == v@,
{
    let mut r: Vec<u64> = Vec::new();
    let mut i: usize = 0;
    while i < v.len()
        invariant
            i <= v@.len(),
            r@.len() == i,
            forall|t: int| 0 <= t < i ==> r@[t] == v@[t],
        decreases v@.len() - i,
    {
        r.push(v[i]);
        i += 1;
    }
    proof {
        assert(r@ =~= v@);
    }
    r
}

/// The rectified-linear activation applied to every entry of a vector.
fn relu_map(pre: &Vec<u64>) -> (r: Vec<u64>)
    ensures
        r@ == relu_seq(pre@),
{
    let mut r: Vec<u64> = Vec::new();
    let mut j: usize = 0;
    while j < pre.len()
        invariant
            j <= pre@.len(),
            r@.len() == j,
            forall|t: int| 0 <= t < j ==> r@[t] == relu_bits(pre@[t]),
        decreases pre@.len() - j,
    {
        r.push(frelu(pre[j]));
        j += 1;
    }
    proof {
        assert(r@ =~= relu_seq(pre@));
    }
    r
}

/// The numerically stable softmax of a non-empty vector: the largest entry
/// is subtracted before exponentiation, then each exponential is divided by
/// their sum.
fn softmax_vec(pre: &Vec<u64>) -> (r: Vec<u64>)
    requires
        pre@.len() >= 1,
    ensures
        r@ == softmax_bits(pre@),
{
    let n = pre.len();
    let mut m = pre[0];
    let mut j: usize = 1;
    while j < n
        invariant
            1 <= j <= n,
            n == pre@.len(),
            m == seq_max(pre@, j as int),
        decreases n - j,
    {
        let cur = pre[j];
        if flt(m, cur) {
            m = cur;
        }
        proof {
            assert(seq_max(pre@, j as int + 1) == if lt_bits(seq_max(pre@, j as int), pre@[j as int]) {
                pre@[j as int]
            } else {
                seq_max(pre@, j as int)
            });
        }
        j += 1;
    }
    let ghost gm = seq_max(pre@, pre@.len() as int);
    let mut e: Vec<u64> = Vec::new();
    let mut j: usize = 0;
    while j < n
        invariant
            j <= n,
            n == pre@.len(),
            m == gm,
            e@.len() == j,
            forall|t: int| 0 <= t < j ==> e@[t] == exp_bits(sub_bits(pre@[t], gm)),
        decreases n - j,
    {
        e.push(fexp(fsub(pre[j], m)));
        j += 1;
    }
    proof {
        assert(e@ =~= exp_shift_seq(pre@));
    }
    let mut s: u64 = POS_ZERO;
    let mut j: usize = 0;
    while j < n
        invariant
            j <= n,
            n == e@.len(),
            s == seq_sum(e@, j as int),
        decreases n - j,
    {
        s = fadd(s, e[j]);
        j += 1;
    }
    let mut r: Vec<u64> = Vec::new();
    let mut j: usize = 0;
    while j < n
        invariant
            j <= n,
            n == e@.len(),
            e@ == exp_shift_seq(pre@),
            s == seq_sum(e@, n as int),
            r@.len() == j,
            forall|t: int| 0 <= t < j ==> r@[t] == div_bits(e@[t], seq_sum(e@, n as int)),
        decreases n - j,
    {
        r.push(fdiv(e[j], s));
        j += 1;
    }
    proof {
        assert(r@ =~= softmax_bits(pre@));
    }
    r
}

/// Flattening a layer stack is injective once the segment lengths agree:
/// equal flattenings of the first `i` layers, segment for segment, force
/// equal weights and biases in each of those layers.
proof fn lemma_flatten_injective(ls1: Seq<Layer>, ls2: Seq<Layer>, i: int)
    requires
        0 <= i,
        i <= ls1.len(),
        i <= ls2.len(),
        forall|j: int| 0 <= j < i ==> (#[trigger] ls1[j]).spec_weights().len()
            == ls2[j].spec_weights().len() && ls1[j].spec_biases().len()
            == ls2[j].spec_biases().len(),
        params_of_layers(ls1, i) == params_of_layers(ls2, i),
    ensures
        forall|j: int| 0 <= j < i ==> (#[trigger] ls1[j]).spec_weights() == ls2[j].spec_weights()
            && ls1[j].spec_biases() == ls2[j].spec_biases(),
    decreases i,
{
    if i > 0 {
        let a1 = params_of_layers(ls1, i - 1);
        let a2 = params_of_layers(ls2, i - 1);
        let w1 = ls1[i - 1].spec_weights();
        let w2 = ls2[i - 1].spec_weights();
        let b1 = ls1[i - 1].spec_biases();
        let b2 = ls2[i - 1].spec_biases();
        assert(params_of_layers(ls1, i) == a1 + w1 + b1);
        assert(params_of_layers(ls2, i) == a2 + w2 + b2);
        assert(a1.len() == a2.len());
        assert(a1 =~= (a1 + w1 + b1).subrange(0, a1.len() as int));
        assert(a2 =~= (a2 + w2 + b2).subrange(0, a2.len() as int));
        assert(w1 =~= (a1 + w1 + b1).subrange(a1.len() as int, (a1.len() + w1.len()) as int));
        assert(w2 =~= (a2 + w2 + b2).subrange(a2.len() as int, (a2.len() + w2.len()) as int));
        assert(b1 =~= (a1 + w1 + b1).subrange(
            (a1.len() + w1.len()) as int,
            (a1.len() + w1.len() + b1.len()) as int,
        ));
        assert(b2 =~= (a2 + w2 + b2).subrange(
            (a2.len() + w2.len()) as int,
            (a2.len() + w2.len() + b2.len()) as int,
        ));
        lemma_flatten_injective(ls1, ls2, i - 1);
    }
}

/// Serialization is lossless: two networks of one configured topology whose
/// flattened parameters agree have exactly equal weights and biases in every
/// layer. In particular, feeding what `to_params` wrote back through
/// `build_with_params` under the same configuration reproduces the network's
/// parameters layer for layer.
pub proof fn lemma_params_round_trip(cfg: &NetworkBuilder, n1: Network, n2: Network)
    requires
        cfg.spec_builds(n1),
        cfg.spec_builds(n2),
        n1.spec_params() == n2.spec_params(),
    ensures
        forall|i: int| 0 <= i < n1.spec_layers().len()
            ==> (#[trigger] n1.spec_layers()[i]).spec_weights()
                == n2.spec_layers()[i].spec_weights()
            && n1.spec_layers()[i].spec_biases() == n2.spec_layers()[i].spec_biases(),
{
    let len = n1.spec_layers().len() as int;
    assert forall|j: int| 0 <= j < len implies
        (#[trigger] n1.spec_layers()[j]).spec_weights().len()
            == n2.spec_layers()[j].spec_weights().len()
        && n1.spec_layers()[j].spec_biases().len()
            == n2.spec_layers()[j].spec_biases().len() by {
        assert(n1.spec_layers()[j].wf());
        assert(n2.spec_layers()[j].wf());
    }
    lemma_flatten_injective(n1.spec_layers(), n2.spec_layers(), len);
}

/// Forward evaluation is deterministic: `eval`'s contract pins its result to
/// a function of the network's parameters and the input alone, so any two
/// results it admits for the same network and the same input are
/// bit-identical.
pub proof fn lemma_eval_deterministic(net: &Network, input: Seq<u64>, r1: Seq<u64>, r2: Seq<u64>)
    requires
        r1 == net.spec_eval(input),
        r2 == net.spec_eval(input),
    ensures
        r1 == r2,
{
}

} // verus!
