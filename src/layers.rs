use vstd::prelude::*;

verus! {

/// The elementwise nonlinearity that an activation layer applies.
#[derive(Clone, Copy, PartialEq, Eq, Structural, Debug)]
pub enum ActivationFunction {
    Sigmoid,
    Tanh,
    Relu,
}

/// An elementwise nonlinearity over vectors of `width` entries.
pub struct Activation {
    pub function: ActivationFunction,
    pub width: usize,
}

impl Activation {
    pub open spec fn spec_new(function: ActivationFunction, width: nat) -> Activation {
        Activation { function, width: width as usize }
    }

    /// A sigmoid, `1 / (1 + e^-x)` per entry.
    pub fn sigmoid(width: usize) -> (r: Activation)
        ensures
            r.function == ActivationFunction::Sigmoid,
            r.width == width,
    {
        Activation { function: ActivationFunction::Sigmoid, width }
    }

    /// A hyperbolic tangent per entry.
    pub fn tanh(width: usize) -> (r: Activation)
        ensures
            r.function == ActivationFunction::Tanh,
            r.width == width,
    {
        Activation { function: ActivationFunction::Tanh, width }
    }

    /// A rectifier, `max(0, x)` per entry.
    pub fn relu(width: usize) -> (r: Activation)
        ensures
            r.function == ActivationFunction::Relu,
            r.width == width,
    {
        Activation { function: ActivationFunction::Relu, width }
    }
}

/// The sink of a chain: an identity over vectors of `width` entries.
pub struct OutputLayer {
    pub width: usize,
}

/// What is wrong with the arrays handed to a dense layer.
#[derive(Clone, Copy, PartialEq, Eq, Structural, Debug)]
pub enum ShapeError {
    /// The weight array does not hold `expected` (input width times output width) entries;
    /// `expected` is `usize::MAX` where that product does not fit in a `usize`.
    WeightsLength { expected: usize, found: usize },
    /// The bias array does not hold one entry per output.
    BiasLength { expected: usize, found: usize },
}

/// An affine transform from `width` inputs to `bias.len()` outputs.
///
/// `weights` is the matrix in row-major order: one row of `width` entries per output.
pub struct Perceptron<T> {
    pub weights: Vec<T>,
    pub bias: Vec<T>,
    pub width: usize,
}

impl<T> Perceptron<T> {
    pub open spec fn out_width(self) -> nat {
        self.bias@.len()
    }

    /// The weight array holds exactly one row of `width` entries per output.
    pub open spec fn wf(self) -> bool {
        self.weights@.len() == self.width * self.bias@.len()
    }

    /// The entry of the weight matrix at (`row`, `col`).
    pub open spec fn weight_at(self, row: int, col: int) -> T {
        self.weights@[row * self.width + col]
    }

    /// Builds a dense layer from `width` inputs to `out_width` outputs, checking both array
    /// lengths against the two widths.
    pub fn from_array(width: usize, out_width: usize, weights: Vec<T>, bias: Vec<T>) -> (r: Result<
        Perceptron<T>,
        ShapeError,
    >)
        ensures
            r is Ok <==> (weights@.len() == width * out_width && bias@.len() == out_width),
            r matches Ok(p) ==> p.wf() && p.out_width() == out_width && p == (Perceptron {
                weights,
                bias,
                width,
            }),
            r matches Err(ShapeError::WeightsLength { expected, found }) ==> weights@.len()
                != width * out_width && found == weights@.len() && (width * out_width
                <= usize::MAX ==> expected == width * out_width),
            r matches Err(ShapeError::BiasLength { expected, found }) ==> weights@.len() == width
                * out_width && bias@.len() != out_width && expected == out_width && found
                == bias@.len(),
    {
        let found = weights.len();
        match width.checked_mul(out_width) {
            Some(expected) => {
                if found != expected {
                    return Err(ShapeError::WeightsLength { expected, found });
                }
            },
            None => {
                return Err(ShapeError::WeightsLength { expected: usize::MAX, found });
            },
        }
        if bias.len() != out_width {
            return Err(ShapeError::BiasLength { expected: out_width, found: bias.len() });
        }
        Ok(Perceptron { weights, bias, width })
    }
}

impl<T: Copy> Perceptron<T> {
    /// The entry of the weight matrix in row `row` (an output) and column `col` (an input).
    pub fn weight(&self, row: usize, col: usize) -> (r: T)
        requires
            self.wf(),
            row < self.out_width(),
            col < self.width,
        ensures
            r == self.weight_at(row as int, col as int),
    {
        let len = self.weights.len();
        proof {
            let (w, n) = (self.width as int, self.out_width() as int);
            assert(0 <= row * w <= row * w + col < w * n) by (nonlinear_arith)
                requires
                    0 <= row < n,
                    0 <= col < w,
            ;
        }
        self.weights[row * self.width + col]
    }
}

/// One node of a chain: the closed set of layer kinds.
pub enum Layer<T> {
    Perceptron(Perceptron<T>),
    Activation(Activation),
    Output(OutputLayer),
}

impl<T> Layer<T> {
    /// The number of entries this layer takes.
    pub open spec fn in_width(self) -> nat {
        match self {
            Layer::Perceptron(p) => p.width as nat,
            Layer::Activation(a) => a.width as nat,
            Layer::Output(o) => o.width as nat,
        }
    }

    /// The number of entries this layer gives.
    pub open spec fn out_width(self) -> nat {
        match self {
            Layer::Perceptron(p) => p.out_width(),
            Layer::Activation(a) => a.width as nat,
            Layer::Output(o) => o.width as nat,
        }
    }

    pub open spec fn wf(self) -> bool {
        match self {
            Layer::Perceptron(p) => p.wf(),
            _ => true,
        }
    }

    /// The number of entries this layer takes.
    pub fn width(&self) -> (r: usize)
        ensures
            r == self.in_width(),
    {
        match self {
            Layer::Perceptron(p) => p.width,
            Layer::Activation(a) => a.width,
            Layer::Output(o) => o.width,
        }
    }

    /// The number of entries this layer gives.
    pub fn output_width(&self) -> (r: usize)
        ensures
            r == self.out_width(),
    {
        match self {
            Layer::Perceptron(p) => p.bias.len(),
            Layer::Activation(a) => a.width,
            Layer::Output(o) => o.width,
        }
    }
}

} // verus!
