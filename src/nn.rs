//! A fixed-topology feed-forward network for neuro-evolution.
//!
//! It has no back-propagation: it is built at random, evaluated, mutated and
//! crossed with another network of the same shape.

use crate::random::{coin_flip, random_between};
use vstd::prelude::*;

verus! {

/// Fixed-point unit: the integer that stands for `1.0`.
pub const SCALE: i64 = 1_000_000;

/// Largest magnitude of a weight or a bias (`1_000_000.0`); mutation clamps to it.
/// With it and `MAX_WIDTH`, a node's weighted sum over any `i64` inputs is
/// exact in `i128`.
pub const MAX_PARAM: i64 = 1_000_000_000_000;

/// Most inputs a node may have (a million: a layer that wide would need
/// terabytes of weights).
pub const MAX_WIDTH: usize = 1_000_000;

/// Bound on `|weight * input|` for a weight within `MAX_PARAM` and any `i64` input.
pub open spec fn product_bound() -> int {
    10_000_000_000_000_000_000_000_000_000_000
}

/// One neuron: a weight per input of its layer, and a bias.
pub struct Node {
    pub weights: Vec<i64>,
    pub bias: i64,
}

/// The neurons of one layer, all fed by the same inputs.
pub struct Layer {
    pub nodes: Vec<Node>,
}

/// A fully connected feed-forward network.
pub struct Net {
    /// Width of the input vector.
    pub n_inputs: usize,
    /// The layers after the input, in order of evaluation.
    pub layers: Vec<Layer>,
}

pub open spec fn param_ok(v: int) -> bool {
    -MAX_PARAM <= v <= MAX_PARAM
}

pub open spec fn node_wf(n: Node, width: int) -> bool {
    &&& n.weights@.len() == width
    &&& width <= MAX_WIDTH
    &&& param_ok(n.bias as int)
    &&& forall|k: int| 0 <= k < width ==> param_ok(#[trigger] n.weights@[k] as int)
}

pub open spec fn layer_wf(l: Layer, width: int) -> bool {
    &&& l.nodes@.len() > 0
    &&& forall|j: int| 0 <= j < l.nodes@.len() ==> node_wf(#[trigger] l.nodes@[j], width)
}

/// Sum of `w[k] * x[k]` over the first `k` positions.
pub open spec fn dot(w: Seq<i64>, x: Seq<i64>, k: int) -> int
    decreases k,
{
    if k <= 0 {
        0
    } else {
        dot(w, x, k - 1) + w[k - 1] * x[k - 1]
    }
}

/// ReLU on a pre-activation `t` (in millionths squared), brought back to
/// millionths: `max(0, t / SCALE)`, saturating at `i64::MAX` where that
/// does not fit an `i64`.
pub open spec fn activate(t: int) -> int {
    if t <= 0 {
        0
    } else if t / (SCALE as int) > i64::MAX {
        i64::MAX as int
    } else {
        t / (SCALE as int)
    }
}

/// What a node emits for the inputs `x`: `relu(bias + sum(weight * input))`.
pub open spec fn node_output(n: Node, x: Seq<i64>) -> int {
    activate(n.bias * SCALE + dot(n.weights@, x, n.weights@.len() as int))
}

pub open spec fn layer_output(l: Layer, x: Seq<i64>) -> Seq<i64> {
    Seq::new(l.nodes@.len(), |j: int| node_output(l.nodes@[j], x) as i64)
}

/// Number of inputs of every node of a layer: what the layer before it emits.
pub open spec fn node_count(l: Layer) -> int {
    l.nodes@.len() as int
}

/// Two nodes with the same number of weights, each scalar of `a` within
/// `m` of the corresponding scalar of `b`.
pub open spec fn node_close(a: Node, b: Node, m: int) -> bool {
    &&& a.weights@.len() == b.weights@.len()
    &&& -m <= a.bias - b.bias <= m
    &&& forall|k: int|
        0 <= k < a.weights@.len() ==> -m <= #[trigger] a.weights@[k] - b.weights@[k] <= m
}

pub open spec fn layer_close(a: Layer, b: Layer, m: int) -> bool {
    &&& a.nodes@.len() == b.nodes@.len()
    &&& forall|j: int| 0 <= j < a.nodes@.len() ==> node_close(#[trigger] a.nodes@[j], b.nodes@[j], m)
}

/// Each scalar of `c` is the corresponding scalar of `a` or of `b`.
pub open spec fn node_mix(c: Node, a: Node, b: Node) -> bool {
    &&& c.weights@.len() == a.weights@.len()
    &&& (c.bias == a.bias || c.bias == b.bias)
    &&& forall|k: int|
        0 <= k < c.weights@.len() ==> (#[trigger] c.weights@[k] == a.weights@[k] || c.weights@[k]
            == b.weights@[k])
}

pub open spec fn layer_mix(c: Layer, a: Layer, b: Layer) -> bool {
    &&& c.nodes@.len() == a.nodes@.len()
    &&& forall|j: int| 0 <= j < c.nodes@.len() ==> node_mix(#[trigger] c.nodes@[j], a.nodes@[j], b.nodes@[j])
}

impl Net {
    /// Width of the inputs of layer `i`.
    pub open spec fn width(&self, i: int) -> int {
        if i == 0 {
            self.n_inputs as int
        } else {
            node_count(self.layers@[i - 1])
        }
    }

    /// The topology invariant.
    pub open spec fn wf(&self) -> bool {
        &&& self.n_inputs > 0
        &&& self.layers@.len() > 0
        &&& forall|i: int| 0 <= i < self.layers@.len() ==> layer_wf(#[trigger] self.layers@[i], self.width(i))
    }

    /// The declared sizes: input width, then the node count of each layer.
    pub open spec fn shape(&self) -> Seq<int> {
        Seq::new((self.layers@.len() + 1) as nat, |i: int| self.width(i))
    }

    /// Number of outputs: the node count of the last layer.
    pub open spec fn n_outputs(&self) -> int {
        node_count(self.layers@.last())
    }

    /// What the first `k` layers make of the inputs `x`.
    pub open spec fn forward(&self, x: Seq<i64>, k: int) -> Seq<i64>
        decreases k,
    {
        if k <= 0 {
            x
        } else {
            layer_output(self.layers@[k - 1], self.forward(x, k - 1))
        }
    }

    /// What the network outputs for the inputs `x`.
    pub open spec fn output(&self, x: Seq<i64>) -> Seq<i64> {
        self.forward(x, self.layers@.len() as int)
    }

    /// Same shape, every weight and bias of `self` within `m` of the one of `other`.
    pub open spec fn close_to(&self, other: &Net, m: int) -> bool {
        &&& self.n_inputs == other.n_inputs
        &&& self.layers@.len() == other.layers@.len()
        &&& forall|i: int|
            0 <= i < self.layers@.len() ==> layer_close(#[trigger] self.layers@[i], other.layers@[i], m)
    }

    /// Same shape, every weight and bias of `self` taken from `a` or from `b`.
    pub open spec fn mix_of(&self, a: &Net, b: &Net) -> bool {
        &&& self.n_inputs == a.n_inputs
        &&& self.layers@.len() == a.layers@.len()
        &&& forall|i: int|
            0 <= i < self.layers@.len() ==> layer_mix(#[trigger] self.layers@[i], a.layers@[i], b.layers@[i])
    }
}

proof fn lemma_product_bound(w: int, x: int)
    requires
        param_ok(w),
        i64::MIN <= x <= i64::MAX,
    ensures
        -product_bound() <= w * x <= product_bound(),
{
    assert(-10_000_000_000_000_000_000_000_000_000_000 <= w * x <= 10_000_000_000_000_000_000_000_000_000_000)
        by (nonlinear_arith)
        requires
            -1_000_000_000_000 <= w <= 1_000_000_000_000,
            -10_000_000_000_000_000_000 <= x <= 10_000_000_000_000_000_000,
    ;
}

/// A node with `width` weights and a bias, each drawn uniformly from `[-1, 1]`.
fn random_node(width: usize) -> (r: Node)
    requires
        width <= MAX_WIDTH,
    ensures
        node_wf(r, width as int),
        -SCALE <= r.bias <= SCALE,
        forall|k: int| 0 <= k < width ==> -SCALE <= #[trigger] r.weights@[k] <= SCALE,
{
    let mut weights: Vec<i64> = Vec::new();
    let mut k: usize = 0;
    while k < width
        invariant
            k <= width,
            weights@.len() == k,
            forall|q: int| 0 <= q < k ==> -SCALE <= #[trigger] weights@[q] <= SCALE,
        decreases width - k,
    {
        weights.push(random_between(-SCALE, SCALE));
        k += 1;
    }
    let bias = random_between(-SCALE, SCALE);
    Node { weights, bias }
}

/// Every weight and the bias lie in `[-1, 1]`.
pub open spec fn node_unit(n: Node) -> bool {
    &&& -SCALE <= n.bias <= SCALE
    &&& forall|k: int| 0 <= k < n.weights@.len() ==> -SCALE <= #[trigger] n.weights@[k] <= SCALE
}

pub open spec fn layer_unit(l: Layer) -> bool {
    forall|j: int| 0 <= j < l.nodes@.len() ==> node_unit(#[trigger] l.nodes@[j])
}

impl Layer {
    fn new(size: usize, prev_size: usize) -> (r: Layer)
        requires
            size > 0,
            prev_size <= MAX_WIDTH,
        ensures
            layer_wf(r, prev_size as int),
            node_count(r) == size,
            layer_unit(r),
    {
        let mut nodes: Vec<Node> = Vec::new();
        let mut j: usize = 0;
        while j < size
            invariant
                prev_size <= MAX_WIDTH,
                j <= size,
                nodes@.len() == j,
                forall|q: int| 0 <= q < j ==> node_wf(#[trigger] nodes@[q], prev_size as int),
                forall|q: int| 0 <= q < j ==> node_unit(#[trigger] nodes@[q]),
            decreases size - j,
        {
            nodes.push(random_node(prev_size));
            j += 1;
        }
        Layer { nodes }
    }

    fn predict(&self, inputs: &Vec<i64>) -> (r: Vec<i64>)
        requires
            layer_wf(*self, inputs@.len() as int),
        ensures
            r@ == layer_output(*self, inputs@),
            forall|j: int| 0 <= j < r@.len() ==> 0 <= #[trigger] r@[j],
    {
        let mut out: Vec<i64> = Vec::new();
        let mut j: usize = 0;
        while j < self.nodes.len()
            invariant
                j <= self.nodes@.len(),
                layer_wf(*self, inputs@.len() as int),
                    out@.len() == j,
                forall|q: int| 0 <= q < j ==> #[trigger] out@[q] == node_output(self.nodes@[q], inputs@),
                forall|q: int| 0 <= q < j ==> 0 <= #[trigger] out@[q],
            decreases self.nodes@.len() - j,
        {
            let node = &self.nodes[j];
            assert(node_wf(*node, inputs@.len() as int));
            let mut acc: i128 = node.bias as i128 * SCALE as i128;
            let mut k: usize = 0;
            while k < node.weights.len()
                invariant
                    k <= node.weights@.len(),
                    node_wf(*node, inputs@.len() as int),
                    acc == node.bias * SCALE + dot(node.weights@, inputs@, k as int),
                    k <= MAX_WIDTH,
                    -(k + 1) * product_bound() <= acc <= (k + 1) * product_bound(),
                decreases node.weights@.len() - k,
            {
                let w = node.weights[k];
                let x = inputs[k];
                assert(param_ok(w as int));
                proof {
                    lemma_product_bound(w as int, x as int);
                }
                acc = acc + (w as i128) * (x as i128);
                k += 1;
            }
            let v: i64 = if acc <= 0 {
                0
            } else if acc / (SCALE as i128) > i64::MAX as i128 {
                i64::MAX
            } else {
                (acc / (SCALE as i128)) as i64
            };
            out.push(v);
            j += 1;
        }
        assert(out@ =~= layer_output(*self, inputs@));
        out
    }
}

impl Net {
    /// Builds a network with random weights and biases in `[-1, 1]`.
    /// `layer_sizes[0]` is the input width, each later entry the node count of a layer.
    pub fn new(layer_sizes: &[usize]) -> (r: Net)
        requires
            layer_sizes@.len() >= 2,
            forall|i: int| 0 <= i < layer_sizes@.len() ==> #[trigger] layer_sizes@[i] > 0,
            forall|i: int| 0 <= i < layer_sizes@.len() ==> #[trigger] layer_sizes@[i] <= MAX_WIDTH,
        ensures
            r.wf(),
            r.shape() == layer_sizes@.map_values(|v: usize| v as int),
            forall|i: int| 0 <= i < r.layers@.len() ==> layer_unit(#[trigger] r.layers@[i]),
    {
        let n_inputs = layer_sizes[0];
        let mut layers: Vec<Layer> = Vec::new();
        let mut prev = n_inputs;
        let mut i: usize = 1;
        while i < layer_sizes.len()
            invariant
                1 <= i <= layer_sizes@.len(),
                forall|q: int| 0 <= q < layer_sizes@.len() ==> #[trigger] layer_sizes@[q] > 0,
                forall|q: int| 0 <= q < layer_sizes@.len() ==> #[trigger] layer_sizes@[q] <= MAX_WIDTH,
                n_inputs == layer_sizes@[0],
                prev == layer_sizes@[i - 1],
                layers@.len() == i - 1,
                forall|q: int| 0 <= q < i - 1 ==> node_count(#[trigger] layers@[q]) == layer_sizes@[q + 1],
                forall|q: int|
                    0 <= q < i - 1 ==> layer_wf(#[trigger] layers@[q], layer_sizes@[q] as int),
                forall|q: int| 0 <= q < i - 1 ==> layer_unit(#[trigger] layers@[q]),
            decreases layer_sizes@.len() - i,
        {
            let size = layer_sizes[i];
            let l = Layer::new(size, prev);
            layers.push(l);
            prev = size;
            i += 1;
        }
        let r = Net { n_inputs, layers };
        assert forall|q: int| 0 <= q < r.layers@.len() implies layer_wf(#[trigger] r.layers@[q], r.width(q)) by {
            if q > 0 {
                assert(node_count(r.layers@[q - 1]) == layer_sizes@[q]);
            }
        }
        assert(r.shape() =~= layer_sizes@.map_values(|v: usize| v as int));
        r
    }

    /// Runs the inputs through every layer in order.
    pub fn predict(&self, inputs: Vec<i64>) -> (r: Vec<i64>)
        requires
            self.wf(),
            inputs@.len() == self.n_inputs,
        ensures
            r@ == self.output(inputs@),
            r@.len() == self.n_outputs(),
            forall|j: int| 0 <= j < r@.len() ==> 0 <= #[trigger] r@[j],
    {
        let mut cur = inputs;
        let ghost x = cur@;
        let mut i: usize = 0;
        while i < self.layers.len()
            invariant
                i <= self.layers@.len(),
                self.wf(),
                cur@ == self.forward(x, i as int),
                cur@.len() == self.width(i as int),
                i > 0 ==> forall|k: int| 0 <= k < cur@.len() ==> 0 <= #[trigger] cur@[k],
            decreases self.layers@.len() - i,
        {
            assert(layer_wf(self.layers@[i as int], self.width(i as int)));
            cur = self.layers[i].predict(&cur);
            i += 1;
        }
        cur
    }

    /// The biases of layer `layer_idx`, in node order.
    pub fn get_bias(&self, layer_idx: usize) -> (r: Vec<i64>)
        requires
            layer_idx < self.layers@.len(),
        ensures
            r@.len() == self.layers@[layer_idx as int].nodes@.len(),
            forall|j: int| 0 <= j < r@.len() ==> #[trigger] r@[j] == self.layers@[layer_idx as int].nodes@[j].bias,
    {
        let layer = &self.layers[layer_idx];
        let mut res: Vec<i64> = Vec::new();
        let mut j: usize = 0;
        while j < layer.nodes.len()
            invariant
                j <= layer.nodes@.len(),
                res@.len() == j,
                forall|q: int| 0 <= q < j ==> #[trigger] res@[q] == layer.nodes@[q].bias,
            decreases layer.nodes@.len() - j,
        {
            res.push(layer.nodes[j].bias);
            j += 1;
        }
        res
    }
}

/// What the first `k` layers emit has the width of layer `k`'s inputs,
/// and after at least one layer no value is negative.
proof fn lemma_forward(net: &Net, x: Seq<i64>, k: int)
    requires
        net.wf(),
        0 <= k <= net.layers@.len(),
        x.len() == net.n_inputs,
    ensures
        net.forward(x, k).len() == net.width(k),
        k > 0 ==> forall|j: int| 0 <= j < net.forward(x, k).len() ==> 0 <= #[trigger] net.forward(x, k)[j],
    decreases k,
{
    if k > 0 {
        lemma_forward(net, x, k - 1);
        let l = net.layers@[k - 1];
        let prev = net.forward(x, k - 1);
        assert forall|j: int| 0 <= j < net.forward(x, k).len() implies 0 <= #[trigger] net.forward(x, k)[j] by {
            let t = l.nodes@[j].bias * SCALE + dot(l.nodes@[j].weights@, prev, l.nodes@[j].weights@.len() as int);
            assert(0 <= activate(t) <= i64::MAX);
        }
    }
}

/// A well-formed network accepts inputs of its declared width and returns
/// one value per node of its last layer, none of them negative.
pub proof fn lemma_output_shape(net: &Net, x: Seq<i64>)
    requires
        net.wf(),
        x.len() == net.shape()[0],
    ensures
        net.output(x).len() == net.shape().last(),
        forall|j: int| 0 <= j < net.output(x).len() ==> 0 <= #[trigger] net.output(x)[j],
{
    assert(net.shape()[0] == net.width(0));
    assert(net.shape().last() == net.width(net.layers@.len() as int));
    lemma_forward(net, x, net.layers@.len() as int);
}

fn copy_node(n: &Node) -> (r: Node)
    ensures
        node_close(r, *n, 0),
{
    let mut weights: Vec<i64> = Vec::new();
    let mut k: usize = 0;
    while k < n.weights.len()
        invariant
            k <= n.weights@.len(),
            weights@.len() == k,
            forall|q: int| 0 <= q < k ==> #[trigger] weights@[q] == n.weights@[q],
        decreases n.weights@.len() - k,
    {
        weights.push(n.weights[k]);
        k += 1;
    }
    Node { weights, bias: n.bias }
}

fn copy_layer(l: &Layer) -> (r: Layer)
    ensures
        layer_close(r, *l, 0),
        forall|w: int| layer_wf(*l, w) ==> layer_wf(r, w),
{
    let mut nodes: Vec<Node> = Vec::new();
    let mut j: usize = 0;
    while j < l.nodes.len()
        invariant
            j <= l.nodes@.len(),
            nodes@.len() == j,
            forall|q: int| 0 <= q < j ==> node_close(#[trigger] nodes@[q], l.nodes@[q], 0),
        decreases l.nodes@.len() - j,
    {
        nodes.push(copy_node(&l.nodes[j]));
        j += 1;
    }
    let r = Layer { nodes };
    assert forall|w: int| layer_wf(*l, w) implies layer_wf(r, w) by {
        assert forall|q: int| 0 <= q < r.nodes@.len() implies node_wf(#[trigger] r.nodes@[q], w) by {
            assert(node_wf(l.nodes@[q], w));
            assert(node_close(r.nodes@[q], l.nodes@[q], 0));
        }
    }
    r
}

impl Net {
    /// An independent copy with the same shape and the same weights and biases.
    pub fn copy(&self) -> (r: Net)
        requires
            self.wf(),
        ensures
            r.wf(),
            r.shape() == self.shape(),
            r.close_to(self, 0),
    {
        let mut layers: Vec<Layer> = Vec::new();
        let mut i: usize = 0;
        while i < self.layers.len()
            invariant
                self.wf(),
                i <= self.layers@.len(),
                layers@.len() == i,
                forall|q: int| 0 <= q < i ==> layer_close(#[trigger] layers@[q], self.layers@[q], 0),
                forall|q: int| 0 <= q < i ==> layer_wf(#[trigger] layers@[q], self.width(q)),
            decreases self.layers@.len() - i,
        {
            assert(layer_wf(self.layers@[i as int], self.width(i as int)));
            layers.push(copy_layer(&self.layers[i]));
            i += 1;
        }
        let r = Net { n_inputs: self.n_inputs, layers };
        assert forall|q: int| 0 <= q < r.layers@.len() implies layer_wf(#[trigger] r.layers@[q], r.width(q)) by {
            if q > 0 {
                assert(layer_close(r.layers@[q - 1], self.layers@[q - 1], 0));
            }
        }
        assert(r.shape() =~= self.shape()) by {
            assert forall|q: int| 0 <= q < r.layers@.len() implies node_count(#[trigger] r.layers@[q]) == node_count(self.layers@[q]) by {
                assert(layer_close(r.layers@[q], self.layers@[q], 0));
            }
        }
        r
    }
}

fn node_ok(n: &Node, width: usize) -> (r: bool)
    ensures
        r == node_wf(*n, width as int),
{
    if width > MAX_WIDTH || n.weights.len() != width || n.bias < -MAX_PARAM || n.bias > MAX_PARAM {
        return false;
    }
    let mut k: usize = 0;
    while k < n.weights.len()
        invariant
            k <= n.weights@.len(),
            forall|q: int| 0 <= q < k ==> param_ok(#[trigger] n.weights@[q] as int),
        decreases n.weights@.len() - k,
    {
        if n.weights[k] < -MAX_PARAM || n.weights[k] > MAX_PARAM {
            assert(!param_ok(n.weights@[k as int] as int));
            return false;
        }
        k += 1;
    }
    true
}

fn layer_ok(l: &Layer, width: usize) -> (r: bool)
    ensures
        r == layer_wf(*l, width as int),
{
    if l.nodes.len() == 0 {
        return false;
    }
    let mut j: usize = 0;
    while j < l.nodes.len()
        invariant
            j <= l.nodes@.len(),
            forall|q: int| 0 <= q < j ==> node_wf(#[trigger] l.nodes@[q], width as int),
        decreases l.nodes@.len() - j,
    {
        if !node_ok(&l.nodes[j], width) {
            return false;
        }
        j += 1;
    }
    true
}

impl Net {
    /// Whether the topology invariant holds (for a network built from stored parts).
    pub fn is_well_formed(&self) -> (r: bool)
        ensures
            r == self.wf(),
    {
        if self.n_inputs == 0 || self.layers.len() == 0 {
            return false;
        }
        let mut width = self.n_inputs;
        let mut i: usize = 0;
        while i < self.layers.len()
            invariant
                i <= self.layers@.len(),
                width == self.width(i as int),
                forall|q: int| 0 <= q < i ==> layer_wf(#[trigger] self.layers@[q], self.width(q)),
            decreases self.layers@.len() - i,
        {
            if !layer_ok(&self.layers[i], width) {
                return false;
            }
            width = self.layers[i].nodes.len();
            i += 1;
        }
        true
    }
}

/// Keeps `v` within the parameter bound.
pub open spec fn clamp_param(v: int) -> int {
    if v > MAX_PARAM {
        MAX_PARAM as int
    } else if v < -MAX_PARAM {
        -MAX_PARAM as int
    } else {
        v
    }
}

/// `m` holds one entry per scalar of `n`: `m[i][j][k]` for weight `k` of
/// node `j` of layer `i`, and `m[i][j][w]` for that node's bias, where `w`
/// is its number of weights.
pub open spec fn fits_scalars<T>(m: Seq<Vec<Vec<T>>>, n: &Net) -> bool {
    &&& m.len() == n.layers@.len()
    &&& forall|i: int| 0 <= i < m.len() ==> (#[trigger] m[i])@.len() == n.layers@[i].nodes@.len()
    &&& forall|i: int, j: int|
        0 <= i < m.len() && 0 <= j < m[i]@.len() ==> (#[trigger] m[i]@[j])@.len()
            == n.layers@[i].nodes@[j].weights@.len() + 1
}

/// Each scalar of `c` is `a`'s where its pick is true and `b`'s where it is false.
pub open spec fn node_picked(c: Node, a: Node, b: Node, p: Seq<bool>) -> bool {
    &&& c.weights@.len() == a.weights@.len()
    &&& c.bias == if p[a.weights@.len() as int] { a.bias } else { b.bias }
    &&& forall|k: int|
        0 <= k < c.weights@.len() ==> #[trigger] c.weights@[k] == if p[k] {
            a.weights@[k]
        } else {
            b.weights@[k]
        }
}

pub open spec fn layer_picked(c: Layer, a: Layer, b: Layer, p: Seq<Vec<bool>>) -> bool {
    &&& c.nodes@.len() == a.nodes@.len()
    &&& forall|j: int|
        0 <= j < c.nodes@.len() ==> node_picked(#[trigger] c.nodes@[j], a.nodes@[j], b.nodes@[j], p[j]@)
}

/// Each scalar of `c` is `o`'s plus its delta, kept within the parameter bound.
pub open spec fn node_shifted(c: Node, o: Node, d: Seq<i64>) -> bool {
    &&& c.weights@.len() == o.weights@.len()
    &&& c.bias == clamp_param(o.bias + d[o.weights@.len() as int])
    &&& forall|k: int|
        0 <= k < c.weights@.len() ==> #[trigger] c.weights@[k] == clamp_param(o.weights@[k] + d[k])
}

pub open spec fn layer_shifted(c: Layer, o: Layer, d: Seq<Vec<i64>>) -> bool {
    &&& c.nodes@.len() == o.nodes@.len()
    &&& forall|j: int| 0 <= j < c.nodes@.len() ==> node_shifted(#[trigger] c.nodes@[j], o.nodes@[j], d[j]@)
}

/// Every delta lies in `[-m, m]`.
pub open spec fn deltas_within(d: Seq<Vec<Vec<i64>>>, m: int) -> bool {
    forall|i: int, j: int, k: int|
        0 <= i < d.len() && 0 <= j < d[i]@.len() && 0 <= k < d[i]@[j]@.len() ==> -m <= #[trigger] d[i]@[j]@[k]
            <= m
}

impl Net {
    /// Same shape as `a`, each scalar taken from `a` or `b` as `p` says.
    pub open spec fn picked_from(&self, a: &Net, b: &Net, p: Seq<Vec<Vec<bool>>>) -> bool {
        &&& self.n_inputs == a.n_inputs
        &&& self.layers@.len() == a.layers@.len()
        &&& forall|i: int|
            0 <= i < self.layers@.len() ==> layer_picked(#[trigger] self.layers@[i], a.layers@[i], b.layers@[i], p[i]@)
    }

    /// Same shape as `o`, each scalar `o`'s plus its delta in `d`, clamped.
    pub open spec fn shifted_from(&self, o: &Net, d: Seq<Vec<Vec<i64>>>) -> bool {
        &&& self.n_inputs == o.n_inputs
        &&& self.layers@.len() == o.layers@.len()
        &&& forall|i: int| 0 <= i < self.layers@.len() ==> layer_shifted(#[trigger] self.layers@[i], o.layers@[i], d[i]@)
    }
}

proof fn lemma_node_shift_close(c: Node, o: Node, d: Seq<i64>, width: int, m: int)
    requires
        node_shifted(c, o, d),
        node_wf(o, width),
        d.len() == width + 1,
        forall|k: int| 0 <= k < d.len() ==> -m <= #[trigger] d[k] <= m,
    ensures
        node_close(c, o, m),
        node_wf(c, width),
{
    assert(-m <= d[width] <= m);
    assert forall|k: int| 0 <= k < c.weights@.len() implies -m <= #[trigger] c.weights@[k] - o.weights@[k] <= m by {
        assert(-m <= d[k] <= m);
        assert(param_ok(o.weights@[k] as int));
    }
    assert forall|k: int| 0 <= k < width implies param_ok(#[trigger] c.weights@[k] as int) by {}
}

impl Layer {
    fn merge_with(&self, other: &Layer, picks: &Vec<Vec<bool>>) -> (r: Layer)
        requires
            self.nodes@.len() == other.nodes@.len(),
            picks@.len() == self.nodes@.len(),
            forall|j: int|
                0 <= j < self.nodes@.len() ==> (#[trigger] self.nodes@[j]).weights@.len()
                    == other.nodes@[j].weights@.len() && picks@[j]@.len() == self.nodes@[j].weights@.len() + 1,
        ensures
            layer_picked(r, *self, *other, picks@),
            layer_mix(r, *self, *other),
    {
        let mut nodes: Vec<Node> = Vec::new();
        let mut j: usize = 0;
        while j < self.nodes.len()
            invariant
                j <= self.nodes@.len(),
                self.nodes@.len() == other.nodes@.len(),
                picks@.len() == self.nodes@.len(),
                forall|q: int|
                    0 <= q < self.nodes@.len() ==> (#[trigger] self.nodes@[q]).weights@.len()
                        == other.nodes@[q].weights@.len() && picks@[q]@.len() == self.nodes@[q].weights@.len() + 1,
                nodes@.len() == j,
                forall|q: int|
                    0 <= q < j ==> node_picked(#[trigger] nodes@[q], self.nodes@[q], other.nodes@[q], picks@[q]@),
                forall|q: int| 0 <= q < j ==> node_mix(#[trigger] nodes@[q], self.nodes@[q], other.nodes@[q]),
            decreases self.nodes@.len() - j,
        {
            let a = &self.nodes[j];
            let b = &other.nodes[j];
            let p = &picks[j];
            assert(p@.len() == a.weights@.len() + 1);
            let mut weights: Vec<i64> = Vec::new();
            let mut k: usize = 0;
            while k < a.weights.len()
                invariant
                    k <= a.weights@.len(),
                    a.weights@.len() == b.weights@.len(),
                    p@.len() == a.weights@.len() + 1,
                    weights@.len() == k,
                    forall|q: int|
                        0 <= q < k ==> #[trigger] weights@[q] == if p@[q] {
                            a.weights@[q]
                        } else {
                            b.weights@[q]
                        },
                decreases a.weights@.len() - k,
            {
                let w = if p[k] {
                    a.weights[k]
                } else {
                    b.weights[k]
                };
                weights.push(w);
                k += 1;
            }
            let bias = if p[a.weights.len()] {
                a.bias
            } else {
                b.bias
            };
            nodes.push(Node { weights, bias });
            j += 1;
        }
        Layer { nodes }
    }

    fn shift(&self, deltas: &Vec<Vec<i64>>, Ghost(width): Ghost<int>) -> (r: Layer)
        requires
            layer_wf(*self, width),
            deltas@.len() == self.nodes@.len(),
            forall|j: int| 0 <= j < self.nodes@.len() ==> (#[trigger] deltas@[j])@.len() == width + 1,
        ensures
            layer_shifted(r, *self, deltas@),
            r.nodes@.len() == self.nodes@.len(),
    {
        let mut nodes: Vec<Node> = Vec::new();
        let mut j: usize = 0;
        while j < self.nodes.len()
            invariant
                j <= self.nodes@.len(),
                layer_wf(*self, width),
                deltas@.len() == self.nodes@.len(),
                forall|q: int| 0 <= q < self.nodes@.len() ==> (#[trigger] deltas@[q])@.len() == width + 1,
                nodes@.len() == j,
                forall|q: int| 0 <= q < j ==> node_shifted(#[trigger] nodes@[q], self.nodes@[q], deltas@[q]@),
            decreases self.nodes@.len() - j,
        {
            let node = &self.nodes[j];
            let d = &deltas[j];
            assert(node_wf(*node, width));
            assert(d@.len() == width + 1);
            let mut weights: Vec<i64> = Vec::new();
            let mut k: usize = 0;
            while k < node.weights.len()
                invariant
                    k <= node.weights@.len(),
                    node.weights@.len() == width,
                    d@.len() == width + 1,
                    weights@.len() == k,
                    forall|q: int| 0 <= q < k ==> #[trigger] weights@[q] == clamp_param(node.weights@[q] + d@[q]),
                decreases node.weights@.len() - k,
            {
                weights.push(clamp_sum(node.weights[k], d[k]));
                k += 1;
            }
            let bias = clamp_sum(node.bias, d[node.weights.len()]);
            nodes.push(Node { weights, bias });
            j += 1;
        }
        Layer { nodes }
    }
}

/// `v + d`, kept within the parameter bound.
fn clamp_sum(v: i64, d: i64) -> (r: i64)
    ensures
        r == clamp_param(v + d),
{
    let s: i128 = v as i128 + d as i128;
    if s > MAX_PARAM as i128 {
        MAX_PARAM
    } else if s < -MAX_PARAM as i128 {
        -MAX_PARAM
    } else {
        s as i64
    }
}

/// With probability `rate` (in millionths) a value drawn from
/// `[-magnitude, magnitude]`, else zero.
fn draw_delta(rate: i64, magnitude: i64) -> (r: i64)
    requires
        rate > 0 ==> magnitude >= 0,
    ensures
        rate <= 0 ==> r == 0,
        rate > 0 ==> -magnitude <= r <= magnitude,
{
    if random_between(0, SCALE - 1) < rate {
        random_between(-magnitude, magnitude)
    } else {
        0
    }
}

/// A fair coin for every scalar of `n`.
fn draw_picks(n: &Net) -> (r: Vec<Vec<Vec<bool>>>)
    ensures
        fits_scalars(r@, n),
{
    let mut r: Vec<Vec<Vec<bool>>> = Vec::new();
    let mut i: usize = 0;
    while i < n.layers.len()
        invariant
            i <= n.layers@.len(),
            r@.len() == i,
            forall|q: int| 0 <= q < i ==> (#[trigger] r@[q])@.len() == n.layers@[q].nodes@.len(),
            forall|q: int, j: int|
                0 <= q < i && 0 <= j < r@[q]@.len() ==> (#[trigger] r@[q]@[j])@.len()
                    == n.layers@[q].nodes@[j].weights@.len() + 1,
        decreases n.layers@.len() - i,
    {
        let layer = &n.layers[i];
        let mut lp: Vec<Vec<bool>> = Vec::new();
        let mut j: usize = 0;
        while j < layer.nodes.len()
            invariant
                j <= layer.nodes@.len(),
                lp@.len() == j,
                forall|q: int| 0 <= q < j ==> (#[trigger] lp@[q])@.len() == layer.nodes@[q].weights@.len() + 1,
            decreases layer.nodes@.len() - j,
        {
            let w = layer.nodes[j].weights.len();
            let mut np: Vec<bool> = Vec::new();
            let mut k: usize = 0;
            while k < w
                invariant
                    k <= w,
                    np@.len() == k,
                decreases w - k,
            {
                np.push(coin_flip());
                k += 1;
            }
            np.push(coin_flip());
            lp.push(np);
            j += 1;
        }
        r.push(lp);
        i += 1;
    }
    r
}

/// For every scalar of `n`: with probability `rate` (in millionths) a delta
/// drawn from `[-magnitude, magnitude]`, else zero.
fn draw_deltas(n: &Net, rate: i64, magnitude: i64) -> (r: Vec<Vec<Vec<i64>>>)
    requires
        rate > 0 ==> magnitude >= 0,
    ensures
        fits_scalars(r@, n),
        deltas_within(r@, if rate <= 0 { 0 } else { magnitude as int }),
{
    let ghost m: int = if rate <= 0 { 0 } else { magnitude as int };
    let mut r: Vec<Vec<Vec<i64>>> = Vec::new();
    let mut i: usize = 0;
    while i < n.layers.len()
        invariant
            i <= n.layers@.len(),
            rate > 0 ==> magnitude >= 0,
            m == if rate <= 0 { 0 } else { magnitude as int },
            r@.len() == i,
            forall|q: int| 0 <= q < i ==> (#[trigger] r@[q])@.len() == n.layers@[q].nodes@.len(),
            forall|q: int, j: int|
                0 <= q < i && 0 <= j < r@[q]@.len() ==> (#[trigger] r@[q]@[j])@.len()
                    == n.layers@[q].nodes@[j].weights@.len() + 1,
            deltas_within(r@, m),
        decreases n.layers@.len() - i,
    {
        let layer = &n.layers[i];
        let mut lp: Vec<Vec<i64>> = Vec::new();
        let mut j: usize = 0;
        while j < layer.nodes.len()
            invariant
                j <= layer.nodes@.len(),
                rate > 0 ==> magnitude >= 0,
                m == if rate <= 0 { 0 } else { magnitude as int },
                lp@.len() == j,
                forall|q: int| 0 <= q < j ==> (#[trigger] lp@[q])@.len() == layer.nodes@[q].weights@.len() + 1,
                forall|q: int, k: int| 0 <= q < j && 0 <= k < lp@[q]@.len() ==> -m <= #[trigger] lp@[q]@[k] <= m,
            decreases layer.nodes@.len() - j,
        {
            let w = layer.nodes[j].weights.len();
            let mut np: Vec<i64> = Vec::new();
            let mut k: usize = 0;
            while k < w
                invariant
                    k <= w,
                    rate > 0 ==> magnitude >= 0,
                    m == if rate <= 0 { 0 } else { magnitude as int },
                    np@.len() == k,
                    forall|q: int| 0 <= q < k ==> -m <= #[trigger] np@[q] <= m,
                decreases w - k,
            {
                np.push(draw_delta(rate, magnitude));
                k += 1;
            }
            np.push(draw_delta(rate, magnitude));
            lp.push(np);
            j += 1;
        }
        let ghost before = r@;
        r.push(lp);
        assert forall|a: int, b: int, c: int|
            0 <= a < r@.len() && 0 <= b < r@[a]@.len() && 0 <= c < r@[a]@[b]@.len() implies -m
            <= #[trigger] r@[a]@[b]@[c] <= m by {
            if a < i {
                assert(r@[a] == before[a]);
            }
        }
        i += 1;
    }
    r
}

impl Net {
    /// Crossover with the choices given: each weight and bias of the child
    /// is `self`'s where its pick is true and `other`'s where it is false.
    pub fn merge_with(&self, other: &Net, picks: &Vec<Vec<Vec<bool>>>) -> (r: Net)
        requires
            self.wf(),
            other.wf(),
            self.shape() == other.shape(),
            fits_scalars(picks@, self),
        ensures
            r.wf(),
            r.shape() == self.shape(),
            r.picked_from(self, other, picks@),
            r.mix_of(self, other),
    {
        assert(self.shape().len() == self.layers@.len() + 1);
        assert(other.shape().len() == other.layers@.len() + 1);
        let mut layers: Vec<Layer> = Vec::new();
        let mut i: usize = 0;
        while i < self.layers.len()
            invariant
                i <= self.layers@.len(),
                self.layers@.len() == other.layers@.len(),
                self.wf(),
                other.wf(),
                self.shape() == other.shape(),
                fits_scalars(picks@, self),
                layers@.len() == i,
                forall|q: int|
                    0 <= q < i ==> layer_picked(#[trigger] layers@[q], self.layers@[q], other.layers@[q], picks@[q]@),
                forall|q: int|
                    0 <= q < i ==> layer_mix(#[trigger] layers@[q], self.layers@[q], other.layers@[q]),
            decreases self.layers@.len() - i,
        {
            assert(self.shape()[i + 1] == self.width(i + 1));
            assert(other.shape()[i + 1] == other.width(i + 1));
            assert(self.shape()[i as int] == self.width(i as int));
            assert(other.shape()[i as int] == other.width(i as int));
            assert(layer_wf(self.layers@[i as int], self.width(i as int)));
            assert(layer_wf(other.layers@[i as int], other.width(i as int)));
            assert(picks@[i as int]@.len() == self.layers@[i as int].nodes@.len());
            assert forall|j: int| 0 <= j < self.layers@[i as int].nodes@.len() implies (
            #[trigger] self.layers@[i as int].nodes@[j]).weights@.len()
                == other.layers@[i as int].nodes@[j].weights@.len() && picks@[i as int]@[j]@.len()
                == self.layers@[i as int].nodes@[j].weights@.len() + 1 by {
                assert(node_wf(self.layers@[i as int].nodes@[j], self.width(i as int)));
                assert(node_wf(other.layers@[i as int].nodes@[j], other.width(i as int)));
            }
            let l = self.layers[i].merge_with(&other.layers[i], &picks[i]);
            layers.push(l);
            i += 1;
        }
        let r = Net { n_inputs: self.n_inputs, layers };
        assert forall|q: int| 0 <= q < r.layers@.len() implies layer_wf(#[trigger] r.layers@[q], r.width(q)) by {
            assert(layer_wf(self.layers@[q], self.width(q)));
            assert(layer_wf(other.layers@[q], other.width(q)));
            assert(layer_mix(r.layers@[q], self.layers@[q], other.layers@[q]));
            if q > 0 {
                assert(layer_mix(r.layers@[q - 1], self.layers@[q - 1], other.layers@[q - 1]));
            }
            assert(self.shape()[q] == self.width(q));
            assert(other.shape()[q] == other.width(q));
            assert(self.width(q) == other.width(q));
            assert(r.width(q) == self.width(q));
            assert(self.shape()[q + 1] == self.width(q + 1));
            assert(other.shape()[q + 1] == other.width(q + 1));
            assert(node_count(self.layers@[q]) == node_count(other.layers@[q]));
            assert forall|j: int| 0 <= j < r.layers@[q].nodes@.len() implies node_wf(
                #[trigger] r.layers@[q].nodes@[j],
                r.width(q),
            ) by {
                assert(node_mix(r.layers@[q].nodes@[j], self.layers@[q].nodes@[j], other.layers@[q].nodes@[j]));
                assert(node_wf(self.layers@[q].nodes@[j], self.width(q)));
                assert(node_wf(other.layers@[q].nodes@[j], other.width(q)));
            }
        }
        assert(r.shape() =~= self.shape());
        r
    }

    /// Crossover: each weight and bias of the child comes from `self` or
    /// from `other`, by a fair coin per scalar.
    pub fn merge(&self, other: &Net) -> (r: Net)
        requires
            self.wf(),
            other.wf(),
            self.shape() == other.shape(),
        ensures
            r.wf(),
            r.shape() == self.shape(),
            r.mix_of(self, other),
    {
        let picks = draw_picks(self);
        self.merge_with(other, &picks)
    }

    /// Mutation with the deltas given: each weight and bias becomes its old
    /// value plus its delta, kept within `[-MAX_PARAM, MAX_PARAM]`.
    pub fn mutate_with(&mut self, deltas: &Vec<Vec<Vec<i64>>>)
        requires
            old(self).wf(),
            fits_scalars(deltas@, old(self)),
        ensures
            final(self).wf(),
            final(self).shape() == old(self).shape(),
            final(self).shifted_from(old(self), deltas@),
            forall|m: int| m >= 0 && deltas_within(deltas@, m) ==> #[trigger] final(self).close_to(old(self), m),
    {
        let ghost before = *self;
        let mut layers: Vec<Layer> = Vec::new();
        let mut i: usize = 0;
        while i < self.layers.len()
            invariant
                *self == before,
                self.wf(),
                fits_scalars(deltas@, self),
                i <= self.layers@.len(),
                layers@.len() == i,
                forall|q: int| 0 <= q < i ==> layer_shifted(#[trigger] layers@[q], self.layers@[q], deltas@[q]@),
            decreases self.layers@.len() - i,
        {
            assert(layer_wf(self.layers@[i as int], self.width(i as int)));
            assert forall|j: int| 0 <= j < self.layers@[i as int].nodes@.len() implies (
            #[trigger] deltas@[i as int]@[j])@.len() == self.width(i as int) + 1 by {
                assert(node_wf(self.layers@[i as int].nodes@[j], self.width(i as int)));
            }
            let l = self.layers[i].shift(&deltas[i], Ghost(self.width(i as int)));
            layers.push(l);
            i += 1;
        }
        self.layers = layers;
        assert forall|q: int, j: int|
            0 <= q < self.layers@.len() && 0 <= j < self.layers@[q].nodes@.len() implies node_wf(
            #[trigger] self.layers@[q].nodes@[j],
            before.width(q),
        ) && (forall|m: int|
            m >= 0 && deltas_within(deltas@, m) ==> node_close(self.layers@[q].nodes@[j], before.layers@[q].nodes@[j], m)) by {
            assert(layer_wf(before.layers@[q], before.width(q)));
            assert(layer_shifted(self.layers@[q], before.layers@[q], deltas@[q]@));
            let o = before.layers@[q].nodes@[j];
            let d = deltas@[q]@[j]@;
            assert(node_wf(o, before.width(q)));
            assert(d.len() == before.width(q) + 1);
            assert forall|m: int| m >= 0 && deltas_within(deltas@, m) implies node_close(
                self.layers@[q].nodes@[j],
                o,
                m,
            ) by {
                assert forall|k: int| 0 <= k < d.len() implies -m <= #[trigger] d[k] <= m by {
                    assert(-m <= deltas@[q]@[j]@[k] <= m);
                }
                lemma_node_shift_close(self.layers@[q].nodes@[j], o, d, before.width(q), m);
            }
            assert(node_shifted(self.layers@[q].nodes@[j], o, d));
            assert forall|k: int| 0 <= k < before.width(q) implies param_ok(#[trigger] self.layers@[q].nodes@[j].weights@[k] as int) by {}
        }
        assert forall|q: int| 0 <= q < self.layers@.len() implies layer_wf(#[trigger] self.layers@[q], self.width(q)) by {
            assert(layer_wf(before.layers@[q], before.width(q)));
            if q > 0 {
                assert(layer_shifted(self.layers@[q - 1], before.layers@[q - 1], deltas@[q - 1]@));
            }
            assert(layer_shifted(self.layers@[q], before.layers@[q], deltas@[q]@));
            assert forall|j: int| 0 <= j < self.layers@[q].nodes@.len() implies node_wf(
                #[trigger] self.layers@[q].nodes@[j],
                self.width(q),
            ) by {
                assert(node_wf(self.layers@[q].nodes@[j], before.width(q)));
            }
        }
        assert(self.shape() =~= before.shape()) by {
            assert forall|q: int| 0 <= q < self.layers@.len() implies node_count(#[trigger] self.layers@[q]) == node_count(before.layers@[q]) by {
                assert(layer_shifted(self.layers@[q], before.layers@[q], deltas@[q]@));
            }
        }
        assert forall|m: int| m >= 0 && deltas_within(deltas@, m) implies #[trigger] self.close_to(&before, m) by {
            assert forall|q: int| 0 <= q < self.layers@.len() implies layer_close(#[trigger] self.layers@[q], before.layers@[q], m) by {
                assert(layer_shifted(self.layers@[q], before.layers@[q], deltas@[q]@));
                assert forall|j: int| 0 <= j < self.layers@[q].nodes@.len() implies node_close(#[trigger] self.layers@[q].nodes@[j], before.layers@[q].nodes@[j], m) by {
                    assert(node_wf(self.layers@[q].nodes@[j], before.width(q)));
                }
            }
        }
    }

    /// Perturbs each weight and bias with probability `rate` (in millionths)
    /// by an amount drawn from `[-magnitude, magnitude]`, keeping it within
    /// `[-MAX_PARAM, MAX_PARAM]`; the topology stays.
    pub fn mutate(&mut self, rate: i64, magnitude: i64)
        requires
            old(self).wf(),
            rate > 0 ==> magnitude >= 0,
        ensures
            final(self).wf(),
            final(self).shape() == old(self).shape(),
            rate <= 0 ==> final(self).close_to(old(self), 0),
            rate > 0 ==> final(self).close_to(old(self), magnitude as int),
    {
        let deltas = draw_deltas(self, rate, magnitude);
        let ghost m: int = if rate <= 0 { 0 } else { magnitude as int };
        self.mutate_with(&deltas);
        assert(m >= 0 && deltas_within(deltas@, m));
    }
}

} // verus!
