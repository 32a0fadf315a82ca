use dl_core::{
    ce_graph, he_uniform, mse, mse_graph, xavier_uniform, CpuBackend, Graph, Linear, Module,
    OpId, ParameterState, ReLU, Scalar, Shape, Sigmoid, Tensor, TensorError, UniformSource, MLP2,
};
use std::sync::Arc;

#[derive(Clone, Copy, Debug, PartialEq)]
struct Real(f32);

impl Scalar for Real {
    fn zero() -> Self {
        Real(0.0)
    }
    fn one() -> Self {
        Real(1.0)
    }
    fn add(self, rhs: Self) -> Self {
        Real(self.0 + rhs.0)
    }
    fn sub(self, rhs: Self) -> Self {
        Real(self.0 - rhs.0)
    }
    fn mul(self, rhs: Self) -> Self {
        Real(self.0 * rhs.0)
    }
    fn div(self, rhs: Self) -> Self {
        Real(self.0 / rhs.0)
    }
    fn neg(self) -> Self {
        Real(-self.0)
    }
    fn exp(self) -> Self {
        Real(self.0.exp())
    }
    fn ln(self) -> Self {
        Real(self.0.ln())
    }
    fn is_positive(self) -> bool {
        self.0 > 0.0
    }
    fn exceeds(self, rhs: Self) -> bool {
        self.0 > rhs.0
    }
    fn sqrt(self) -> Self {
        Real(self.0.sqrt())
    }
    fn powi(self, n: i32) -> Self {
        Real(self.0.powi(n))
    }
    fn from_count(n: usize) -> Self {
        Real(n as f32)
    }
}

type T = Tensor<Real, CpuBackend>;

fn tensor(data: &[f32], dims: &[usize]) -> T {
    let data: Vec<Real> = data.iter().map(|x| Real(*x)).collect();
    Tensor::from_vec(data, Shape::new(dims.to_vec()), Arc::new(CpuBackend::new())).unwrap()
}

fn values(t: &T) -> Vec<f32> {
    t.data().iter().map(|x| x.0).collect()
}

fn close(a: &[f32], b: &[f32]) -> bool {
    a.len() == b.len() && a.iter().zip(b.iter()).all(|(x, y)| (x - y).abs() < 1e-5)
}

fn backend() -> Arc<CpuBackend> {
    Arc::new(CpuBackend::new())
}

/// Hands out the upper bound it is asked with, and keeps the bounds.
struct Upper {
    asked: Vec<(f32, f32)>,
}

impl UniformSource<Real> for Upper {
    fn uniform(&mut self, low: Real, high: Real) -> Real {
        self.asked.push((low.0, high.0));
        high
    }
}

fn set(t: &mut T, data: &[f32]) {
    let slot = t.data_mut();
    for (i, x) in data.iter().enumerate() {
        slot[i] = Real(*x);
    }
}

fn linear(weights: &[f32], bias: &[f32], inputs: usize, outputs: usize) -> Linear<Real, CpuBackend> {
    let mut layer = Linear::new(inputs, outputs, backend()).unwrap();
    set(layer.weight.data_mut(), weights);
    set(layer.bias.data_mut(), bias);
    layer
}

#[test]
fn mse_is_the_mean_of_squared_differences() {
    let loss = mse(&tensor(&[1.0, 2.0, 3.0], &[3]), &tensor(&[1.0, 1.0, 1.0], &[3])).unwrap();
    assert_eq!(loss.shape().dims(), &[1]);
    assert!(close(&values(&loss), &[5.0 / 3.0]));
}

#[test]
fn mse_of_equal_arrays_is_zero() {
    let a = tensor(&[0.5, -2.0, 4.0, 1.0], &[2, 2]);
    let loss = mse(&a, &a.clone()).unwrap();
    assert_eq!(values(&loss), vec![0.0]);
}

#[test]
fn mse_rejects_different_shapes() {
    let r = mse(&tensor(&[1.0, 2.0], &[2]), &tensor(&[1.0, 2.0], &[1, 2]));
    assert!(matches!(r, Err(TensorError::Shape(_))));
}

#[test]
fn mse_graph_appends_six_nodes_and_computes_the_loss() {
    let mut g: Graph<Real, CpuBackend> = Graph::new();
    let pred = g.var(tensor(&[1.0, 2.0, 3.0], &[3]));
    let loss = mse_graph(&mut g, pred, &tensor(&[1.0, 1.0, 1.0], &[3])).unwrap();
    assert_eq!(loss, pred + 6);
    assert!(g.data(loss + 1).is_err());
    assert!(close(&values(g.data(loss).unwrap()), &[5.0 / 3.0]));
    g.backward(loss).unwrap();
    assert!(close(&values(g.grad(pred).unwrap().unwrap()), &[0.0, 2.0 / 3.0, 4.0 / 3.0]));
}

#[test]
fn mse_graph_agrees_with_mse() {
    let pred = tensor(&[0.5, -1.5, 2.0, 4.0], &[2, 2]);
    let target = tensor(&[1.0, 0.0, 2.5, -1.0], &[2, 2]);
    let direct = mse(&pred, &target).unwrap();
    let mut g: Graph<Real, CpuBackend> = Graph::new();
    let id = g.var(pred);
    let loss = mse_graph(&mut g, id, &target).unwrap();
    assert!(close(&values(g.data(loss).unwrap()), &values(&direct)));
}

#[test]
fn mse_graph_rejects_unknown_node_and_other_shape() {
    let mut g: Graph<Real, CpuBackend> = Graph::new();
    let pred = g.var(tensor(&[1.0, 2.0], &[2]));
    assert!(mse_graph(&mut g, pred + 7, &tensor(&[1.0, 2.0], &[2])).is_err());
    // the target stays as a leaf
    assert_eq!(values(g.data(pred + 1).unwrap()), vec![1.0, 2.0]);
    assert!(g.data(pred + 2).is_err());
    assert!(mse_graph(&mut g, pred, &tensor(&[1.0, 2.0, 3.0], &[3])).is_err());
    assert_eq!(values(g.data(pred + 2).unwrap()), vec![1.0, 2.0, 3.0]);
    assert!(g.data(pred + 3).is_err());
}

#[test]
fn mse_graph_of_the_target_against_itself_is_zero() {
    let mut g: Graph<Real, CpuBackend> = Graph::new();
    let first = g.var(tensor(&[4.0], &[1]));
    // the next node is the leaf that holds the target
    let loss = mse_graph(&mut g, first + 1, &tensor(&[1.0, 2.0], &[2])).unwrap();
    assert_eq!(values(g.data(loss).unwrap()), vec![0.0]);
}

#[test]
fn ce_graph_of_uniform_logits_is_log_two() {
    let mut g: Graph<Real, CpuBackend> = Graph::new();
    let logits = g.var(tensor(&[0.0, 0.0, 0.0, 0.0], &[2, 2]));
    let loss = ce_graph(&mut g, logits, &tensor(&[1.0, 0.0, 0.0, 1.0], &[2, 2])).unwrap();
    assert_eq!(loss, logits + 7);
    assert!(close(&values(g.data(loss).unwrap()), &[std::f32::consts::LN_2]));
    g.backward(loss).unwrap();
    assert!(close(&values(g.grad(logits).unwrap().unwrap()), &[-0.25, 0.25, 0.25, -0.25]));
}

#[test]
fn ce_graph_divides_by_the_batch_size() {
    let mut g: Graph<Real, CpuBackend> = Graph::new();
    let logits = g.var(tensor(&[1.0, 3.0], &[1, 2]));
    let loss = ce_graph(&mut g, logits, &tensor(&[0.0, 1.0], &[1, 2])).unwrap();
    let expected = -((3.0f32).exp() / ((1.0f32).exp() + (3.0f32).exp())).ln();
    assert!(close(&values(g.data(loss).unwrap()), &[expected]));
}

#[test]
fn ce_graph_rejects_and_leaves_the_graph() {
    let mut g: Graph<Real, CpuBackend> = Graph::new();
    let logits = g.var(tensor(&[1.0, 3.0], &[1, 2]));
    assert!(ce_graph(&mut g, logits + 1, &tensor(&[0.0, 1.0], &[1, 2])).is_err());
    assert!(ce_graph(&mut g, logits, &tensor(&[0.0, 1.0], &[2])).is_err());
    assert!(g.data(logits + 1).is_err());
}

#[test]
fn linear_starts_with_zeros() {
    let layer: Linear<Real, CpuBackend> = Linear::new(2, 3, backend()).unwrap();
    assert_eq!(layer.weight.data().shape().dims(), &[2, 3]);
    assert_eq!(values(layer.weight.data()), vec![0.0; 6]);
    assert_eq!(layer.bias.data().shape().dims(), &[3]);
    assert_eq!(values(layer.bias.data()), vec![0.0; 3]);
    assert!(layer.weight.name().is_none());
}

#[test]
fn named_linear_names_its_parameters() {
    let layer: Linear<Real, CpuBackend> = Linear::named("fc1", 2, 1, backend()).unwrap();
    assert_eq!(layer.weight.name(), Some("fc1.weight"));
    assert_eq!(layer.bias.name(), Some("fc1.bias"));
}

#[test]
fn linear_forward_is_product_plus_bias() {
    let layer = linear(&[2.0, 3.0], &[1.0], 2, 1);
    let y = layer.forward(&tensor(&[1.0, 2.0, -1.0, 0.5], &[2, 2])).unwrap();
    assert_eq!(y.shape().dims(), &[2, 1]);
    assert_eq!(values(&y), vec![9.0, 0.5]);
}

#[test]
fn linear_forward_rejects_other_width() {
    let layer = linear(&[2.0, 3.0], &[1.0], 2, 1);
    assert!(layer.forward(&tensor(&[1.0, 2.0, 3.0], &[1, 3])).is_err());
    assert!(layer.forward(&tensor(&[1.0, 2.0], &[2])).is_err());
}

#[test]
fn linear_forward_graph_lists_weight_then_bias() {
    let layer = linear(&[2.0, 3.0], &[1.0], 2, 1);
    let mut g: Graph<Real, CpuBackend> = Graph::new();
    let x = g.var(tensor(&[1.0, 2.0], &[1, 2]));
    let (out, ids) = layer.forward_graph(&mut g, x).unwrap();
    assert_eq!(ids.len(), 2);
    assert_eq!(values(g.data(ids[0]).unwrap()), vec![2.0, 3.0]);
    assert_eq!(values(g.data(ids[1]).unwrap()), vec![1.0]);
    assert_eq!(values(g.data(out).unwrap()), vec![9.0]);
    let loss = g.apply(OpId::Sum, &[out]).unwrap();
    g.backward(loss).unwrap();
    assert_eq!(values(g.grad(ids[0]).unwrap().unwrap()), vec![1.0, 2.0]);
    assert_eq!(values(g.grad(ids[1]).unwrap().unwrap()), vec![1.0]);
    assert_eq!(values(g.grad(x).unwrap().unwrap()), vec![2.0, 3.0]);
}

#[test]
fn linear_forward_graph_rejects_unknown_node() {
    let layer = linear(&[2.0, 3.0], &[1.0], 2, 1);
    let mut g: Graph<Real, CpuBackend> = Graph::new();
    let x = g.var(tensor(&[1.0, 2.0], &[1, 2]));
    assert!(layer.forward_graph(&mut g, x + 1).is_err());
}

#[test]
fn linear_graph_and_array_forward_agree() {
    let layer = linear(&[0.5, -1.0, 2.0, 0.25, 1.5, -0.5], &[0.1, 0.2, 0.3], 2, 3);
    let x = tensor(&[1.0, 2.0, 3.0, 4.0], &[2, 2]);
    let direct = layer.forward(&x).unwrap();
    let mut g: Graph<Real, CpuBackend> = Graph::new();
    let id = g.var(x);
    let (out, _) = layer.forward_graph(&mut g, id).unwrap();
    assert!(close(&values(g.data(out).unwrap()), &values(&direct)));
}

#[test]
fn linear_lists_two_parameters() {
    let mut layer = linear(&[2.0, 3.0], &[1.0], 2, 1);
    {
        let ps = layer.parameters();
        assert_eq!(ps.len(), 2);
        assert_eq!(values(ps[0].data()), vec![2.0, 3.0]);
        assert_eq!(values(ps[1].data()), vec![1.0]);
    }
    let mut ps = layer.parameters_mut();
    assert_eq!(ps.len(), 2);
    ps[1].set_frozen(true);
    assert!(layer.bias.is_frozen());
    assert!(!layer.weight.is_frozen());
}

#[test]
fn mlp_is_linear_relu_linear() {
    let mut model: MLP2<Real, CpuBackend> = MLP2::new(2, 3, 1, backend()).unwrap();
    set(model.linear1.weight.data_mut(), &[1.0, -1.0, 0.0, 0.0, 1.0, 1.0]);
    set(model.linear1.bias.data_mut(), &[0.0, 0.0, -5.0]);
    set(model.linear2.weight.data_mut(), &[1.0, 2.0, 3.0]);
    set(model.linear2.bias.data_mut(), &[0.5]);
    let x = tensor(&[1.0, 2.0], &[1, 2]);
    let y = model.forward(&x).unwrap();
    assert_eq!(y.shape().dims(), &[1, 1]);
    assert_eq!(values(&y), vec![3.5]);
    let mut g: Graph<Real, CpuBackend> = Graph::new();
    let id = g.var(x);
    let (out, ids) = model.forward_graph(&mut g, id).unwrap();
    assert_eq!(values(g.data(out).unwrap()), vec![3.5]);
    assert_eq!(ids.len(), 4);
    assert_eq!(values(g.data(ids[0]).unwrap()), vec![1.0, -1.0, 0.0, 0.0, 1.0, 1.0]);
    assert_eq!(values(g.data(ids[1]).unwrap()), vec![0.0, 0.0, -5.0]);
    assert_eq!(values(g.data(ids[2]).unwrap()), vec![1.0, 2.0, 3.0]);
    assert_eq!(values(g.data(ids[3]).unwrap()), vec![0.5]);
    assert_eq!(model.parameters().len(), 4);
}

#[test]
fn mlp_names_are_none_and_shapes_fit() {
    let model: MLP2<Real, CpuBackend> = MLP2::new(4, 8, 2, backend()).unwrap();
    assert_eq!(model.linear1.weight.data().shape().dims(), &[4, 8]);
    assert_eq!(model.linear1.bias.data().shape().dims(), &[8]);
    assert_eq!(model.linear2.weight.data().shape().dims(), &[8, 2]);
    assert_eq!(model.linear2.bias.data().shape().dims(), &[2]);
    for p in model.parameters() {
        assert!(values(p.data()).iter().all(|x| *x == 0.0));
        assert!(p.grad().is_none());
        assert!(p.name().is_none());
        assert!(!p.is_frozen());
    }
    let named: Linear<Real, CpuBackend> = Linear::named("fc", 2, 3, backend()).unwrap();
    assert!(named.weight.grad().is_none() && named.bias.grad().is_none());
    assert!(!named.weight.is_frozen() && !named.bias.is_frozen());
}

#[test]
fn activations_hold_no_parameters() {
    let relu = ReLU::new();
    let sigmoid = Sigmoid::new();
    let x = tensor(&[-1.0, 0.0, 2.0], &[3]);
    assert_eq!(values(&Module::<Real, CpuBackend>::forward(&relu, &x).unwrap()), vec![0.0, 0.0, 2.0]);
    assert!(close(
        &values(&Module::<Real, CpuBackend>::forward(&sigmoid, &tensor(&[0.0], &[1])).unwrap()),
        &[0.5]
    ));
    assert!(Module::<Real, CpuBackend>::parameters(&relu).is_empty());
    assert!(Module::<Real, CpuBackend>::parameters(&sigmoid).is_empty());
    let mut g: Graph<Real, CpuBackend> = Graph::new();
    let id = g.var(x);
    let (out, ids) = relu.forward_graph(&mut g, id).unwrap();
    assert!(ids.is_empty());
    assert_eq!(values(g.data(out).unwrap()), vec![0.0, 0.0, 2.0]);
    let (out, ids) = sigmoid.forward_graph(&mut g, out).unwrap();
    assert!(ids.is_empty());
    assert!(close(&values(g.data(out).unwrap()), &[0.5, 0.5, 1.0 / (1.0 + (-2.0f32).exp())]));
}

#[test]
fn state_dict_round_trip_gives_the_same_forward() {
    let model = linear(&[0.25, -0.75], &[0.5], 2, 1);
    let x = tensor(&[1.0, 2.0], &[1, 2]);
    let before = values(&model.forward(&x).unwrap());
    let states = model.state_dict();
    assert_eq!(states.len(), 2);
    assert_eq!(states[0].shape, vec![2, 1]);
    assert_eq!(states[1].shape, vec![1]);
    let mut other: Linear<Real, CpuBackend> = Linear::new(2, 1, backend()).unwrap();
    other.load_state_dict(&states, backend()).unwrap();
    let after = values(&other.forward(&x).unwrap());
    assert!(close(&before, &after));
    assert_eq!(after, vec![-0.75]);
}

#[test]
fn load_state_dict_rejects_another_count() {
    let mut model = linear(&[0.25, -0.75], &[0.5], 2, 1);
    let states = vec![ParameterState { name: None, shape: vec![2, 1], data: vec![Real(1.0), Real(2.0)] }];
    let r = model.load_state_dict(&states, backend());
    match r {
        Err(TensorError::Shape(e)) => {
            assert_eq!(e.0, "load_state_dict: got 1 states, module has 2 parameters")
        }
        _ => panic!("a shape error was expected"),
    }
    assert_eq!(values(model.weight.data()), vec![0.25, -0.75]);
}

#[test]
fn load_state_dict_rejects_a_state_that_does_not_fit() {
    let mut model = linear(&[0.25, -0.75], &[0.5], 2, 1);
    let states = vec![
        ParameterState { name: None, shape: vec![2, 1], data: vec![Real(1.0), Real(2.0)] },
        ParameterState { name: None, shape: vec![1], data: vec![] },
    ];
    assert!(model.load_state_dict(&states, backend()).is_err());
    assert_eq!(values(model.weight.data()), vec![1.0, 2.0]);
    assert_eq!(values(model.bias.data()), vec![0.5]);
}

#[test]
fn xavier_scale_is_root_of_six_over_the_fans() {
    let mut source = Upper { asked: Vec::new() };
    let t: T = xavier_uniform(&Shape::new(vec![2, 4]), backend(), &mut source).unwrap();
    assert_eq!(t.shape().dims(), &[2, 4]);
    assert_eq!(values(&t), vec![1.0; 8]);
    assert_eq!(source.asked.len(), 8);
    assert!(source.asked.iter().all(|b| *b == (-1.0, 1.0)));
    let t: T = xavier_uniform(&Shape::new(vec![16, 8]), backend(), &mut source).unwrap();
    assert!(close(&values(&t), &vec![0.5; 128]));
}

#[test]
fn xavier_of_one_axis_is_zeros() {
    let mut source = Upper { asked: Vec::new() };
    let t: T = xavier_uniform(&Shape::new(vec![3]), backend(), &mut source).unwrap();
    assert_eq!(values(&t), vec![0.0; 3]);
    assert!(source.asked.is_empty());
}

#[test]
fn he_scale_is_root_of_six_over_the_first_size() {
    let mut source = Upper { asked: Vec::new() };
    let t: T = he_uniform(&Shape::new(vec![24, 2]), backend(), &mut source).unwrap();
    assert_eq!(t.shape().dims(), &[24, 2]);
    assert!(close(&values(&t), &vec![0.5; 48]));
    assert!(source.asked.iter().all(|b| *b == (-0.5, 0.5)));
    let t: T = he_uniform(&Shape::new(vec![6]), backend(), &mut source).unwrap();
    assert_eq!(values(&t), vec![1.0; 6]);
}

#[test]
fn he_without_axes_is_a_zero() {
    let mut source = Upper { asked: Vec::new() };
    let t: T = he_uniform(&Shape::new(vec![]), backend(), &mut source).unwrap();
    assert_eq!(values(&t), vec![0.0]);
    assert!(source.asked.is_empty());
}

#[test]
fn init_xavier_draws_the_weight_and_keeps_the_bias() {
    let mut layer = linear(&[0.0; 8], &[0.25, 0.5, 0.75, 1.0], 2, 4);
    let mut source = Upper { asked: Vec::new() };
    layer.init_xavier(&mut source).unwrap();
    assert_eq!(values(layer.weight.data()), vec![1.0; 8]);
    assert_eq!(values(layer.bias.data()), vec![0.25, 0.5, 0.75, 1.0]);
    let mut model: MLP2<Real, CpuBackend> = MLP2::new(2, 4, 2, backend()).unwrap();
    model.init_xavier(&mut source).unwrap();
    assert_eq!(values(model.linear1.weight.data()), vec![1.0; 8]);
    assert_eq!(values(model.linear2.weight.data()), vec![1.0; 8]);
    assert_eq!(values(model.linear2.bias.data()), vec![0.0; 2]);
}
