//! Training: a model with the optimizer that updates it, and the steps that
//! go from a batch to updated parameters.

use vstd::prelude::*;
use std::sync::Arc;
use crate::autograd::graph::{is_backward_pass, net_wf, node_wf, Graph, NodeView};
use crate::backend::Backend;
use crate::data::{inputs_of, is_batch, is_len, loaded, targets_of, DataLoader, Dataset};
use crate::kernels::TensorView;
use crate::nn::loss::{ce_graph, ce_nodes, lemma_scaled_sum_single, mse_graph, mse_nodes};
use crate::nn::module::{all_parameters_wf, are_parameter_leaves, is_parameter_leaf, Module};
use crate::optimizer::{Optimizer, OptimizerError, OptimizerResult};
use crate::parameter::{held, Parameter, ParameterView};
use crate::scalar::{is_count, is_quot, is_total, is_zero, total, Scalar};
use crate::tensor::{flattened, stack_defined, stacked_dims, tensor_views, Tensor};
use crate::text::join;

verus! {

/// Error of a training step.
#[derive(Debug)]
pub struct TrainError(pub String);

impl TrainError {
    /// The text of [`TrainError::to_string`].
    pub open spec fn text_spec(&self) -> Seq<char> {
        "train error: "@ + self.0@
    }

    /// The message, with the kind of error in front.
    pub fn to_string(&self) -> (text: String)
        ensures
            text@ == self.text_spec(),
    {
        join("train error: ", self.0.as_str())
    }
}

pub type TrainResult<T> = Result<T, TrainError>;

/// What one training step reports: the loss before the update.
#[derive(Debug)]
pub struct TrainStepResult<E> {
    pub loss: E,
}

/// A model with the optimizer that updates it.
pub struct Trainer<M, O> {
    pub model: M,
    pub optimizer: O,
}

/// `loss` is the mean squared error of the prediction `y` against `target`,
/// as a graph computes it: the one element of the last of the nodes that
/// [`mse_graph`] appends to a sound graph in which some node holds `y`.
pub open spec fn is_mse_loss<E: Scalar>(y: TensorView<E>, target: TensorView<E>, loss: E) -> bool {
    exists|before: Seq<NodeView<E>>, pred: usize, after: Seq<NodeView<E>>|
        #![trigger mse_nodes(before, pred, target, after)]
        pred < before.len() && before[pred as int].data == y && y.dims == target.dims && net_wf(
            after,
        ) && mse_nodes(before, pred, target, after) && after.last().data.data == seq![loss]
}

/// `loss` is the cross-entropy of the logits `y` against the one-hot
/// `target`, as a graph computes it: the one element of the last of the nodes
/// that [`ce_graph`] appends to a sound graph in which some node holds `y`.
pub open spec fn is_ce_loss<E: Scalar>(y: TensorView<E>, target: TensorView<E>, loss: E) -> bool {
    exists|before: Seq<NodeView<E>>, logits: usize, after: Seq<NodeView<E>>|
        #![trigger ce_nodes(before, logits, target, after)]
        logits < before.len() && before[logits as int].data == y && y.dims == target.dims
            && net_wf(after) && ce_nodes(before, logits, target, after) && after.last().data.data
            == seq![loss]
}

/// `loss` is a loss of the model for `input` against `target`: the
/// cross-entropy of an output of the model if `cross_entropy` is set, the
/// mean squared error otherwise.
pub open spec fn is_model_loss<E: Scalar, B: Backend<E>, M: Module<E, B>>(
    model: M,
    input: TensorView<E>,
    target: TensorView<E>,
    cross_entropy: bool,
    loss: E,
) -> bool {
    exists|y: TensorView<E>| #[trigger]
        model.forward_rel(input, y) && if cross_entropy {
            is_ce_loss(y, target, loss)
        } else {
            is_mse_loss(y, target, loss)
        }
}

/// The batches a model can be trained on: input and target are well formed,
/// and so is every parameter of the model, which can take the input.
pub open spec fn step_defined<E: Scalar, B: Backend<E>, M: Module<E, B>>(
    model: M,
    input: TensorView<E>,
    target: TensorView<E>,
) -> bool {
    &&& input.wf()
    &&& target.wf()
    &&& all_parameters_wf(model.parameter_views())
    &&& model.forward_defined(input)
}

/// What a training step reports once the optimizer has answered: the loss if
/// the update succeeded, the optimizer's error otherwise.
pub fn step_outcome<E>(loss: E, stepped: OptimizerResult<()>) -> (r: TrainResult<TrainStepResult<E>>)
    ensures
        match stepped {
            Ok(_) => r matches Ok(res) && res.loss == loss,
            Err(e) => r matches Err(t) && t.0@ == e.text_spec(),
        },
{
    match stepped {
        Ok(_) => Ok(TrainStepResult { loss }),
        Err(e) => Err(TrainError(e.to_string())),
    }
}

/// The mean of the losses of an epoch, with the number of batches: the
/// losses added left to right from a zero and divided by their number, or a
/// zero if there was no batch.
pub open spec fn is_mean_loss<E: Scalar>(losses: Seq<E>, mean: E) -> bool {
    if losses.len() == 0 {
        is_zero(mean)
    } else {
        exists|sum: E, count: E|
            #![trigger is_total(losses, sum), is_count(losses.len() as usize, count)]
            is_total(losses, sum) && is_count(losses.len() as usize, count) && is_quot(
                sum,
                count,
                mean,
            )
    }
}

/// The mean of `losses` and their number.
pub fn mean_loss<E: Scalar>(losses: &[E]) -> (r: (E, usize))
    ensures
        is_mean_loss(losses@, r.0),
        r.1 == losses@.len(),
{
    let n = losses.len();
    let sum = total(losses);
    if n > 0 {
        let count = E::from_count(n);
        let mean = sum.div(count);
        proof {
            assert(is_total(losses@, sum) && is_count(losses@.len() as usize, count));
        }
        (mean, n)
    } else {
        (sum, n)
    }
}

impl<M, O> Trainer<M, O> {
    /// A trainer of `model` with `optimizer`.
    pub fn new(model: M, optimizer: O) -> (t: Self)
        ensures
            t.model == model,
            t.optimizer == optimizer,
    {
        Trainer { model, optimizer }
    }

    /// One step on one batch with the chosen loss: forward pass on a fresh
    /// graph, loss, backward pass, gradients handed to the parameters, and
    /// one step of the optimizer.
    fn train_on<E: Scalar, B: Backend<E>>(
        &mut self,
        input: &Tensor<E, B>,
        target: &Tensor<E, B>,
        cross_entropy: bool,
    ) -> (r: TrainResult<TrainStepResult<E>>) where M: Module<E, B>, O: Optimizer<E, B>
        ensures
            !step_defined(old(self).model, input@, target@) ==> r is Err && final(self).model
                == old(self).model && final(self).optimizer == old(self).optimizer,
            r matches Ok(res) ==> step_done(*old(self), input@, target@, cross_entropy, res.loss),
            r matches Err(e) ==> step_fails(*old(self), input@, target@, cross_entropy, e),
    {
        let loss = match self.gradients(input, target, cross_entropy) {
            Ok(loss) => loss,
            Err(e) => {
                return Err(e);
            },
        };
        let ghost handed = self.optimizer;
        let ghost graded = self.model.parameter_views();
        let ghost grads = choose|grads: Seq<Option<TensorView<E>>>| #[trigger]
            is_step_gradients(old(self).model, input@, target@, cross_entropy, loss, grads)
                && are_graded(old(self).model.parameter_views(), grads, graded);
        let mut params = self.model.parameters_mut();
        proof {
            assert forall|k: int| 0 <= k < params@.len() implies #[trigger] held(params@, k)
                == with_grad(old(self).model.parameter_views()[k], grads[k]) by {
                assert(held(params@, k) == graded[k]);
            }
        }
        let stepped = self.optimizer.step(params.as_mut_slice());
        proof {
            assert(optimizer_answers::<E, B, M, O>(handed, old(self).model, grads, stepped));
        }
        step_outcome(loss, stepped)
    }

    /// One training step on one sample or batch, with the mean squared
    /// error: forward pass, loss, backward pass, and one step of the
    /// optimizer. Reports the loss before the update.
    ///
    /// Fails, and changes nothing, if the input, the target or a parameter
    /// does not fit its shape, or if the model cannot take the input. Fails
    /// too if the output of the model has not the shape of the target, or if
    /// the optimizer fails.
    pub fn step<E: Scalar, B: Backend<E>>(
        &mut self,
        _backend: Arc<B>,
        input: &Tensor<E, B>,
        target: &Tensor<E, B>,
    ) -> (r: TrainResult<TrainStepResult<E>>) where M: Module<E, B>, O: Optimizer<E, B>
        ensures
            !step_defined(old(self).model, input@, target@) ==> r is Err && final(self).model
                == old(self).model && final(self).optimizer == old(self).optimizer,
            r matches Ok(res) ==> step_done(*old(self), input@, target@, false, res.loss),
            r matches Err(e) ==> step_fails(*old(self), input@, target@, false, e),
    {
        self.train_on(input, target, false)
    }

    /// One training step on a batch of inputs, one per row, with the mean
    /// squared error over the batch. Reports the loss before the update.
    ///
    /// Fails as [`Trainer::step`] does.
    pub fn step_batch<E: Scalar, B: Backend<E>>(
        &mut self,
        _backend: Arc<B>,
        input: &Tensor<E, B>,
        target: &Tensor<E, B>,
    ) -> (r: TrainResult<TrainStepResult<E>>) where M: Module<E, B>, O: Optimizer<E, B>
        ensures
            !step_defined(old(self).model, input@, target@) ==> r is Err && final(self).model
                == old(self).model && final(self).optimizer == old(self).optimizer,
            r matches Ok(res) ==> step_done(*old(self), input@, target@, false, res.loss),
            r matches Err(e) ==> step_fails(*old(self), input@, target@, false, e),
    {
        self.train_on(input, target, false)
    }

    /// One training step on a batch of inputs, one per row, with the
    /// cross-entropy against one-hot targets. Reports the loss before the
    /// update.
    ///
    /// Fails as [`Trainer::step`] does, and if the target has no axis.
    pub fn step_batch_ce<E: Scalar, B: Backend<E>>(
        &mut self,
        _backend: Arc<B>,
        input: &Tensor<E, B>,
        target: &Tensor<E, B>,
    ) -> (r: TrainResult<TrainStepResult<E>>) where M: Module<E, B>, O: Optimizer<E, B>
        ensures
            !step_defined(old(self).model, input@, target@) ==> r is Err && final(self).model
                == old(self).model && final(self).optimizer == old(self).optimizer,
            r matches Ok(res) ==> step_done(*old(self), input@, target@, true, res.loss),
            r matches Err(e) ==> step_fails(*old(self), input@, target@, true, e),
    {
        self.train_on(input, target, true)
    }

    /// One epoch: takes batch after batch from the loader until it hands out
    /// none, stacks the samples of each, and trains on it with the mean
    /// squared error. Returns the mean of the losses of these steps with
    /// their number.
    ///
    /// Fails at the first batch that cannot be stacked or trained on.
    pub fn run_epoch<E: Scalar, B: Backend<E>, D: Dataset<Sample = Tensor<E, B>>>(
        &mut self,
        backend: Arc<B>,
        dataloader: &mut DataLoader<D>,
    ) -> (r: TrainResult<(E, usize)>) where M: Module<E, B>, O: Optimizer<E, B>
        ensures
            final(dataloader).dataset() == old(dataloader).dataset(),
            final(dataloader).batch_size() == old(dataloader).batch_size(),
            final(dataloader).index() >= old(dataloader).index(),
            r matches Ok(pair) ==> pair.1 <= final(dataloader).index() - old(dataloader).index(),
            r matches Ok(pair) ==> exists|steps: Seq<EpochStep<E, B, M, O>>| #[trigger]
                is_epoch(
                    old(dataloader).dataset(),
                    old(dataloader).batch_size(),
                    old(dataloader).index(),
                    *old(self),
                    steps,
                    final(dataloader).index(),
                ) && pair.1 == steps.len() && is_mean_loss(losses_of(steps), pair.0),
            r matches Err(e) ==> final(dataloader).index() > old(dataloader).index(),
            r matches Err(e) ==> exists|steps: Seq<EpochStep<E, B, M, O>>| #[trigger]
                epoch_fails(
                    old(dataloader).dataset(),
                    old(dataloader).batch_size(),
                    old(dataloader).index(),
                    *old(self),
                    steps,
                    final(dataloader).index(),
                    e,
                ),
    {
        let mut losses: Vec<E> = Vec::new();
        let ghost mut steps: Seq<EpochStep<E, B, M, O>> = Seq::empty();
        let ghost from = dataloader.index();
        let ghost first = *self;
        proof {
            assert(losses@ =~= losses_of(steps));
            lemma_epoch_start(dataloader.dataset(), dataloader.batch_size(), from, first);
        }
        loop
            invariant_except_break
                dataloader.index() == last_end(from, steps),
            invariant
                dataloader.dataset() == old(dataloader).dataset(),
                dataloader.batch_size() == old(dataloader).batch_size(),
                dataloader.index() >= old(dataloader).index(),
                from == old(dataloader).index(),
                first == *old(self),
                losses@.len() <= dataloader.index() - old(dataloader).index(),
                losses@ == losses_of(steps),
                are_epoch_steps(dataloader.dataset(), dataloader.batch_size(), from, first, steps),
                steps.len() == 0 ==> *self == first,
            ensures
                handed_none(
                    old(dataloader).dataset(),
                    last_end(from, steps),
                    old(dataloader).batch_size(),
                    dataloader.index(),
                ),
            decreases usize::MAX - dataloader.index(),
        {
            let ghost start = dataloader.index();
            let ghost set = dataloader.dataset();
            let ghost size = dataloader.batch_size();
            let batch = dataloader.next_batch();
            proof {
                let len = choose|len: usize| #[trigger]
                    is_len(set, len) && loaded(set, start, size, len, batch, dataloader.index());
                if batch is Some {
                    let end = dataloader.index();
                    let picks = choose|picks: Seq<usize>| #[trigger]
                        is_batch(
                            set,
                            start as int,
                            end as int,
                            picks,
                            inputs_of(batch),
                            targets_of(batch),
                        ) && (batch is Some <==> picks.len() > 0);
                    assert(start <= picks[0] < end);
                }
            }
            let ghost handed = batch;
            let ghost len = choose|len: usize| #[trigger]
                is_len(set, len) && loaded(set, start, size, len, batch, dataloader.index());
            let ghost end = dataloader.index();
            let ghost trainer = *self;
            let (inputs, targets) = match batch {
                Some(pair) => pair,
                None => {
                    proof {
                        assert(loaded(set, start, size, len, handed, end));
                        assert(handed_none(set, start, size, end));
                    }
                    break ;
                },
            };
            proof {
                assert(inputs@ == inputs_of(handed) && targets@ == targets_of(handed));
                assert(handed_some(set, start, size, inputs@, targets@, end)) by {
                    assert(loaded(set, start, size, len, handed, end));
                }
            }
            match self.train_batch(Arc::clone(&backend), inputs.as_slice(), targets.as_slice()) {
                Ok(loss) => {
                    losses.push(loss);
                    proof {
                        let step = EpochStep {
                            start,
                            end,
                            inputs: inputs@,
                            targets: targets@,
                            trainer,
                            loss,
                        };
                        lemma_epoch_push(set, size, from, first, steps, step);
                        steps = steps.push(step);
                    }
                },
                Err(e) => {
                    let failed: TrainResult<(E, usize)> = Err(e);
                    proof {
                        let e = failed->Err_0;
                        assert(batch_fails(trainer, inputs@, targets@, e));
                        assert(handed_some(set, last_end(from, steps), size, inputs@, targets@, end));
                        assert(epoch_fails(
                            old(dataloader).dataset(),
                            old(dataloader).batch_size(),
                            old(dataloader).index(),
                            *old(self),
                            steps,
                            dataloader.index(),
                            e,
                        ));
                    }
                    return failed;
                },
            }
        }
        let r = mean_loss(losses.as_slice());
        proof {
            assert(is_mean_loss(losses_of(steps), r.0) && steps.len() == r.1);
            assert(is_epoch(
                old(dataloader).dataset(),
                old(dataloader).batch_size(),
                from,
                first,
                steps,
                dataloader.index(),
            ));
        }
        Ok(r)
    }

    /// One step on the batch of `inputs` and `targets`: stacks both and
    /// trains on the stacked arrays with the mean squared error.
    fn train_batch<E: Scalar, B: Backend<E>>(
        &mut self,
        backend: Arc<B>,
        inputs: &[Tensor<E, B>],
        targets: &[Tensor<E, B>],
    ) -> (r: TrainResult<E>) where M: Module<E, B>, O: Optimizer<E, B>
        ensures
            r matches Ok(loss) ==> batch_done(*old(self), inputs@, targets@, loss),
            r matches Err(e) ==> batch_fails(*old(self), inputs@, targets@, e),
    {
        let input_batch = match Tensor::stack(inputs, 0) {
            Ok(t) => t,
            Err(e) => {
                return Err(TrainError(e.to_string()));
            },
        };
        let target_batch = match Tensor::stack(targets, 0) {
            Ok(t) => t,
            Err(e) => {
                return Err(TrainError(e.to_string()));
            },
        };
        proof {
            assert(is_stack(inputs@, input_batch@) && is_stack(targets@, target_batch@));
        }
        match self.step_batch(backend, &input_batch, &target_batch) {
            Ok(res) => Ok(res.loss),
            Err(e) => Err(e),
        }
    }

    /// The loss of the model for `input` against `target`, with its
    /// gradients handed to the parameters: forward pass on a fresh graph,
    /// loss, backward pass; then every parameter gets the gradient of its
    /// leaf in place of the gradient it had.
    ///
    /// Fails, and changes nothing, if the input, the target or a parameter
    /// does not fit its shape, if the model cannot take the input, or if the
    /// loss cannot take the output of the model.
    fn gradients<E: Scalar, B: Backend<E>>(
        &mut self,
        input: &Tensor<E, B>,
        target: &Tensor<E, B>,
        cross_entropy: bool,
    ) -> (r: TrainResult<E>) where M: Module<E, B>
        ensures
            final(self).optimizer == old(self).optimizer,
            r is Err ==> final(self).model == old(self).model,
            r is Err ==> !step_defined(old(self).model, input@, target@) || loss_refused(
                old(self).model,
                input@,
                target@,
                cross_entropy,
            ),
            r is Ok ==> step_defined(old(self).model, input@, target@),
            r matches Ok(loss) ==> is_model_loss(
                old(self).model,
                input@,
                target@,
                cross_entropy,
                loss,
            ),
            r matches Ok(loss) ==> exists|grads: Seq<Option<TensorView<E>>>| #[trigger]
                is_step_gradients(old(self).model, input@, target@, cross_entropy, loss, grads)
                    && are_graded(
                    old(self).model.parameter_views(),
                    grads,
                    final(self).model.parameter_views(),
                ),
    {
        if !input.is_valid() || !target.is_valid() {
            return Err(TrainError("input or target does not fit its shape".to_string()));
        }
        let ps = self.model.parameters();
        let count = ps.len();
        let mut i: usize = 0;
        while i < count
            invariant
                i <= count,
                count == ps@.len(),
                ps@.len() == self.model.parameter_views().len(),
                forall|j: int|
                    0 <= j < count ==> (#[trigger] ps@[j])@ == self.model.parameter_views()[j],
                forall|j: int| 0 <= j < i ==> (#[trigger] self.model.parameter_views()[j]).wf(),
            decreases count - i,
        {
            if !ps[i].is_valid() {
                proof {
                    assert(ps@[i as int]@ == self.model.parameter_views()[i as int]);
                }
                return Err(TrainError("a parameter does not fit its shape".to_string()));
            }
            proof {
                assert(ps@[i as int]@ == self.model.parameter_views()[i as int]);
            }
            i = i + 1;
        }
        let mut g: Graph<E, B> = Graph::new();
        let x_id = g.var(input.clone());
        let ghost g0 = g@;
        let (out_id, param_ids) = match self.model.forward_graph(&mut g, x_id) {
            Ok(pair) => pair,
            Err(e) => {
                return Err(TrainError(e.to_string()));
            },
        };
        let ghost g1 = g@;
        let ghost y = g1[out_id as int].data;
        proof {
            assert(g0[x_id as int].data == input@);
            assert(self.model.forward_rel(input@, y));
        }
        let made = if cross_entropy {
            ce_graph(&mut g, out_id, target)
        } else {
            mse_graph(&mut g, out_id, target)
        };
        let loss_id = match made {
            Ok(id) => id,
            Err(e) => {
                proof {
                    assert(!loss_defined(y.dims, target@.dims, cross_entropy));
                    assert(loss_refused(self.model, input@, target@, cross_entropy));
                }
                return Err(TrainError(e.to_string()));
            },
        };
        let ghost g2 = g@;
        proof {
            if cross_entropy {
                lemma_scaled_sum_single(
                    g2,
                    loss_id as int,
                    (g1.len() + 4) as usize,
                    (g1.len() + 5) as usize,
                    (g1.len() + 3) as usize,
                );
            } else {
                lemma_scaled_sum_single(
                    g2,
                    loss_id as int,
                    (g1.len() + 3) as usize,
                    (g1.len() + 4) as usize,
                    (g1.len() + 2) as usize,
                );
            }
        }
        let loss = match g.data(loss_id) {
            Ok(t) => t.data()[0],
            Err(e) => {
                return Err(TrainError(e.to_string()));
            },
        };
        proof {
            assert(g2.last().data.data =~= seq![loss]);
            if cross_entropy {
                assert(ce_nodes(g1, out_id, target@, g2));
                assert(is_ce_loss(y, target@, loss));
            } else {
                assert(mse_nodes(g1, out_id, target@, g2));
                assert(is_mse_loss(y, target@, loss));
            }
        }
        match g.backward(loss_id) {
            Ok(()) => {},
            Err(e) => {
                return Err(TrainError(e.to_string()));
            },
        }
        let ghost g3 = g@;
        let ghost views = self.model.parameter_views();
        let ghost grads = Seq::new(param_ids@.len(), |k: int| g3[param_ids@[k] as int].grad);
        proof {
            assert(loss_nodes(g1, out_id, target@, cross_entropy, g2));
            assert(is_step_gradients(self.model, input@, target@, cross_entropy, loss, grads));
            assert(g2.take(g1.len() as int) == g1);
            assert forall|k: int| 0 <= k < param_ids@.len() implies (#[trigger] param_ids@[k])
                < g3.len() && g3[param_ids@[k] as int].data == views[k].data by {
                let id = param_ids@[k];
                assert(is_parameter_leaf(g1, id, views[k]));
                assert(g2.take(g1.len() as int)[id as int] == g2[id as int]);
                assert(g3[id as int].data == g2[id as int].data);
            }
            assert forall|k: int| 0 <= k < g3.len() implies #[trigger] node_wf(g3, k) by {}
        }
        let mut params = self.model.parameters_mut();
        let ghost given = params@;
        let n = params.len();
        proof {
            assert forall|j: int| 0 <= j < n implies (*#[trigger] params@[j])@ == views[j] by {
                assert(held(params@, j) == views[j]);
            }
        }
        let mut k: usize = 0;
        while k < n
            invariant
                k <= n,
                n == params@.len(),
                n == given.len(),
                n == views.len(),
                n == param_ids@.len(),
                g@ == g3,
                net_wf(g3),
                forall|j: int|
                    0 <= j < n ==> (#[trigger] param_ids@[j]) < g3.len() && g3[param_ids@[j] as int].data
                        == views[j].data,
                forall|j: int| 0 <= j < n ==> held(given, j) == #[trigger] views[j],
                forall|j: int| 0 <= j < n ==> *final(#[trigger] params@[j]) == *final(given[j]),
                n == grads.len(),
                forall|j: int| 0 <= j < n ==> grads[j] == g3[(#[trigger] param_ids@[j]) as int].grad,
                forall|j: int|
                    0 <= j < k ==> (*#[trigger] params@[j])@ == with_grad(views[j], grads[j]),
                forall|j: int| k <= j < n ==> (*#[trigger] params@[j])@ == views[j],
            decreases n - k,
        {
            params[k].zero_grad();
            if k < param_ids.len() {
                proof {
                    assert(param_ids@[k as int] < g3.len());
                    assert(node_wf(g3, param_ids@[k as int] as int));
                }
                match g.grad(param_ids[k]) {
                    Ok(Some(t)) => {
                        params[k].set_grad(Some(t.clone()));
                    },
                    Ok(None) => {},
                    Err(e) => {
                        return Err(TrainError(e.to_string()));
                    },
                }
            }
            k = k + 1;
        }
        let ghost last = params@;
        proof {
            assert(has_resolved(params));
            assert forall|j: int| 0 <= j < n implies has_resolved(#[trigger] last[j]) by {}
        }
        proof {
            assert forall|j: int| 0 <= j < n implies #[trigger] final(self).model.parameter_views()[j]
                == with_grad(old(self).model.parameter_views()[j], grads[j]) by {
                assert(has_resolved(last[j]));
                assert(*final(last[j]) == *final(given[j]));
                assert(final(self).model.parameter_views()[j] == (*final(given[j]))@);
                assert((*last[j])@ == with_grad(views[j], grads[j]));
            }
            assert(are_graded(
                old(self).model.parameter_views(),
                grads,
                final(self).model.parameter_views(),
            ));
            assert(is_step_gradients(old(self).model, input@, target@, cross_entropy, loss, grads));
        }
        let r: TrainResult<E> = Ok(loss);
        proof {
            assert(is_step_gradients(
                old(self).model,
                input@,
                target@,
                cross_entropy,
                r->Ok_0,
                grads,
            ));
        }
        r
    }
}

/// The loss can take an output of the shape `y` against a target of the
/// shape `target`: the shapes are the same, and for the cross-entropy there
/// is at least one axis.
pub open spec fn loss_defined(y: Seq<usize>, target: Seq<usize>, cross_entropy: bool) -> bool {
    y == target && (cross_entropy ==> target.len() >= 1)
}

/// The model gives for `input` an output that the loss cannot take against
/// `target`.
pub open spec fn loss_refused<E: Scalar, B: Backend<E>, M: Module<E, B>>(
    model: M,
    input: TensorView<E>,
    target: TensorView<E>,
    cross_entropy: bool,
) -> bool {
    exists|y: TensorView<E>| #[trigger]
        model.forward_rel(input, y) && !loss_defined(y.dims, target.dims, cross_entropy)
}

/// The parameter `p` with the gradient `grad` in place of its own.
pub open spec fn with_grad<E>(p: ParameterView<E>, grad: Option<TensorView<E>>) -> ParameterView<E> {
    ParameterView { grad, ..p }
}

/// `after` holds the parameters `before`, each with the gradient of `grads`
/// at the same place in place of its own.
pub open spec fn are_graded<E>(
    before: Seq<ParameterView<E>>,
    grads: Seq<Option<TensorView<E>>>,
    after: Seq<ParameterView<E>>,
) -> bool {
    &&& after.len() == before.len()
    &&& grads.len() == before.len()
    &&& forall|k: int| 0 <= k < before.len() ==> #[trigger] after[k] == with_grad(before[k], grads[k])
}

/// `after` is the graph `before` with the nodes of the loss of node `out`
/// against `target` appended: those of the cross-entropy if `cross_entropy`
/// is set, those of the mean squared error otherwise.
pub open spec fn loss_nodes<E: Scalar>(
    before: Seq<NodeView<E>>,
    out: usize,
    target: TensorView<E>,
    cross_entropy: bool,
    after: Seq<NodeView<E>>,
) -> bool {
    if cross_entropy {
        ce_nodes(before, out, target, after)
    } else {
        mse_nodes(before, out, target, after)
    }
}

/// `loss` and `grads` are what a step computes for the model on `input` and
/// `target`: on a sound graph that holds the parameters as the leaves `ids`
/// and an output of the model at node `out`, the nodes of the loss are
/// appended; `loss` is the one element of the last of them; and after a
/// backward pass from that node, `grads` holds the gradients of the leaves
/// `ids`, in order.
pub open spec fn is_step_gradients<E: Scalar, B: Backend<E>, M: Module<E, B>>(
    model: M,
    input: TensorView<E>,
    target: TensorView<E>,
    cross_entropy: bool,
    loss: E,
    grads: Seq<Option<TensorView<E>>>,
) -> bool {
    exists|
        built: Seq<NodeView<E>>,
        out: usize,
        ids: Seq<usize>,
        with_loss: Seq<NodeView<E>>,
        loss_id: usize,
        after: Seq<NodeView<E>>,
    |
        #![trigger are_parameter_leaves(built, ids, model.parameter_views()), loss_nodes(built, out, target, cross_entropy, with_loss), is_backward_pass(with_loss, loss_id, after)]
        {
            &&& net_wf(built)
            &&& out < built.len()
            &&& model.forward_rel(input, built[out as int].data)
            &&& are_parameter_leaves(built, ids, model.parameter_views())
            &&& net_wf(with_loss)
            &&& loss_nodes(built, out, target, cross_entropy, with_loss)
            &&& loss_id == with_loss.len() - 1
            &&& with_loss[loss_id as int].data.data == seq![loss]
            &&& is_backward_pass(with_loss, loss_id, after)
            &&& grads.len() == ids.len()
            &&& forall|k: int| 0 <= k < ids.len() ==> #[trigger] grads[k] == after[ids[k] as int].grad
        }
}

/// The optimizer `optimizer` answered `stepped` when asked for a step on the
/// parameters of `model`, each with the gradient of `grads` at the same
/// place in place of its own.
pub open spec fn optimizer_answers<E: Scalar, B: Backend<E>, M: Module<E, B>, O: Optimizer<E, B>>(
    optimizer: O,
    model: M,
    grads: Seq<Option<TensorView<E>>>,
    stepped: OptimizerResult<()>,
) -> bool {
    exists|o: &mut O, ps: &mut [&mut Parameter<E, B>]|
        #![trigger call_ensures(O::step, (o, ps), stepped)]
        *o == optimizer && ps@.len() == model.parameter_views().len() && (forall|k: int|
            0 <= k < ps@.len() ==> #[trigger] held(ps@, k) == with_grad(
                model.parameter_views()[k],
                grads[k],
            )) && call_ensures(O::step, (o, ps), stepped)
}

/// A training step of `trainer` on `input` and `target` succeeded with the
/// loss `loss`: the batch can be trained on, `loss` is a loss of the model,
/// and the optimizer answered with success when it was handed the
/// parameters with the gradients of that loss.
pub open spec fn step_done<E: Scalar, B: Backend<E>, M: Module<E, B>, O: Optimizer<E, B>>(
    trainer: Trainer<M, O>,
    input: TensorView<E>,
    target: TensorView<E>,
    cross_entropy: bool,
    loss: E,
) -> bool {
    &&& step_defined(trainer.model, input, target)
    &&& is_model_loss(trainer.model, input, target, cross_entropy, loss)
    &&& exists|grads: Seq<Option<TensorView<E>>>, stepped: OptimizerResult<()>|
        #![trigger optimizer_answers::<E, B, M, O>(trainer.optimizer, trainer.model, grads, stepped)]
        stepped is Ok && is_step_gradients(trainer.model, input, target, cross_entropy, loss, grads)
            && optimizer_answers::<E, B, M, O>(trainer.optimizer, trainer.model, grads, stepped)
}

/// A training step of `trainer` on `input` and `target` failed with `e`: the
/// batch cannot be trained on; or the loss cannot take the output of the
/// model; or the optimizer answered with an error, whose text `e` holds,
/// when it was handed the parameters with the gradients of the loss.
pub open spec fn step_fails<E: Scalar, B: Backend<E>, M: Module<E, B>, O: Optimizer<E, B>>(
    trainer: Trainer<M, O>,
    input: TensorView<E>,
    target: TensorView<E>,
    cross_entropy: bool,
    e: TrainError,
) -> bool {
    ||| !step_defined(trainer.model, input, target)
    ||| loss_refused(trainer.model, input, target, cross_entropy)
    ||| exists|loss: E, grads: Seq<Option<TensorView<E>>>, refused: OptimizerError|
        #![trigger is_step_gradients(trainer.model, input, target, cross_entropy, loss, grads), optimizer_answers::<E, B, M, O>(trainer.optimizer, trainer.model, grads, Err(refused))]
        is_step_gradients(trainer.model, input, target, cross_entropy, loss, grads)
            && optimizer_answers::<E, B, M, O>(trainer.optimizer, trainer.model, grads, Err(refused))
            && e.0@ == refused.text_spec()
}

/// `x` is the arrays `xs` stacked as rows.
pub open spec fn is_stack<E, B>(xs: Seq<Tensor<E, B>>, x: TensorView<E>) -> bool {
    &&& stack_defined(tensor_views(xs), 0)
    &&& x.wf()
    &&& x.dims == stacked_dims(xs.len(), xs[0]@.dims)
    &&& x.data == flattened(tensor_views(xs))
}

/// Training `trainer` on the batch of the inputs `xs` and the targets `ys`
/// fails with `e`: the inputs or the targets cannot be stacked, or the step
/// on the stacked arrays fails.
pub open spec fn batch_fails<E: Scalar, B: Backend<E>, M: Module<E, B>, O: Optimizer<E, B>>(
    trainer: Trainer<M, O>,
    xs: Seq<Tensor<E, B>>,
    ys: Seq<Tensor<E, B>>,
    e: TrainError,
) -> bool {
    ||| !stack_defined(tensor_views(xs), 0)
    ||| !stack_defined(tensor_views(ys), 0)
    ||| exists|x: TensorView<E>, y: TensorView<E>|
        #![trigger is_stack(xs, x), is_stack(ys, y)]
        is_stack(xs, x) && is_stack(ys, y) && step_fails(trainer, x, y, false, e)
}

/// One step of an epoch: the loader went from `start` to `end` and handed
/// out `inputs` and `targets`; `trainer` is the trainer before the step on
/// the stacked batch, and `loss` the loss that the step reported.
pub struct EpochStep<E, B, M, O> {
    pub start: usize,
    pub end: usize,
    pub inputs: Seq<Tensor<E, B>>,
    pub targets: Seq<Tensor<E, B>>,
    pub trainer: Trainer<M, O>,
    pub loss: E,
}

/// A loader at `start` handed out the batch of `inputs` and `targets` and
/// moved to `end`.
pub open spec fn handed_some<E, B, D: Dataset<Sample = Tensor<E, B>>>(
    dataset: D,
    start: usize,
    batch_size: usize,
    inputs: Seq<Tensor<E, B>>,
    targets: Seq<Tensor<E, B>>,
    end: usize,
) -> bool {
    exists|len: usize, batch: Option<(Vec<Tensor<E, B>>, Vec<Tensor<E, B>>)>|
        #![trigger loaded(dataset, start, batch_size, len, batch, end)]
        is_len(dataset, len) && batch is Some && inputs_of(batch) == inputs && targets_of(batch)
            == targets && loaded(dataset, start, batch_size, len, batch, end)
}

/// A loader at `start` handed out no batch and stands at `end`: it is at the
/// end of the dataset.
pub open spec fn handed_none<E, B, D: Dataset<Sample = Tensor<E, B>>>(
    dataset: D,
    start: usize,
    batch_size: usize,
    end: usize,
) -> bool {
    exists|len: usize| #[trigger]
        is_len(dataset, len) && loaded(dataset, start, batch_size, len, None, end)
}

/// `step` is a step of an epoch on `dataset`: the loader handed out its
/// batch, and the step of its trainer on the stacked batch succeeded with
/// its loss.
pub open spec fn is_epoch_step<
    E: Scalar,
    B: Backend<E>,
    M: Module<E, B>,
    O: Optimizer<E, B>,
    D: Dataset<Sample = Tensor<E, B>>,
>(dataset: D, batch_size: usize, step: EpochStep<E, B, M, O>) -> bool {
    &&& handed_some(dataset, step.start, batch_size, step.inputs, step.targets, step.end)
    &&& batch_done(step.trainer, step.inputs, step.targets, step.loss)
}

/// Training `trainer` on the batch of the inputs `xs` and the targets `ys`
/// succeeds with the loss `loss`: both can be stacked, and the step on the
/// stacked arrays succeeds with `loss`.
pub open spec fn batch_done<E: Scalar, B: Backend<E>, M: Module<E, B>, O: Optimizer<E, B>>(
    trainer: Trainer<M, O>,
    xs: Seq<Tensor<E, B>>,
    ys: Seq<Tensor<E, B>>,
    loss: E,
) -> bool {
    exists|x: TensorView<E>, y: TensorView<E>|
        #![trigger is_stack(xs, x), is_stack(ys, y)]
        is_stack(xs, x) && is_stack(ys, y) && step_done(trainer, x, y, false, loss)
}

/// Where the loader stands after the steps `steps` of an epoch from `from`.
pub open spec fn last_end<E, B, M, O>(from: usize, steps: Seq<EpochStep<E, B, M, O>>) -> usize {
    if steps.len() == 0 {
        from
    } else {
        steps.last().end
    }
}

/// The losses of the steps, in order.
pub open spec fn losses_of<E, B, M, O>(steps: Seq<EpochStep<E, B, M, O>>) -> Seq<E> {
    Seq::new(steps.len(), |i: int| steps[i].loss)
}

/// `steps` are the successive steps of an epoch on `dataset` from the index
/// `from` on, with the trainer `first`: each is a step on the batch that the
/// loader handed out where the step before left it, and the first is a step
/// of `first` on the batch at `from`.
#[verifier::opaque]
pub open spec fn are_epoch_steps<
    E: Scalar,
    B: Backend<E>,
    M: Module<E, B>,
    O: Optimizer<E, B>,
    D: Dataset<Sample = Tensor<E, B>>,
>(
    dataset: D,
    batch_size: usize,
    from: usize,
    first: Trainer<M, O>,
    steps: Seq<EpochStep<E, B, M, O>>,
) -> bool {
    &&& forall|i: int| 0 <= i < steps.len() ==> is_epoch_step(dataset, batch_size, #[trigger] steps[i])
    &&& forall|i: int| 0 < i < steps.len() ==> (#[trigger] steps[i]).start == steps[i - 1].end
    &&& steps.len() > 0 ==> steps[0].start == from && steps[0].trainer == first
}

/// `steps` are the steps of a whole epoch: successive steps from `from` on,
/// after which the loader handed out no batch and stands at `index_after`.
pub open spec fn is_epoch<
    E: Scalar,
    B: Backend<E>,
    M: Module<E, B>,
    O: Optimizer<E, B>,
    D: Dataset<Sample = Tensor<E, B>>,
>(
    dataset: D,
    batch_size: usize,
    from: usize,
    first: Trainer<M, O>,
    steps: Seq<EpochStep<E, B, M, O>>,
    index_after: usize,
) -> bool {
    &&& are_epoch_steps(dataset, batch_size, from, first, steps)
    &&& handed_none(dataset, last_end(from, steps), batch_size, index_after)
}

/// An epoch fails with `e` after the steps `steps`: these are successive
/// steps from `from` on; then the loader handed out one more batch and moved
/// to `index_after`, and training on that batch failed with `e`, with the
/// trainer `first` if it was the first batch.
pub open spec fn epoch_fails<
    E: Scalar,
    B: Backend<E>,
    M: Module<E, B>,
    O: Optimizer<E, B>,
    D: Dataset<Sample = Tensor<E, B>>,
>(
    dataset: D,
    batch_size: usize,
    from: usize,
    first: Trainer<M, O>,
    steps: Seq<EpochStep<E, B, M, O>>,
    index_after: usize,
    e: TrainError,
) -> bool {
    &&& are_epoch_steps(dataset, batch_size, from, first, steps)
    &&& exists|trainer: Trainer<M, O>, inputs: Seq<Tensor<E, B>>, targets: Seq<Tensor<E, B>>|
        #![trigger batch_fails(trainer, inputs, targets, e)]
        (steps.len() == 0 ==> trainer == first) && handed_some(
            dataset,
            last_end(from, steps),
            batch_size,
            inputs,
            targets,
            index_after,
        ) && batch_fails(trainer, inputs, targets, e)
}

/// One more step, on the batch that the loader handed out where the steps
/// before left it, makes a longer list of successive steps.
pub proof fn lemma_epoch_push<
    E: Scalar,
    B: Backend<E>,
    M: Module<E, B>,
    O: Optimizer<E, B>,
    D: Dataset<Sample = Tensor<E, B>>,
>(
    dataset: D,
    batch_size: usize,
    from: usize,
    first: Trainer<M, O>,
    steps: Seq<EpochStep<E, B, M, O>>,
    step: EpochStep<E, B, M, O>,
)
    requires
        are_epoch_steps(dataset, batch_size, from, first, steps),
        is_epoch_step(dataset, batch_size, step),
        step.start == last_end(from, steps),
        steps.len() == 0 ==> step.trainer == first,
    ensures
        are_epoch_steps(dataset, batch_size, from, first, steps.push(step)),
        last_end(from, steps.push(step)) == step.end,
        losses_of(steps.push(step)) == losses_of(steps).push(step.loss),
{
    reveal(are_epoch_steps);
    let longer = steps.push(step);
    assert forall|i: int| 0 <= i < longer.len() implies is_epoch_step(
        dataset,
        batch_size,
        #[trigger] longer[i],
    ) by {
        if i < steps.len() {
            assert(longer[i] == steps[i]);
        }
    }
    assert forall|i: int| 0 < i < longer.len() implies (#[trigger] longer[i]).start == longer[i
        - 1].end by {
        if i < steps.len() {
            assert(longer[i] == steps[i] && longer[i - 1] == steps[i - 1]);
        } else {
            assert(longer[i - 1] == steps[i - 1]);
        }
    }
    assert(longer[0] == if steps.len() == 0 {
        step
    } else {
        steps[0]
    });
    assert(losses_of(longer) =~= losses_of(steps).push(step.loss));
}

/// Before its first step an epoch has made no step.
pub proof fn lemma_epoch_start<
    E: Scalar,
    B: Backend<E>,
    M: Module<E, B>,
    O: Optimizer<E, B>,
    D: Dataset<Sample = Tensor<E, B>>,
>(dataset: D, batch_size: usize, from: usize, first: Trainer<M, O>)
    ensures
        are_epoch_steps(dataset, batch_size, from, first, Seq::<EpochStep<E, B, M, O>>::empty()),
{
    reveal(are_epoch_steps);
}

} // verus!
