//! Optimizers: they update parameters from their gradients.

use vstd::prelude::*;
use vstd::slice::slice_to_vec;
use crate::backend::Backend;
use crate::parameter::{held, Parameter, ParameterView};
use crate::scalar::{is_diff, is_one, is_powi, is_prod, is_quot, is_ratio, is_sqrt, is_sum, is_zero, ratio,
    Scalar};
use crate::text::join;

verus! {

/// Error of an optimizer step.
#[derive(Debug)]
pub struct OptimizerError(pub String);

impl OptimizerError {
    /// The text of [`OptimizerError::to_string`].
    pub open spec fn text_spec(&self) -> Seq<char> {
        "optimizer error: "@ + self.0@
    }

    /// The message, with the kind of error in front.
    pub fn to_string(&self) -> (text: String)
        ensures
            text@ == self.text_spec(),
    {
        join("optimizer error: ", self.0.as_str())
    }
}

pub type OptimizerResult<T> = Result<T, OptimizerError>;

/// An optimizer: one step updates every parameter from its gradient.
pub trait Optimizer<E: Scalar, B: Backend<E>> {
    /// Updates the parameters in their order.
    fn step(&mut self, parameters: &mut [&mut Parameter<E, B>]) -> OptimizerResult<()>;
}

/// Stochastic gradient descent: `param = param - lr * grad`.
pub struct SGD<E> {
    /// The learning rate.
    pub lr: E,
}

/// `r` is `d - lr * g`.
pub open spec fn sgd_at<E: Scalar>(lr: E, d: E, g: E, r: E) -> bool {
    exists|p: E| #[trigger] is_prod(lr, g, p) && is_diff(d, p, r)
}

/// A parameter that an optimizer updates: open to training, with a gradient.
pub open spec fn is_trainable<E>(p: ParameterView<E>) -> bool {
    !p.frozen && p.grad is Some
}

/// `after` is the parameter `before` after one step of gradient descent at
/// the learning rate `lr`: a frozen parameter and one without gradient stay
/// as they are; every element of another has `lr * grad` subtracted.
pub open spec fn sgd_updated<E: Scalar>(lr: E, before: ParameterView<E>, after: ParameterView<E>) -> bool {
    if is_trainable(before) {
        &&& after.grad == before.grad
        &&& after.name == before.name
        &&& after.frozen == before.frozen
        &&& after.data.dims == before.data.dims
        &&& after.data.data.len() == before.data.data.len()
        &&& forall|i: int|
            0 <= i < after.data.data.len() ==> sgd_at(
                lr,
                before.data.data[i],
                before.grad->0.data[i],
                #[trigger] after.data.data[i],
            )
    } else {
        after == before
    }
}

impl<E: Scalar> SGD<E> {
    /// Gradient descent at the learning rate `lr`.
    pub fn new(lr: E) -> (opt: Self)
        ensures
            opt.lr == lr,
    {
        SGD { lr }
    }

    /// Updates one parameter.
    ///
    /// Fails, and changes nothing, if the parameter is to be updated and its
    /// gradient holds another number of elements than its value.
    pub fn update<B: Backend<E>>(&self, p: &mut Parameter<E, B>) -> (r: OptimizerResult<()>)
        ensures
            r is Err <==> is_trainable(old(p)@) && old(p)@.grad->0.data.len() != old(p)@.data.data.len(),
            r is Ok ==> sgd_updated(self.lr, old(p)@, final(p)@),
            r is Err ==> final(p)@ == old(p)@,
            old(p)@.wf() ==> final(p)@.wf(),
    {
        if p.is_frozen() {
            return Ok(());
        }
        let grad = match p.grad() {
            Some(g) => g.clone(),
            None => {
                return Ok(());
            },
        };
        let ghost before = p@;
        let n = grad.numel();
        if p.data().numel() != n {
            return Err(OptimizerError("param and grad shape mismatch".to_string()));
        }
        let lr = self.lr;
        let gs = grad.data();
        let d = p.data_mut().data_mut();
        let mut i: usize = 0;
        while i < n
            invariant
                i <= n,
                n == gs@.len(),
                n == d@.len(),
                n == before.data.data.len(),
                gs@ == before.grad->0.data,
                forall|j: int|
                    0 <= j < i ==> sgd_at(lr, before.data.data[j], gs@[j], #[trigger] d@[j]),
                forall|j: int| i <= j < n ==> #[trigger] d@[j] == before.data.data[j],
            decreases n - i,
        {
            let scaled = lr.mul(gs[i]);
            let next = d[i].sub(scaled);
            proof {
                assert(is_prod(lr, gs@[i as int], scaled));
            }
            d[i] = next;
            i = i + 1;
        }
        Ok(())
    }
}

/// A parameter that gradient descent can take: one that is left alone, or
/// one whose gradient holds as many elements as its value.
pub open spec fn sgd_fits<E>(p: ParameterView<E>) -> bool {
    is_trainable(p) ==> p.grad->0.data.len() == p.data.data.len()
}

/// Gradient descent can take every parameter of the list up to `k`.
pub open spec fn sgd_fit_through<E, B>(ps: Seq<&mut Parameter<E, B>>, k: int) -> bool {
    forall|j: int| 0 <= j <= k && j < ps.len() ==> sgd_fits(#[trigger] held(ps, j))
}

impl<E: Scalar, B: Backend<E>> Optimizer<E, B> for SGD<E> {
    /// One step of gradient descent on every parameter, in order.
    ///
    /// Fails at the first parameter that is to be updated and whose gradient
    /// holds another number of elements than its value; the parameters
    /// before it are updated, the others stay.
    fn step(&mut self, parameters: &mut [&mut Parameter<E, B>]) -> (r: OptimizerResult<()>)
        ensures
            final(self).lr == old(self).lr,
            final(parameters)@.len() == old(parameters)@.len(),
            forall|k: int|
                0 <= k < old(parameters)@.len() ==> *final(#[trigger] final(parameters)@[k])
                    == *final(old(parameters)@[k]),
            r is Ok <==> sgd_fit_through(old(parameters)@, old(parameters)@.len() - 1),
            forall|k: int|
                0 <= k < old(parameters)@.len() ==> if sgd_fit_through(old(parameters)@, k) {
                    sgd_updated(
                        old(self).lr,
                        held(old(parameters)@, k),
                        #[trigger] held(final(parameters)@, k),
                    )
                } else {
                    held(final(parameters)@, k) == held(old(parameters)@, k)
                },
    {
        let n = parameters.len();
        let mut i: usize = 0;
        while i < n
            invariant
                i <= n,
                n == parameters@.len(),
                n == old(parameters)@.len(),
                self.lr == old(self).lr,
                forall|k: int|
                    0 <= k < n ==> *final(#[trigger] parameters@[k]) == *final(old(parameters)@[k]),
                forall|k: int| 0 <= k < i ==> sgd_fits(#[trigger] (*old(parameters)@[k])@),
                forall|k: int|
                    0 <= k < i ==> sgd_updated(
                        self.lr,
                        #[trigger] (*old(parameters)@[k])@,
                        (*parameters@[k])@,
                    ),
                forall|k: int| i <= k < n ==> (*parameters@[k])@ == (*old(parameters)@[k])@,
            decreases n - i,
        {
            match self.update(&mut *parameters[i]) {
                Ok(()) => {},
                Err(e) => {
                    proof {
                        assert(!sgd_fits(held(old(parameters)@, i as int)));
                        assert forall|k: int| 0 <= k < n implies if sgd_fit_through(
                            old(parameters)@,
                            k,
                        ) {
                            sgd_updated(
                                self.lr,
                                held(old(parameters)@, k),
                                #[trigger] held(parameters@, k),
                            )
                        } else {
                            held(parameters@, k) == held(old(parameters)@, k)
                        } by {
                            if k < i {
                                assert(sgd_updated(
                                    self.lr,
                                    (*old(parameters)@[k])@,
                                    (*parameters@[k])@,
                                ));
                                assert forall|j: int| 0 <= j <= k implies sgd_fits(
                                    #[trigger] held(old(parameters)@, j),
                                ) by {
                                    assert(sgd_fits((*old(parameters)@[j])@));
                                }
                            }
                        }
                    }
                    return Err(e);
                },
            }
            i = i + 1;
        }
        proof {
            assert forall|k: int| 0 <= k < n implies sgd_updated(
                self.lr,
                held(old(parameters)@, k),
                #[trigger] held(parameters@, k),
            ) && sgd_fits(held(old(parameters)@, k)) by {
                assert(sgd_updated(self.lr, (*old(parameters)@[k])@, (*parameters@[k])@));
                assert(sgd_fits((*old(parameters)@[k])@));
            }
        }
        Ok(())
    }
}

/// `r` is `beta * m + (one - beta) * g`.
pub open spec fn first_moment_at<E: Scalar>(one: E, beta: E, m: E, g: E, r: E) -> bool {
    exists|a: E, b: E, c: E|
        #![trigger is_prod(beta, m, a), is_diff(one, beta, b), is_prod(b, g, c)]
        is_prod(beta, m, a) && is_diff(one, beta, b) && is_prod(b, g, c) && is_sum(a, c, r)
}

/// `r` is `beta * v + (one - beta) * g * g`.
pub open spec fn second_moment_at<E: Scalar>(one: E, beta: E, v: E, g: E, r: E) -> bool {
    exists|a: E, b: E, c: E, d: E|
        #![trigger is_prod(beta, v, a), is_diff(one, beta, b), is_prod(b, g, c), is_prod(c, g, d)]
        is_prod(beta, v, a) && is_diff(one, beta, b) && is_prod(b, g, c) && is_prod(c, g, d)
            && is_sum(a, d, r)
}

/// `r` is `one / (one - power)`, the correction of a moment for its bias.
pub open spec fn correction_at<E: Scalar>(one: E, power: E, r: E) -> bool {
    exists|a: E| #[trigger] is_diff(one, power, a) && is_quot(one, a, r)
}

/// `r` is `d - lr * (m * m_hat) / (sqrt(v * v_hat) + eps)`.
pub open spec fn adam_at<E: Scalar>(lr: E, eps: E, m_hat: E, v_hat: E, d: E, m: E, v: E, r: E) -> bool {
    exists|mj: E, vj: E, num: E, root: E, den: E, delta: E|
        #![trigger is_prod(m, m_hat, mj), is_prod(v, v_hat, vj), is_prod(lr, mj, num), is_sqrt(vj, root), is_sum(root, eps, den), is_quot(num, den, delta)]
        is_prod(m, m_hat, mj) && is_prod(v, v_hat, vj) && is_prod(lr, mj, num) && is_sqrt(vj, root)
            && is_sum(root, eps, den) && is_quot(num, den, delta) && is_diff(d, delta, r)
}

/// Adam: gradient descent on the first moment of the gradient, scaled by the
/// root of its second moment, both corrected for their bias.
pub struct Adam<E> {
    /// The learning rate.
    pub lr: E,
    /// The decay of the first moment.
    pub beta1: E,
    /// The decay of the second moment.
    pub beta2: E,
    /// What keeps the division away from zero.
    pub eps: E,
    state: Vec<(Vec<E>, Vec<E>)>,
    t: u32,
}

/// The value of the parameter, its gradient and both moments hold the same
/// number of elements.
pub open spec fn adam_fits<E>(p: ParameterView<E>, moments: (Seq<E>, Seq<E>)) -> bool {
    &&& p.grad->0.data.len() == p.data.data.len()
    &&& moments.0.len() == p.data.data.len()
    &&& moments.1.len() == p.data.data.len()
}

/// The moments after one step on the gradient `g`.
pub open spec fn moments_updated<E: Scalar>(
    beta1: E,
    beta2: E,
    before: (Seq<E>, Seq<E>),
    g: Seq<E>,
    after: (Seq<E>, Seq<E>),
) -> bool {
    &&& after.0.len() == g.len()
    &&& after.1.len() == g.len()
    &&& exists|one: E| #[trigger]
        is_one(one) && (forall|j: int|
            0 <= j < g.len() ==> first_moment_at(one, beta1, before.0[j], g[j], #[trigger] after.0[j]))
            && (forall|j: int|
            0 <= j < g.len() ==> second_moment_at(one, beta2, before.1[j], g[j], #[trigger] after.1[j]))
}

/// The value after one step, from the moments `m` and `v` and the powers
/// `beta1_t` and `beta2_t` of the decays.
pub open spec fn adam_stepped<E: Scalar>(
    lr: E,
    eps: E,
    beta1_t: E,
    beta2_t: E,
    m: Seq<E>,
    v: Seq<E>,
    before: Seq<E>,
    after: Seq<E>,
) -> bool {
    &&& after.len() == before.len()
    &&& exists|one: E, m_hat: E, v_hat: E|
        #![trigger correction_at(one, beta1_t, m_hat), correction_at(one, beta2_t, v_hat)]
        is_one(one) && correction_at(one, beta1_t, m_hat) && correction_at(one, beta2_t, v_hat)
            && forall|j: int|
            0 <= j < after.len() ==> adam_at(lr, eps, m_hat, v_hat, before[j], m[j], v[j], #[trigger] after[j])
}

/// What Adam does to one parameter `before` with the moments
/// `moments_before`: a frozen parameter and one without gradient stay, with
/// their moments; of another, the moments take in the gradient and the value
/// moves by the corrected first moment over the root of the corrected second.
pub open spec fn adam_updated<E: Scalar>(
    rates: (E, E, E, E),
    beta1_t: E,
    beta2_t: E,
    before: ParameterView<E>,
    moments_before: (Seq<E>, Seq<E>),
    after: ParameterView<E>,
    moments_after: (Seq<E>, Seq<E>),
) -> bool {
    if is_trainable(before) {
        &&& after.grad == before.grad
        &&& after.name == before.name
        &&& after.frozen == before.frozen
        &&& after.data.dims == before.data.dims
        &&& moments_updated(rates.1, rates.2, moments_before, before.grad->0.data, moments_after)
        &&& adam_stepped(
            rates.0,
            rates.3,
            beta1_t,
            beta2_t,
            moments_after.0,
            moments_after.1,
            before.data.data,
            after.data.data,
        )
    } else {
        after == before && moments_after == moments_before
    }
}

/// A parameter that Adam can take with the moments `moments`: one that is
/// left alone, or one whose value, gradient and moments all hold the same
/// number of elements.
pub open spec fn adam_takes<E>(p: ParameterView<E>, moments: (Seq<E>, Seq<E>)) -> bool {
    is_trainable(p) ==> adam_fits(p, moments)
}

/// Every element of `s` is a zero.
pub open spec fn all_zero<E: Scalar>(s: Seq<E>) -> bool {
    forall|j: int| 0 <= j < s.len() ==> is_zero(#[trigger] s[j])
}

/// The moments that a step starts from: those kept from earlier steps, and
/// for each parameter beyond them, zeros, as many as its value holds.
pub open spec fn adam_start<E: Scalar, B>(
    kept: Seq<(Seq<E>, Seq<E>)>,
    ps: Seq<&mut Parameter<E, B>>,
    start: Seq<(Seq<E>, Seq<E>)>,
) -> bool {
    &&& start.len() == if kept.len() >= ps.len() {
        kept.len()
    } else {
        ps.len()
    }
    &&& forall|k: int| 0 <= k < kept.len() ==> #[trigger] start[k] == kept[k]
    &&& forall|k: int|
        kept.len() <= k < ps.len() ==> (#[trigger] start[k]).0.len() == held(ps, k).data.data.len()
            && start[k].1.len() == held(ps, k).data.data.len() && all_zero(start[k].0) && all_zero(
            start[k].1,
        )
}

/// Adam can take every parameter of the list up to `k`, each with its
/// moments.
pub open spec fn adam_fit_through<E, B>(
    ps: Seq<&mut Parameter<E, B>>,
    start: Seq<(Seq<E>, Seq<E>)>,
    k: int,
) -> bool {
    forall|j: int| 0 <= j <= k && j < ps.len() ==> adam_takes(#[trigger] held(ps, j), start[j])
}

/// `beta1_t` and `beta2_t` are the decays raised to the number of steps.
pub open spec fn is_powers<E: Scalar>(rates: (E, E, E, E), steps: u32, beta1_t: E, beta2_t: E) -> bool {
    exists|power: i32| #[trigger]
        is_powi(rates.1, power, beta1_t) && is_powi(rates.2, power, beta2_t) && (steps <= i32::MAX
            ==> power == steps)
}

impl<E: Scalar> Adam<E> {
    /// The learning rate, the two decays and `eps`.
    pub closed spec fn rates(&self) -> (E, E, E, E) {
        (self.lr, self.beta1, self.beta2, self.eps)
    }

    /// The moments kept for each parameter, in the order of the parameters.
    pub closed spec fn moments(&self) -> Seq<(Seq<E>, Seq<E>)> {
        Seq::new(self.state@.len(), |i: int| (self.state@[i].0@, self.state@[i].1@))
    }

    /// The number of steps taken.
    pub closed spec fn steps(&self) -> u32 {
        self.t
    }

    /// Adam at the learning rate `lr`, with the decays `0.9` and `0.999` and
    /// `eps = 1e-8`, before its first step.
    pub fn new(lr: E) -> (opt: Self)
        ensures
            opt.rates().0 == lr,
            is_ratio(9, 10, opt.rates().1),
            is_ratio(999, 1000, opt.rates().2),
            is_ratio(1, 100000000, opt.rates().3),
            opt.moments().len() == 0,
            opt.steps() == 0,
    {
        let beta1 = ratio::<E>(9, 10);
        let beta2 = ratio::<E>(999, 1000);
        let eps = ratio::<E>(1, 100000000);
        Adam { lr, beta1, beta2, eps, state: Vec::new(), t: 0 }
    }

    /// The same optimizer with other decays.
    pub fn with_betas(self, beta1: E, beta2: E) -> (opt: Self)
        ensures
            opt.rates() == (self.rates().0, beta1, beta2, self.rates().3),
            opt.moments() == self.moments(),
            opt.steps() == self.steps(),
    {
        let mut opt = self;
        opt.beta1 = beta1;
        opt.beta2 = beta2;
        opt
    }

    /// The same optimizer with another `eps`.
    pub fn with_eps(self, eps: E) -> (opt: Self)
        ensures
            opt.rates() == (self.rates().0, self.rates().1, self.rates().2, eps),
            opt.moments() == self.moments(),
            opt.steps() == self.steps(),
    {
        let mut opt = self;
        opt.eps = eps;
        opt
    }

    /// Updates the moments kept at `index` and the parameter `p` that they
    /// belong to. Fails, and changes nothing, unless Adam can take the
    /// parameter with these moments.
    fn update<B: Backend<E>>(
        &mut self,
        index: usize,
        p: &mut Parameter<E, B>,
        beta1_t: E,
        beta2_t: E,
    ) -> (r: OptimizerResult<()>)
        requires
            index < old(self).moments().len(),
        ensures
            final(self).rates() == old(self).rates(),
            final(self).steps() == old(self).steps(),
            final(self).moments().len() == old(self).moments().len(),
            forall|k: int|
                0 <= k < old(self).moments().len() && k != index ==> #[trigger] final(self).moments()[k] == old(self).moments()[k],
            r is Ok <==> adam_takes(old(p)@, old(self).moments()[index as int]),
            r is Ok ==> adam_updated(
                old(self).rates(),
                beta1_t,
                beta2_t,
                old(p)@,
                old(self).moments()[index as int],
                final(p)@,
                final(self).moments()[index as int],
            ),
            r is Err ==> final(p)@ == old(p)@ && final(self).moments() == old(self).moments(),
    {
        let ghost opt0 = self.moments();
        proof {
            assert(self.moments()[index as int] == (
                self.state@[index as int].0@,
                self.state@[index as int].1@,
            ));
        }
        if p.is_frozen() {
            return Ok(());
        }
        let grad = match p.grad() {
            Some(g) => g.clone(),
            None => {
                return Ok(());
            },
        };
        let ghost before = p@;
        let n = grad.numel();
        if p.data().numel() != n || self.state[index].0.len() != n || self.state[index].1.len() != n {
            return Err(OptimizerError("param and grad shape mismatch".to_string()));
        }
        let gs = grad.data();
        let one = E::one();
        let beta1 = self.beta1;
        let beta2 = self.beta2;
        let lr = self.lr;
        let eps = self.eps;
        let ghost m0 = self.state@[index as int].0@;
        let ghost v0 = self.state@[index as int].1@;
        let mut m: Vec<E> = Vec::with_capacity(n);
        let mut v: Vec<E> = Vec::with_capacity(n);
        let mut j: usize = 0;
        while j < n
            invariant
                j <= n,
                index < self.state@.len(),
                self.state@[index as int].0@ == m0,
                self.state@[index as int].1@ == v0,
                n == gs@.len(),
                n == m0.len(),
                n == v0.len(),
                m@.len() == j,
                v@.len() == j,
                is_one(one),
                forall|k: int|
                    0 <= k < j ==> first_moment_at(one, beta1, m0[k], gs@[k], #[trigger] m@[k]),
                forall|k: int|
                    0 <= k < j ==> second_moment_at(one, beta2, v0[k], gs@[k], #[trigger] v@[k]),
            decreases n - j,
        {
            let g = gs[j];
            let a = beta1.mul(self.state[index].0[j]);
            let b = one.sub(beta1);
            let c = b.mul(g);
            let mj = a.add(c);
            let a2 = beta2.mul(self.state[index].1[j]);
            let b2 = one.sub(beta2);
            let c2 = b2.mul(g);
            let d2 = c2.mul(g);
            let vj = a2.add(d2);
            proof {
                assert(is_prod(beta1, m0[j as int], a) && is_diff(one, beta1, b) && is_prod(b, g, c));
                assert(first_moment_at(one, beta1, m0[j as int], g, mj));
                assert(is_prod(beta2, v0[j as int], a2) && is_diff(one, beta2, b2) && is_prod(
                    b2,
                    g,
                    c2,
                ) && is_prod(c2, g, d2));
                assert(second_moment_at(one, beta2, v0[j as int], g, vj));
            }
            m.push(mj);
            v.push(vj);
            j = j + 1;
        }
        let d1 = one.sub(beta1_t);
        let m_hat = one.div(d1);
        let d2 = one.sub(beta2_t);
        let v_hat = one.div(d2);
        proof {
            assert(is_diff(one, beta1_t, d1));
            assert(correction_at(one, beta1_t, m_hat));
            assert(is_diff(one, beta2_t, d2));
            assert(correction_at(one, beta2_t, v_hat));
        }
        let d = p.data_mut().data_mut();
        let mut j: usize = 0;
        while j < n
            invariant
                j <= n,
                n == d@.len(),
                n == m@.len(),
                n == v@.len(),
                n == before.data.data.len(),
                forall|k: int|
                    0 <= k < j ==> adam_at(
                        lr,
                        eps,
                        m_hat,
                        v_hat,
                        before.data.data[k],
                        m@[k],
                        v@[k],
                        #[trigger] d@[k],
                    ),
                forall|k: int| j <= k < n ==> #[trigger] d@[k] == before.data.data[k],
            decreases n - j,
        {
            let mj = m[j].mul(m_hat);
            let vj = v[j].mul(v_hat);
            let num = lr.mul(mj);
            let root = vj.sqrt();
            let den = root.add(eps);
            let delta = num.div(den);
            let next = d[j].sub(delta);
            proof {
                assert(is_prod(m@[j as int], m_hat, mj) && is_prod(v@[j as int], v_hat, vj)
                    && is_prod(lr, mj, num) && is_sqrt(vj, root) && is_sum(root, eps, den)
                    && is_quot(num, den, delta));
            }
            d[j] = next;
            j = j + 1;
        }
        let ghost m1 = m@;
        let ghost v1 = v@;
        self.state[index] = (m, v);
        proof {
            assert(self.moments()[index as int] == (m1, v1));
            assert forall|k: int| 0 <= k < opt0.len() && k != index implies #[trigger] self.moments()[k]
                == opt0[k] by {}
            assert(moments_updated(beta1, beta2, (m0, v0), gs@, (m1, v1)));
            assert(adam_stepped(lr, eps, beta1_t, beta2_t, m1, v1, before.data.data, p@.data.data));
        }
        Ok(())
    }
}

impl<E: Scalar, B: Backend<E>> Optimizer<E, B> for Adam<E> {
    /// One step of Adam on every parameter, in order: counts the step, raises
    /// the decays to the count, gives zero moments to every parameter that
    /// has none yet, and updates each parameter with its moments.
    ///
    /// Fails, and changes nothing, if the steps can no longer be counted.
    /// Fails at the first parameter that is to be updated and whose value,
    /// gradient and moments do not all hold the same number of elements; the
    /// parameters before it are updated, the others stay.
    fn step(&mut self, parameters: &mut [&mut Parameter<E, B>]) -> (r: OptimizerResult<()>)
        ensures
            final(self).rates() == old(self).rates(),
            final(parameters)@.len() == old(parameters)@.len(),
            forall|k: int|
                0 <= k < old(parameters)@.len() ==> *final(#[trigger] final(parameters)@[k])
                    == *final(old(parameters)@[k]),
            old(self).steps() == u32::MAX ==> r is Err && final(self).steps() == old(self).steps()
                && final(self).moments() == old(self).moments() && forall|k: int|
                0 <= k < old(parameters)@.len() ==> #[trigger] held(final(parameters)@, k) == held(
                    old(parameters)@,
                    k,
                ),
            old(self).steps() < u32::MAX ==> final(self).steps() == old(self).steps() + 1,
            old(self).steps() < u32::MAX ==> exists|beta1_t: E, beta2_t: E, start: Seq<(Seq<E>, Seq<E>)>|
                #![trigger is_powers(old(self).rates(), final(self).steps(), beta1_t, beta2_t), adam_start(old(self).moments(), old(parameters)@, start)]
                {
                    &&& is_powers(old(self).rates(), final(self).steps(), beta1_t, beta2_t)
                    &&& adam_start(old(self).moments(), old(parameters)@, start)
                    &&& final(self).moments().len() == start.len()
                    &&& r is Ok <==> adam_fit_through(
                        old(parameters)@,
                        start,
                        old(parameters)@.len() - 1,
                    )
                    &&& forall|k: int|
                        0 <= k < old(parameters)@.len() ==> if adam_fit_through(
                            old(parameters)@,
                            start,
                            k,
                        ) {
                            adam_updated(
                                old(self).rates(),
                                beta1_t,
                                beta2_t,
                                held(old(parameters)@, k),
                                start[k],
                                #[trigger] held(final(parameters)@, k),
                                final(self).moments()[k],
                            )
                        } else {
                            held(final(parameters)@, k) == held(old(parameters)@, k) && final(self).moments()[k] == start[k]
                        }
                    &&& forall|k: int|
                        old(parameters)@.len() <= k < start.len() ==> #[trigger] final(self).moments()[k]
                            == start[k]
                },
    {
        let t = match self.t.checked_add(1) {
            Some(t) => t,
            None => {
                return Err(OptimizerError("too many steps".to_string()));
            },
        };
        self.t = t;
        let power = #[verifier::truncate] (t as i32);
        let beta1_t = self.beta1.powi(power);
        let beta2_t = self.beta2.powi(power);
        proof {
            assert(is_powi(self.rates().1, power, beta1_t) && is_powi(self.rates().2, power, beta2_t));
            assert(t <= i32::MAX ==> power == t);
            assert(is_powers(self.rates(), t, beta1_t, beta2_t));
        }
        let n = parameters.len();
        let ghost kept = self.moments();
        while self.state.len() < n
            invariant
                n == parameters@.len(),
                n == old(parameters)@.len(),
                forall|k: int|
                    0 <= k < n ==> *final(#[trigger] parameters@[k]) == *final(old(parameters)@[k]),
                self.rates() == old(self).rates(),
                self.steps() == t,
                t == old(self).steps() + 1,
                kept.len() <= self.moments().len(),
                self.moments().len() == self.state@.len(),
                self.state@.len() <= n || self.state@.len() == kept.len(),
                forall|k: int| 0 <= k < kept.len() ==> #[trigger] self.moments()[k] == kept[k],
                forall|k: int|
                    kept.len() <= k < self.moments().len() ==> (#[trigger] self.moments()[k]).0.len()
                        == held(parameters@, k).data.data.len() && self.moments()[k].1.len() == held(
                        parameters@,
                        k,
                    ).data.data.len() && all_zero(self.moments()[k].0) && all_zero(
                        self.moments()[k].1,
                    ),
            decreases n - self.state@.len(),
        {
            let k = self.state.len();
            let ghost before = self.moments();
            let len = parameters[k].data().numel();
            let zero = E::zero();
            let mut zeros: Vec<E> = Vec::with_capacity(len);
            let mut j: usize = 0;
            while j < len
                invariant
                    j <= len,
                    zeros@.len() == j,
                    is_zero(zero),
                    forall|i: int| 0 <= i < j ==> #[trigger] zeros@[i] == zero,
                decreases len - j,
            {
                zeros.push(zero);
                j = j + 1;
            }
            let second = slice_to_vec(zeros.as_slice());
            self.state.push((zeros, second));
            proof {
                assert forall|i: int| 0 <= i < before.len() implies #[trigger] self.moments()[i]
                    == before[i] by {}
                assert(self.moments()[k as int].0 =~= zeros@);
                assert(self.moments()[k as int].1 =~= zeros@);
            }
        }
        let ghost start = self.moments();
        proof {
            assert(kept == old(self).moments());
            assert(adam_start(kept, parameters@, start));
        }
        let mut i: usize = 0;
        while i < n
            invariant
                i <= n,
                n == parameters@.len(),
                n == old(parameters)@.len(),
                forall|k: int|
                    0 <= k < n ==> *final(#[trigger] parameters@[k]) == *final(old(parameters)@[k]),
                self.rates() == old(self).rates(),
                self.steps() == t,
                t == old(self).steps() + 1,
                is_powers(old(self).rates(), t, beta1_t, beta2_t),
                adam_start(old(self).moments(), old(parameters)@, start),
                self.moments().len() == start.len(),
                start.len() >= n,
                forall|k: int|
                    0 <= k < i ==> adam_takes(#[trigger] (*old(parameters)@[k])@, start[k]),
                forall|k: int|
                    0 <= k < i ==> adam_updated(
                        self.rates(),
                        beta1_t,
                        beta2_t,
                        #[trigger] (*old(parameters)@[k])@,
                        start[k],
                        (*parameters@[k])@,
                        self.moments()[k],
                    ),
                forall|k: int| i <= k < n ==> (*parameters@[k])@ == (*old(parameters)@[k])@,
                forall|k: int| i <= k < start.len() ==> #[trigger] self.moments()[k] == start[k],
            decreases n - i,
        {
            let ghost moments = self.moments();
            match self.update(i, &mut *parameters[i], beta1_t, beta2_t) {
                Ok(()) => {},
                Err(e) => {
                    proof {
                        assert(!adam_takes(held(old(parameters)@, i as int), start[i as int]));
                        assert(self.moments() == moments);
                        assert forall|k: int| 0 <= k < n implies if adam_fit_through(
                            old(parameters)@,
                            start,
                            k,
                        ) {
                            adam_updated(
                                self.rates(),
                                beta1_t,
                                beta2_t,
                                held(old(parameters)@, k),
                                start[k],
                                #[trigger] held(parameters@, k),
                                self.moments()[k],
                            )
                        } else {
                            held(parameters@, k) == held(old(parameters)@, k) && self.moments()[k]
                                == start[k]
                        } by {
                            if k < i {
                                assert(adam_updated(
                                    self.rates(),
                                    beta1_t,
                                    beta2_t,
                                    (*old(parameters)@[k])@,
                                    start[k],
                                    (*parameters@[k])@,
                                    self.moments()[k],
                                ));
                                assert forall|j: int| 0 <= j <= k implies adam_takes(
                                    #[trigger] held(old(parameters)@, j),
                                    start[j],
                                ) by {
                                    assert(adam_takes((*old(parameters)@[j])@, start[j]));
                                }
                            }
                        }
                    }
                    return Err(e);
                },
            }
            proof {
                assert forall|k: int| 0 <= k < i implies adam_updated(
                    self.rates(),
                    beta1_t,
                    beta2_t,
                    #[trigger] (*old(parameters)@[k])@,
                    start[k],
                    (*parameters@[k])@,
                    self.moments()[k],
                ) by {
                    assert(self.moments()[k] == moments[k]);
                }
            }
            i = i + 1;
        }
        proof {
            assert forall|k: int| 0 <= k < n implies adam_updated(
                self.rates(),
                beta1_t,
                beta2_t,
                held(old(parameters)@, k),
                start[k],
                #[trigger] held(parameters@, k),
                self.moments()[k],
            ) && adam_takes(held(old(parameters)@, k), start[k]) by {
                assert(adam_updated(
                    self.rates(),
                    beta1_t,
                    beta2_t,
                    (*old(parameters)@[k])@,
                    start[k],
                    (*parameters@[k])@,
                    self.moments()[k],
                ));
                assert(adam_takes((*old(parameters)@[k])@, start[k]));
            }
        }
        Ok(())
    }
}

} // verus!
