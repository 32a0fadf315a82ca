//! The order in which the backward pass walks a graph.
//!
//! A graph is seen here as its edges alone: `edges[i]` lists the inputs of
//! node `i`. Every input of a node was created before the node, so the graph
//! has no cycle and a depth-first walk along the inputs ends.

use vstd::prelude::*;

verus! {

/// Every input of a node is a node created before it.
pub open spec fn inputs_precede(edges: Seq<Seq<usize>>) -> bool {
    forall|i: int, k: int|
        0 <= i < edges.len() && 0 <= k < edges[i].len() ==> (#[trigger] edges[i][k]) < i
}

/// `to` can be reached from `from` by following inputs.
pub open spec fn reaches(edges: Seq<Seq<usize>>, from: int, to: int) -> bool
    decreases from,
{
    from == to || (0 <= from < edges.len() && exists|k: int|
        0 <= k < edges[from].len() && (#[trigger] edges[from][k]) < from && reaches(
            edges,
            edges[from][k] as int,
            to,
        ))
}

/// The post-order after the first `k` inputs of `id` have been walked in
/// turn, starting from the post-order `post`.
pub open spec fn visit_inputs(edges: Seq<Seq<usize>>, id: usize, k: int, post: Seq<usize>) -> Seq<
    usize,
>
    decreases id, k,
{
    if k <= 0 {
        post
    } else {
        let before = visit_inputs(edges, id, k - 1, post);
        let child = edges[id as int][k - 1];
        if child < id {
            visit(edges, child, before)
        } else {
            before
        }
    }
}

/// The post-order after a depth-first walk from `id`, starting from the
/// post-order `post`: a node already listed is skipped; otherwise its inputs
/// are walked in their order and the node is listed after them.
pub open spec fn visit(edges: Seq<Seq<usize>>, id: usize, post: Seq<usize>) -> Seq<usize>
    decreases id, edges[id as int].len() + 1,
{
    if post.contains(id) {
        post
    } else {
        visit_inputs(edges, id, edges[id as int].len() as int, post).push(id)
    }
}

/// The order of the backward pass from `out`: the reverse of the depth-first
/// post-order from `out` along the inputs.
pub open spec fn backward_order(edges: Seq<Seq<usize>>, out: usize) -> Seq<usize> {
    visit(edges, out, Seq::empty()).reverse()
}

/// `a` is the beginning of `b`.
pub open spec fn is_prefix(a: Seq<usize>, b: Seq<usize>) -> bool {
    a.len() <= b.len() && b.take(a.len() as int) == a
}

/// What a list holds after one more node is appended.
pub proof fn lemma_push_contains(s: Seq<usize>, x: usize, v: usize)
    ensures
        s.push(x).contains(v) <==> s.contains(v) || v == x,
{
    let longer = s.push(x);
    if s.contains(v) {
        let i = choose|i: int| 0 <= i < s.len() && s[i] == v;
        assert(longer[i] == v);
    }
    if v == x {
        assert(longer[s.len() as int] == v);
    }
    if longer.contains(v) {
        let i = choose|i: int| 0 <= i < longer.len() && longer[i] == v;
        if i < s.len() {
            assert(s[i] == v);
        }
    }
}

/// A node listed in a prefix is listed in the whole.
pub proof fn lemma_prefix_contains(a: Seq<usize>, b: Seq<usize>, v: usize)
    requires
        is_prefix(a, b),
        a.contains(v),
    ensures
        b.contains(v),
{
    let i = choose|i: int| 0 <= i < a.len() && a[i] == v;
    assert(b.take(a.len() as int)[i] == b[i]);
}

/// A prefix of a prefix is a prefix.
pub proof fn lemma_prefix_trans(a: Seq<usize>, b: Seq<usize>, c: Seq<usize>)
    requires
        is_prefix(a, b),
        is_prefix(b, c),
    ensures
        is_prefix(a, c),
{
    assert(c.take(a.len() as int) =~= b.take(a.len() as int)) by {
        assert forall|i: int| 0 <= i < a.len() implies c[i] == b[i] by {
            assert(c.take(b.len() as int)[i] == c[i]);
        }
    }
}

/// Walking the inputs of a node only appends to the post-order.
pub proof fn lemma_visit_inputs_extends(edges: Seq<Seq<usize>>, id: usize, k: int, post: Seq<usize>)
    ensures
        is_prefix(post, visit_inputs(edges, id, k, post)),
    decreases id, k,
{
    if k <= 0 {
        assert(post.take(post.len() as int) =~= post);
    } else {
        let before = visit_inputs(edges, id, k - 1, post);
        lemma_visit_inputs_extends(edges, id, k - 1, post);
        let child = edges[id as int][k - 1];
        if child < id {
            lemma_visit_extends(edges, child, before);
            lemma_prefix_trans(post, before, visit(edges, child, before));
        }
    }
}

/// A walk only appends to the post-order.
pub proof fn lemma_visit_extends(edges: Seq<Seq<usize>>, id: usize, post: Seq<usize>)
    ensures
        is_prefix(post, visit(edges, id, post)),
    decreases id, edges[id as int].len() + 1,
{
    if post.contains(id) {
        assert(post.take(post.len() as int) =~= post);
    } else {
        let walked = visit_inputs(edges, id, edges[id as int].len() as int, post);
        lemma_visit_inputs_extends(edges, id, edges[id as int].len() as int, post);
        assert(walked.push(id).take(post.len() as int) =~= walked.take(post.len() as int));
    }
}

/// Following one more input from a reachable node reaches that input.
pub proof fn lemma_reaches_step(edges: Seq<Seq<usize>>, root: int, u: int, k: int)
    requires
        reaches(edges, root, u),
        0 <= u < edges.len(),
        0 <= k < edges[u].len(),
        edges[u][k] < u,
    ensures
        reaches(edges, root, edges[u][k] as int),
    decreases root,
{
    let v = edges[u][k] as int;
    if root == u {
        assert(reaches(edges, v, v));
    } else {
        let k2 = choose|k2: int|
            0 <= k2 < edges[root].len() && (#[trigger] edges[root][k2]) < root && reaches(
                edges,
                edges[root][k2] as int,
                u,
            );
        lemma_reaches_step(edges, edges[root][k2] as int, u, k);
    }
}

/// Every listed node is a node of the graph that can be reached from `root`.
pub open spec fn all_reached(edges: Seq<Seq<usize>>, root: int, post: Seq<usize>) -> bool {
    forall|i: int|
        0 <= i < post.len() ==> (#[trigger] post[i]) < edges.len() && reaches(
            edges,
            root,
            post[i] as int,
        )
}

/// Walking the inputs of a reachable node lists reachable nodes only.
pub proof fn lemma_visit_inputs_reached(
    edges: Seq<Seq<usize>>,
    root: int,
    id: usize,
    k: int,
    post: Seq<usize>,
)
    requires
        inputs_precede(edges),
        id < edges.len(),
        k <= edges[id as int].len(),
        reaches(edges, root, id as int),
        all_reached(edges, root, post),
    ensures
        all_reached(edges, root, visit_inputs(edges, id, k, post)),
    decreases id, k,
{
    if k > 0 {
        lemma_visit_inputs_reached(edges, root, id, k - 1, post);
        let before = visit_inputs(edges, id, k - 1, post);
        let child = edges[id as int][k - 1];
        assert(child < id);
        lemma_reaches_step(edges, root, id as int, k - 1);
        lemma_visit_reached(edges, root, child, before);
    }
}

/// A walk from a reachable node lists reachable nodes only.
pub proof fn lemma_visit_reached(edges: Seq<Seq<usize>>, root: int, id: usize, post: Seq<usize>)
    requires
        inputs_precede(edges),
        id < edges.len(),
        reaches(edges, root, id as int),
        all_reached(edges, root, post),
    ensures
        all_reached(edges, root, visit(edges, id, post)),
    decreases id, edges[id as int].len() + 1,
{
    if !post.contains(id) {
        lemma_visit_inputs_reached(edges, root, id, edges[id as int].len() as int, post);
    }
}

/// The node listed at `j` takes the node listed at `i` as an input.
pub open spec fn consumes(edges: Seq<Seq<usize>>, post: Seq<usize>, j: int, i: int) -> bool {
    edges[post[j] as int].contains(post[i])
}

/// The node listed at `i` is an input of a node listed after it.
pub open spec fn consumed_later(edges: Seq<Seq<usize>>, post: Seq<usize>, i: int) -> bool {
    exists|j: int| i < j < post.len() && #[trigger] consumes(edges, post, j, i)
}

/// Every node listed from `from` on is an input of a node listed after it, or
/// one of the nodes `pending`.
pub open spec fn fed_from(
    edges: Seq<Seq<usize>>,
    post: Seq<usize>,
    from: int,
    pending: Seq<usize>,
) -> bool {
    forall|i: int|
        from <= i < post.len() ==> #[trigger] consumed_later(edges, post, i) || pending.contains(
            post[i],
        )
}

/// A consumer found in a prefix is a consumer in the whole list.
pub proof fn lemma_consumed_in_prefix(
    edges: Seq<Seq<usize>>,
    a: Seq<usize>,
    b: Seq<usize>,
    i: int,
)
    requires
        is_prefix(a, b),
        0 <= i < a.len(),
        consumed_later(edges, a, i),
    ensures
        consumed_later(edges, b, i),
{
    let j = choose|j: int| i < j < a.len() && #[trigger] consumes(edges, a, j, i);
    assert(b.take(a.len() as int)[i] == b[i]);
    assert(b.take(a.len() as int)[j] == b[j]);
    assert(consumes(edges, b, j, i));
}

/// After the first `k` inputs of `id` are walked, every newly listed node is
/// an input of a node listed after it, or one of those `k` inputs.
pub proof fn lemma_visit_inputs_fed(edges: Seq<Seq<usize>>, id: usize, k: int, post: Seq<usize>)
    requires
        inputs_precede(edges),
        id < edges.len(),
        0 <= k <= edges[id as int].len(),
    ensures
        fed_from(
            edges,
            visit_inputs(edges, id, k, post),
            post.len() as int,
            edges[id as int].take(k),
        ),
    decreases id, k,
{
    let after = visit_inputs(edges, id, k, post);
    if k > 0 {
        let before = visit_inputs(edges, id, k - 1, post);
        let child = edges[id as int][k - 1];
        assert(child < id);
        lemma_visit_inputs_fed(edges, id, k - 1, post);
        lemma_visit_inputs_extends(edges, id, k - 1, post);
        lemma_visit_fed(edges, child, before);
        lemma_visit_extends(edges, child, before);
        assert forall|i: int| post.len() <= i < after.len() implies #[trigger] consumed_later(
            edges,
            after,
            i,
        ) || edges[id as int].take(k).contains(after[i]) by {
            if i < before.len() {
                assert(after.take(before.len() as int)[i] == after[i]);
                if consumed_later(edges, before, i) {
                    lemma_consumed_in_prefix(edges, before, after, i);
                } else {
                    let shorter = edges[id as int].take(k - 1);
                    let w = choose|w: int| 0 <= w < shorter.len() && #[trigger] shorter[w] == before[i];
                    assert(edges[id as int].take(k)[w] == after[i]);
                }
            } else if i == after.len() - 1 {
                assert(edges[id as int].take(k)[k - 1] == after[i]);
            }
        }
    }
}

/// After a walk from `id`, every newly listed node but `id` itself is an
/// input of a node listed after it; `id` is listed last.
pub proof fn lemma_visit_fed(edges: Seq<Seq<usize>>, id: usize, post: Seq<usize>)
    requires
        inputs_precede(edges),
        id < edges.len(),
    ensures
        post.contains(id) ==> visit(edges, id, post) == post,
        !post.contains(id) ==> visit(edges, id, post).last() == id && visit(
            edges,
            id,
            post,
        ).len() > post.len(),
        forall|i: int|
            post.len() <= i < visit(edges, id, post).len() - 1 ==> #[trigger] consumed_later(
                edges,
                visit(edges, id, post),
                i,
            ),
    decreases id, edges[id as int].len() + 1,
{
    if !post.contains(id) {
        let n = edges[id as int].len() as int;
        let walked = visit_inputs(edges, id, n, post);
        let after = walked.push(id);
        lemma_visit_inputs_fed(edges, id, n, post);
        lemma_visit_inputs_extends(edges, id, n, post);
        assert(edges[id as int].take(n) =~= edges[id as int]);
        assert(is_prefix(walked, after)) by {
            assert(after.take(walked.len() as int) =~= walked);
        }
        assert forall|i: int| post.len() <= i < after.len() - 1 implies #[trigger] consumed_later(
            edges,
            after,
            i,
        ) by {
            if consumed_later(edges, walked, i) {
                lemma_consumed_in_prefix(edges, walked, after, i);
            } else {
                assert(edges[id as int].contains(walked[i]));
                assert(consumes(edges, after, walked.len() as int, i));
            }
        }
    }
}

/// Every input of a listed node is listed.
pub open spec fn closed_under_inputs(edges: Seq<Seq<usize>>, post: Seq<usize>) -> bool {
    forall|i: int, k: int|
        0 <= i < post.len() && 0 <= k < edges[post[i] as int].len() ==> post.contains(
            #[trigger] edges[post[i] as int][k],
        )
}

/// Walking the inputs of a node keeps the list closed under inputs, and lists
/// the inputs walked.
pub proof fn lemma_visit_inputs_closed(edges: Seq<Seq<usize>>, id: usize, k: int, post: Seq<usize>)
    requires
        inputs_precede(edges),
        id < edges.len(),
        0 <= k <= edges[id as int].len(),
        closed_under_inputs(edges, post),
    ensures
        closed_under_inputs(edges, visit_inputs(edges, id, k, post)),
        forall|j: int|
            0 <= j < k ==> visit_inputs(edges, id, k, post).contains(#[trigger] edges[id as int][j]),
    decreases id, k,
{
    if k > 0 {
        let before = visit_inputs(edges, id, k - 1, post);
        let child = edges[id as int][k - 1];
        let after = visit(edges, child, before);
        assert(child < id);
        lemma_visit_inputs_closed(edges, id, k - 1, post);
        lemma_visit_closed(edges, child, before);
        lemma_visit_extends(edges, child, before);
        assert forall|j: int| 0 <= j < k implies after.contains(#[trigger] edges[id as int][j]) by {
            if j < k - 1 {
                lemma_prefix_contains(before, after, edges[id as int][j]);
            }
        }
    }
}

/// A walk keeps the list closed under inputs, and lists the node it starts at.
pub proof fn lemma_visit_closed(edges: Seq<Seq<usize>>, id: usize, post: Seq<usize>)
    requires
        inputs_precede(edges),
        id < edges.len(),
        closed_under_inputs(edges, post),
    ensures
        closed_under_inputs(edges, visit(edges, id, post)),
        visit(edges, id, post).contains(id),
    decreases id, edges[id as int].len() + 1,
{
    if !post.contains(id) {
        let n = edges[id as int].len() as int;
        let walked = visit_inputs(edges, id, n, post);
        let after = walked.push(id);
        lemma_visit_inputs_closed(edges, id, n, post);
        lemma_push_contains(walked, id, id);
        assert forall|i: int, k: int|
            0 <= i < after.len() && 0 <= k < edges[after[i] as int].len() implies after.contains(
            #[trigger] edges[after[i] as int][k],
        ) by {
            let x = edges[after[i] as int][k];
            if i < walked.len() {
                assert(walked.contains(edges[walked[i] as int][k]));
            } else {
                assert(walked.contains(edges[id as int][k]));
            }
            lemma_push_contains(walked, id, x);
        }
    }
}

/// A list closed under inputs holds every node that a listed node reaches.
pub proof fn lemma_reach_listed(edges: Seq<Seq<usize>>, post: Seq<usize>, from: usize, to: int)
    requires
        closed_under_inputs(edges, post),
        post.contains(from),
        reaches(edges, from as int, to),
    ensures
        0 <= to <= usize::MAX,
        post.contains(to as usize),
    decreases from,
{
    if from != to {
        let k = choose|k: int|
            0 <= k < edges[from as int].len() && (#[trigger] edges[from as int][k]) < from
                && reaches(edges, edges[from as int][k] as int, to);
        let i = choose|i: int| 0 <= i < post.len() && post[i] == from;
        assert(post.contains(edges[post[i] as int][k]));
        lemma_reach_listed(edges, post, edges[from as int][k], to);
    }
}

/// The order of the backward pass holds every node the output depends on.
pub proof fn lemma_backward_order_complete(edges: Seq<Seq<usize>>, out: usize, v: usize)
    requires
        inputs_precede(edges),
        out < edges.len(),
        reaches(edges, out as int, v as int),
    ensures
        backward_order(edges, out).contains(v),
{
    let post = visit(edges, out, Seq::empty());
    assert(closed_under_inputs(edges, Seq::<usize>::empty()));
    lemma_visit_closed(edges, out, Seq::empty());
    lemma_reach_listed(edges, post, out, v as int);
    let i = choose|i: int| 0 <= i < post.len() && post[i] == v;
    assert(post.reverse()[post.len() - 1 - i] == v);
}

/// The node at `p` is an input of a node earlier in the order.
pub open spec fn fed_earlier(edges: Seq<Seq<usize>>, order: Seq<usize>, p: int) -> bool {
    exists|q: int| 0 <= q < p && #[trigger] consumes(edges, order, q, p)
}

/// The order of the backward pass starts at the output, holds only nodes
/// that can be reached from it, and holds every node but the output after a
/// node that takes it as an input. That it holds every node after every
/// such node, and none twice, is [`lemma_backward_order_sorted`].
pub proof fn lemma_backward_order(edges: Seq<Seq<usize>>, out: usize)
    requires
        inputs_precede(edges),
        out < edges.len(),
    ensures
        backward_order(edges, out).len() > 0,
        backward_order(edges, out)[0] == out,
        all_reached(edges, out as int, backward_order(edges, out)),
        forall|p: int|
            0 < p < backward_order(edges, out).len() ==> #[trigger] fed_earlier(
                edges,
                backward_order(edges, out),
                p,
            ),
{
    let empty = Seq::<usize>::empty();
    let post = visit(edges, out, empty);
    let order = post.reverse();
    let n = post.len() as int;
    lemma_visit_fed(edges, out, empty);
    assert(reaches(edges, out as int, out as int));
    lemma_visit_reached(edges, out as int, out, empty);
    assert forall|p: int| 0 < p < order.len() implies #[trigger] fed_earlier(edges, order, p) by {
        let i = n - 1 - p;
        assert(consumed_later(edges, post, i));
        let j = choose|j: int| i < j < post.len() && #[trigger] consumes(edges, post, j, i);
        assert(consumes(edges, order, n - 1 - j, p));
    }
    assert forall|i: int| 0 <= i < order.len() implies (#[trigger] order[i]) < edges.len() && reaches(
        edges,
        out as int,
        order[i] as int,
    ) by {
        assert(order[i] == post[n - 1 - i]);
    }
}

/// A walk from a node lists no node created after it.
pub proof fn lemma_visit_skips(edges: Seq<Seq<usize>>, id: usize, post: Seq<usize>, other: usize)
    requires
        inputs_precede(edges),
        id < edges.len(),
        id < other,
        !post.contains(other),
    ensures
        !visit(edges, id, post).contains(other),
    decreases id, edges[id as int].len() + 1,
{
    if !post.contains(id) {
        let walked = visit_inputs(edges, id, edges[id as int].len() as int, post);
        lemma_visit_inputs_skips(edges, id, edges[id as int].len() as int, post, other);
        lemma_push_contains(walked, id, other);
    }
}

/// Walking the inputs of a node lists neither the node nor a node created
/// after it.
pub proof fn lemma_visit_inputs_skips(
    edges: Seq<Seq<usize>>,
    id: usize,
    k: int,
    post: Seq<usize>,
    other: usize,
)
    requires
        inputs_precede(edges),
        id < edges.len(),
        k <= edges[id as int].len(),
        id <= other,
        !post.contains(other),
    ensures
        !visit_inputs(edges, id, k, post).contains(other),
    decreases id, k,
{
    if k > 0 {
        lemma_visit_inputs_skips(edges, id, k - 1, post, other);
        let before = visit_inputs(edges, id, k - 1, post);
        let child = edges[id as int][k - 1];
        assert(child < id);
        lemma_visit_skips(edges, child, before, other);
    }
}

/// No node is listed twice.
pub open spec fn no_repeats(post: Seq<usize>) -> bool {
    forall|i: int, j: int| 0 <= i < j < post.len() ==> post[i] != post[j]
}

/// The node `v` is listed before position `j`.
pub open spec fn listed_before(post: Seq<usize>, j: int, v: usize) -> bool {
    exists|i: int| 0 <= i < j && (#[trigger] post[i]) == v
}

/// Every input of a listed node is listed before the node.
pub open spec fn inputs_before(edges: Seq<Seq<usize>>, post: Seq<usize>) -> bool {
    forall|j: int, k: int|
        0 <= j < post.len() && 0 <= k < edges[post[j] as int].len() ==> listed_before(
            post,
            j,
            #[trigger] edges[post[j] as int][k],
        )
}

/// Walking the inputs of a node keeps the list free of repeats and keeps
/// every input before the node that takes it.
pub proof fn lemma_visit_inputs_sorted(edges: Seq<Seq<usize>>, id: usize, k: int, post: Seq<usize>)
    requires
        inputs_precede(edges),
        id < edges.len(),
        0 <= k <= edges[id as int].len(),
        no_repeats(post),
        inputs_before(edges, post),
    ensures
        no_repeats(visit_inputs(edges, id, k, post)),
        inputs_before(edges, visit_inputs(edges, id, k, post)),
    decreases id, k,
{
    if k > 0 {
        let before = visit_inputs(edges, id, k - 1, post);
        let child = edges[id as int][k - 1];
        assert(child < id);
        lemma_visit_inputs_sorted(edges, id, k - 1, post);
        lemma_visit_sorted(edges, child, before);
    }
}

/// A walk keeps the list free of repeats and keeps every input before the
/// node that takes it.
pub proof fn lemma_visit_sorted(edges: Seq<Seq<usize>>, id: usize, post: Seq<usize>)
    requires
        inputs_precede(edges),
        id < edges.len(),
        no_repeats(post),
        inputs_before(edges, post),
    ensures
        no_repeats(visit(edges, id, post)),
        inputs_before(edges, visit(edges, id, post)),
    decreases id, edges[id as int].len() + 1,
{
    if !post.contains(id) {
        let n = edges[id as int].len() as int;
        let walked = visit_inputs(edges, id, n, post);
        let after = walked.push(id);
        lemma_visit_inputs_sorted(edges, id, n, post);
        lemma_visit_inputs_skips(edges, id, n, post, id);
        assert forall|i: int, j: int| 0 <= i < j < after.len() implies after[i] != after[j] by {
            if j == walked.len() {
                assert(walked.contains(walked[i]));
            }
        }
        assert(closed_under_inputs(edges, post)) by {
            assert forall|i: int, k: int|
                0 <= i < post.len() && 0 <= k < edges[post[i] as int].len() implies post.contains(
                #[trigger] edges[post[i] as int][k],
            ) by {
                let c = edges[post[i] as int][k];
                assert(listed_before(post, i, c));
            }
        }
        lemma_visit_inputs_closed(edges, id, n, post);
        assert forall|j: int, k: int|
            0 <= j < after.len() && 0 <= k < edges[after[j] as int].len() implies listed_before(
            after,
            j,
            #[trigger] edges[after[j] as int][k],
        ) by {
            let c = edges[after[j] as int][k];
            if j < walked.len() {
                assert(listed_before(walked, j, edges[walked[j] as int][k]));
                let i = choose|i: int| 0 <= i < j && (#[trigger] walked[i]) == c;
                assert(after[i] == c);
            } else {
                assert(walked.contains(edges[id as int][k]));
                let i = choose|i: int| 0 <= i < walked.len() && walked[i] == c;
                assert(after[i] == c);
            }
        }
    }
}

/// The order of the backward pass holds no node twice, and holds every node
/// after every node that takes it as an input: where the node at `q` takes
/// the node at `p` as an input, `q` comes before `p`.
pub proof fn lemma_backward_order_sorted(edges: Seq<Seq<usize>>, out: usize)
    requires
        inputs_precede(edges),
        out < edges.len(),
    ensures
        no_repeats(backward_order(edges, out)),
        forall|p: int, q: int|
            0 <= p < backward_order(edges, out).len() && 0 <= q < backward_order(edges, out).len()
                && #[trigger] consumes(edges, backward_order(edges, out), q, p) ==> q < p,
{
    let empty = Seq::<usize>::empty();
    let post = visit(edges, out, empty);
    let order = post.reverse();
    let n = post.len() as int;
    lemma_visit_sorted(edges, out, empty);
    assert forall|i: int, j: int| 0 <= i < j < order.len() implies order[i] != order[j] by {
        assert(order[i] == post[n - 1 - i] && order[j] == post[n - 1 - j]);
    }
    assert forall|p: int, q: int|
        0 <= p < order.len() && 0 <= q < order.len() && #[trigger] consumes(
            edges,
            order,
            q,
            p,
        ) implies q < p by {
        let user = n - 1 - q;
        let c = order[p];
        assert(order[q] == post[user] && c == post[n - 1 - p]);
        let k = choose|k: int| 0 <= k < edges[post[user] as int].len() && edges[post[user] as int][k] == c;
        assert(listed_before(post, user, edges[post[user] as int][k]));
        let i = choose|i: int| 0 <= i < user && (#[trigger] post[i]) == c;
        if i != n - 1 - p {
            if i < n - 1 - p {
                assert(post[i] != post[n - 1 - p]);
            } else {
                assert(post[n - 1 - p] != post[i]);
            }
        }
    }
}

} // verus!
