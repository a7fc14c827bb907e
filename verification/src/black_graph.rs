//! The order in which the backward pass visits the computation graph: a
//! depth-first walk from the output through the inputs of each node, whose
//! finishing order, reversed, lists every node before the nodes it was
//! computed from.
use vstd::prelude::*;

verus! {

/// The inputs of each node, as plain sequences of node numbers.
pub open spec fn black_graph_of(black_inputs: Seq<Vec<usize>>) -> Seq<Seq<usize>> {
    Seq::new(black_inputs.len(), |i: int| black_inputs[i]@)
}

/// Every input names a node of the graph.
pub open spec fn black_graph_wf(g: Seq<Seq<usize>>) -> bool {
    forall|i: int, j: int| 0 <= i < g.len() && 0 <= j < g[i].len() ==> #[trigger] g[i][j] < g.len()
}

/// `b` is one of the inputs of `a`.
pub open spec fn black_is_edge(g: Seq<Seq<usize>>, a: usize, b: usize) -> bool {
    a < g.len() && g[a as int].contains(b)
}

/// The `i`-th step of `p` follows an edge.
pub open spec fn black_path_step(g: Seq<Seq<usize>>, p: Seq<usize>, i: int) -> bool {
    black_is_edge(g, p[i], p[i + 1])
}

/// A non-empty walk along edges, from a node to one of its inputs and on.
pub open spec fn black_is_path(g: Seq<Seq<usize>>, p: Seq<usize>) -> bool {
    &&& p.len() >= 1
    &&& forall|i: int| 0 <= i < p.len() ==> #[trigger] p[i] < g.len()
    &&& forall|i: int| 0 <= i < p.len() - 1 ==> #[trigger] black_path_step(g, p, i)
}

/// `b` is reached from `a` along zero or more edges.
pub open spec fn black_reaches(g: Seq<Seq<usize>>, a: usize, b: usize) -> bool {
    exists|p: Seq<usize>| #[trigger] black_is_path(g, p) && p[0] == a && p[p.len() - 1] == b
}

/// No walk of one edge or more comes back to where it started.
pub open spec fn black_acyclic(g: Seq<Seq<usize>>) -> bool {
    forall|p: Seq<usize>| #[trigger] black_is_path(g, p) && p.len() >= 2 ==> p[0] != p[p.len() - 1]
}

/// The number of nodes not yet visited.
pub open spec fn black_unvisited(vis: Seq<bool>) -> nat
    decreases vis.len(),
{
    if vis.len() == 0 {
        0
    } else {
        black_unvisited(vis.drop_last()) + (if vis.last() { 0nat } else { 1nat })
    }
}

/// The depth-first walk from `node`: a node not yet visited is marked, its
/// inputs are walked in order, and then it is appended to the finishing
/// order `post`. The `fuel` bounds the depth of the walk.
pub open spec fn black_dfs_visit(
    g: Seq<Seq<usize>>,
    vis: Seq<bool>,
    post: Seq<usize>,
    node: usize,
    fuel: nat,
) -> (Seq<bool>, Seq<usize>)
    decreases fuel, 0nat, 0int,
{
    if node >= vis.len() || vis[node as int] || fuel == 0 {
        (vis, post)
    } else {
        let r = black_dfs_kids(g, vis.update(node as int, true), post, node, 0, (fuel - 1) as nat);
        (r.0, r.1.push(node))
    }
}

/// The walks from the inputs of `node`, from the `from`-th on.
pub open spec fn black_dfs_kids(
    g: Seq<Seq<usize>>,
    vis: Seq<bool>,
    post: Seq<usize>,
    node: usize,
    from: int,
    fuel: nat,
) -> (Seq<bool>, Seq<usize>)
    decreases fuel, 1nat, g[node as int].len() - from,
{
    if from < 0 || from >= g[node as int].len() {
        (vis, post)
    } else {
        let r = black_dfs_visit(g, vis, post, g[node as int][from], fuel);
        black_dfs_kids(g, r.0, r.1, node, from + 1, fuel)
    }
}

/// `s` read back to front.
pub open spec fn black_reversed(s: Seq<usize>) -> Seq<usize> {
    Seq::new(s.len(), |i: int| s[s.len() - 1 - i])
}

/// The order of the backward pass from `root`: the finishing order of the
/// depth-first walk, reversed.
pub open spec fn black_dfs_order(g: Seq<Seq<usize>>, root: usize) -> Seq<usize> {
    black_reversed(
        black_dfs_visit(g, Seq::new(g.len(), |i: int| false), Seq::empty(), root, (g.len() + 1) as nat).1,
    )
}

/// `b` begins with `a`.
spec fn black_extends(a: Seq<usize>, b: Seq<usize>) -> bool {
    a.len() <= b.len() && forall|i: int| 0 <= i < a.len() ==> #[trigger] b[i] == a[i]
}

/// Everything visited stays visited.
spec fn black_grows(a: Seq<bool>, b: Seq<bool>) -> bool {
    a.len() == b.len() && forall|x: int| 0 <= x < a.len() && #[trigger] a[x] ==> b[x]
}

/// What holds between the steps of the walk from `root`, with `stack` the
/// nodes whose walk has begun and not finished, outermost first.
spec fn black_dfs_inv(
    g: Seq<Seq<usize>>,
    root: usize,
    vis: Seq<bool>,
    post: Seq<usize>,
    stack: Seq<usize>,
) -> bool {
    &&& vis.len() == g.len()
    &&& post.no_duplicates()
    &&& forall|i: int| 0 <= i < post.len() ==> #[trigger] post[i] < g.len() && vis[post[i] as int]
    &&& forall|i: int|
        0 <= i < stack.len() ==> #[trigger] stack[i] < g.len() && vis[stack[i] as int] && !post.contains(
            stack[i],
        )
    &&& forall|x: int|
        0 <= x < g.len() && #[trigger] vis[x] && !post.contains(x as usize) ==> stack.contains(x as usize)
    &&& stack.len() > 0 ==> black_is_path(g, stack) && stack[0] == root
    &&& forall|x: int| 0 <= x < g.len() && #[trigger] vis[x] ==> black_reaches(g, root, x as usize)
    &&& forall|i: int, k: usize|
        0 <= i < post.len() && #[trigger] g[post[i] as int].contains(k) ==> vis[k as int]
    &&& black_acyclic(g) ==> forall|i: int, k: usize|
        0 <= i < post.len() && #[trigger] g[post[i] as int].contains(k) ==> exists|j: int|
            0 <= j < i && #[trigger] post[j] == k
}

/// An input whose walk is over: it is visited, and finished or on the stack.
spec fn black_kid_done(g: Seq<Seq<usize>>, vis: Seq<bool>, post: Seq<usize>, stack: Seq<usize>, k: usize) -> bool {
    vis[k as int] && (post.contains(k) || stack.contains(k))
}

proof fn lemma_unvisited_bound(vis: Seq<bool>)
    ensures
        black_unvisited(vis) <= vis.len(),
    decreases vis.len(),
{
    if vis.len() > 0 {
        lemma_unvisited_bound(vis.drop_last());
    }
}

proof fn lemma_unvisited_mark(vis: Seq<bool>, i: int)
    requires
        0 <= i < vis.len(),
        !vis[i],
    ensures
        black_unvisited(vis.update(i, true)) + 1 == black_unvisited(vis),
    decreases vis.len(),
{
    let u = vis.update(i, true);
    if i == vis.len() - 1 {
        assert(u.drop_last() =~= vis.drop_last());
    } else {
        assert(u.drop_last() =~= vis.drop_last().update(i, true));
        lemma_unvisited_mark(vis.drop_last(), i);
    }
}

proof fn lemma_unvisited_mono(a: Seq<bool>, b: Seq<bool>)
    requires
        black_grows(a, b),
    ensures
        black_unvisited(b) <= black_unvisited(a),
    decreases a.len(),
{
    if a.len() > 0 {
        assert(black_grows(a.drop_last(), b.drop_last()));
        lemma_unvisited_mono(a.drop_last(), b.drop_last());
    }
}

/// A walk along the stack that returns to a node on it is a cycle.
proof fn lemma_stack_cycle(g: Seq<Seq<usize>>, stack: Seq<usize>, j: int, k: usize)
    requires
        black_is_path(g, stack),
        0 <= j < stack.len(),
        stack[j] == k,
        black_is_edge(g, stack[stack.len() - 1], k),
    ensures
        !black_acyclic(g),
{
    let p = stack.subrange(j, stack.len() as int).push(k);
    assert forall|i: int| 0 <= i < p.len() - 1 implies #[trigger] black_path_step(g, p, i) by {
        if i < p.len() - 2 {
            assert(black_path_step(g, stack, j + i));
        }
    }
    assert forall|i: int| 0 <= i < p.len() implies #[trigger] p[i] < g.len() by {
        if i < p.len() - 1 {
            assert(stack[j + i] < g.len());
        }
    }
    assert(black_is_path(g, p));
}

/// A walk that starts inside a set closed under inputs stays inside it.
proof fn lemma_path_stays(g: Seq<Seq<usize>>, p: Seq<usize>, post: Seq<usize>)
    requires
        black_is_path(g, p),
        post.contains(p[0]),
        forall|i: int, k: usize|
            0 <= i < post.len() && #[trigger] g[post[i] as int].contains(k) ==> post.contains(k),
    ensures
        post.contains(p[p.len() - 1]),
    decreases p.len(),
{
    if p.len() > 1 {
        let q = p.drop_last();
        assert forall|i: int| 0 <= i < q.len() - 1 implies #[trigger] black_path_step(g, q, i) by {
            assert(black_path_step(g, p, i));
        }
        assert(black_is_path(g, q));
        lemma_path_stays(g, q, post);
        assert(black_path_step(g, p, p.len() - 2));
        let idx = choose|idx: int| 0 <= idx < post.len() && post[idx] == p[p.len() - 2];
        assert(g[post[idx] as int].contains(p[p.len() - 1]));
    }
}

/// The walk from `node` keeps the invariant, marks `node`, and leaves it
/// finished unless its walk had already begun further up.
proof fn lemma_dfs_visit(
    g: Seq<Seq<usize>>,
    root: usize,
    vis: Seq<bool>,
    post: Seq<usize>,
    node: usize,
    fuel: nat,
    stack: Seq<usize>,
)
    requires
        black_graph_wf(g),
        black_dfs_inv(g, root, vis, post, stack),
        node < g.len(),
        fuel >= black_unvisited(vis) + 1,
        stack.len() == 0 ==> node == root,
        stack.len() > 0 ==> black_is_edge(g, stack[stack.len() - 1], node),
    ensures
        black_dfs_inv(
            g,
            root,
            black_dfs_visit(g, vis, post, node, fuel).0,
            black_dfs_visit(g, vis, post, node, fuel).1,
            stack,
        ),
        black_dfs_visit(g, vis, post, node, fuel).0[node as int],
        black_grows(vis, black_dfs_visit(g, vis, post, node, fuel).0),
        black_extends(post, black_dfs_visit(g, vis, post, node, fuel).1),
        black_dfs_visit(g, vis, post, node, fuel).1.contains(node) || stack.contains(node),
    decreases fuel, 0nat, 0int,
{
    if vis[node as int] {
        if !post.contains(node) {
            assert(stack.contains(node));
        }
    } else {
        let vis1 = vis.update(node as int, true);
        let stack1 = stack.push(node);
        lemma_unvisited_mark(vis, node as int);
        // The invariant holds once the walk from `node` has begun.
        assert forall|i: int| 0 <= i < stack1.len() - 1 implies #[trigger] black_path_step(g, stack1, i) by {
            if i < stack.len() - 1 {
                assert(black_path_step(g, stack, i));
            }
        }
        assert(black_is_path(g, stack1));
        assert(black_reaches(g, root, node)) by {
            assert(black_is_path(g, stack1));
        }
        assert forall|x: int| 0 <= x < g.len() && #[trigger] vis1[x] implies black_reaches(g, root, x as usize) by {
            if x != node as int {
                assert(vis[x]);
            }
        }
        assert forall|x: int| 0 <= x < g.len() && #[trigger] vis1[x] && !post.contains(x as usize) implies stack1.contains(x as usize) by {
            if x == node as int {
                assert(stack1[stack.len() as int] == node);
            } else {
                assert(vis[x]);
                let j = choose|j: int| 0 <= j < stack.len() && stack[j] == x as usize;
                assert(stack1[j] == x as usize);
            }
        }
        assert(!post.contains(node));
        assert forall|i: int| 0 <= i < stack1.len() implies #[trigger] stack1[i] < g.len() && vis1[stack1[i] as int] && !post.contains(stack1[i]) by {
            if i < stack.len() {
                assert(stack[i] == stack1[i]);
            }
        }
        assert(black_dfs_inv(g, root, vis1, post, stack1));
        lemma_dfs_kids(g, root, vis1, post, node, 0, (fuel - 1) as nat, stack1);
        let r = black_dfs_kids(g, vis1, post, node, 0, (fuel - 1) as nat);
        let post3 = r.1.push(node);
        assert(black_dfs_visit(g, vis, post, node, fuel) == (r.0, post3));
        // Finishing `node` restores the invariant for the outer stack.
        assert(!r.1.contains(node)) by {
            assert(stack1[stack.len() as int] == node);
        }
        assert(post3.no_duplicates());
        assert forall|i: int| 0 <= i < stack.len() implies #[trigger] stack[i] < g.len() && r.0[stack[i] as int] && !post3.contains(stack[i]) by {
            assert(stack1[i] == stack[i]);
            assert(stack[i] != node);
        }
        assert forall|x: int| 0 <= x < g.len() && #[trigger] r.0[x] && !post3.contains(x as usize) implies stack.contains(x as usize) by {
            assert(x as usize != node) by {
                assert(post3[r.1.len() as int] == node);
            }
            assert(!r.1.contains(x as usize)) by {
                if r.1.contains(x as usize) {
                    let j = choose|j: int| 0 <= j < r.1.len() && r.1[j] == x as usize;
                    assert(post3[j] == x as usize);
                }
            }
            assert(stack1.contains(x as usize));
            let j = choose|j: int| 0 <= j < stack1.len() && stack1[j] == x as usize;
            assert(stack[j] == x as usize);
        }
        assert forall|i: int, k: usize| 0 <= i < post3.len() && #[trigger] g[post3[i] as int].contains(k) implies r.0[k as int] by {
            if i == r.1.len() {
                let j = choose|j: int| 0 <= j < g[node as int].len() && g[node as int][j] == k;
                assert(r.0[g[node as int][j] as int]);
            } else {
                assert(post3[i] == r.1[i]);
            }
        }
        if black_acyclic(g) {
            assert forall|i: int, k: usize| 0 <= i < post3.len() && #[trigger] g[post3[i] as int].contains(k) implies exists|j: int| 0 <= j < i && #[trigger] post3[j] == k by {
                if i == r.1.len() {
                    let jj = choose|jj: int| 0 <= jj < g[node as int].len() && g[node as int][jj] == k;
                    assert(r.1.contains(g[node as int][jj]) || stack1.contains(g[node as int][jj]));
                    if stack1.contains(k) {
                        let j = choose|j: int| 0 <= j < stack1.len() && stack1[j] == k;
                        assert(black_is_edge(g, stack1[stack1.len() - 1], k));
                        lemma_stack_cycle(g, stack1, j, k);
                    }
                    let j = choose|j: int| 0 <= j < r.1.len() && r.1[j] == k;
                    assert(post3[j] == k);
                } else {
                    assert(post3[i] == r.1[i]);
                    let j = choose|j: int| 0 <= j < i && #[trigger] r.1[j] == k;
                    assert(post3[j] == k);
                }
            }
        }
        assert(black_dfs_inv(g, root, r.0, post3, stack));
        assert(post3[r.1.len() as int] == node);
        assert forall|x: int| 0 <= x < vis.len() && #[trigger] vis[x] implies r.0[x] by {
            assert(vis1[x]);
        }
    }
}

/// The walks from the inputs of `node`, the last node on the stack, keep
/// the invariant and leave every input visited and finished, or on the
/// stack.
proof fn lemma_dfs_kids(
    g: Seq<Seq<usize>>,
    root: usize,
    vis: Seq<bool>,
    post: Seq<usize>,
    node: usize,
    from: int,
    fuel: nat,
    stack: Seq<usize>,
)
    requires
        black_graph_wf(g),
        black_dfs_inv(g, root, vis, post, stack),
        stack.len() > 0,
        stack[stack.len() - 1] == node,
        node < g.len(),
        0 <= from <= g[node as int].len(),
        fuel >= black_unvisited(vis) + 1,
        forall|j: int| 0 <= j < from ==> black_kid_done(g, vis, post, stack, #[trigger] g[node as int][j]),
    ensures
        black_dfs_inv(
            g,
            root,
            black_dfs_kids(g, vis, post, node, from, fuel).0,
            black_dfs_kids(g, vis, post, node, from, fuel).1,
            stack,
        ),
        black_grows(vis, black_dfs_kids(g, vis, post, node, from, fuel).0),
        black_extends(post, black_dfs_kids(g, vis, post, node, from, fuel).1),
        forall|j: int|
            0 <= j < g[node as int].len() ==> black_kid_done(
                g,
                black_dfs_kids(g, vis, post, node, from, fuel).0,
                black_dfs_kids(g, vis, post, node, from, fuel).1,
                stack,
                #[trigger] g[node as int][j],
            ),
    decreases fuel, 1nat, g[node as int].len() - from,
{
    if from < g[node as int].len() {
        let kid = g[node as int][from];
        assert(black_is_edge(g, stack[stack.len() - 1], kid));
        lemma_dfs_visit(g, root, vis, post, kid, fuel, stack);
        let r = black_dfs_visit(g, vis, post, kid, fuel);
        lemma_unvisited_mono(vis, r.0);
        assert forall|j: int| 0 <= j < from + 1 implies black_kid_done(g, r.0, r.1, stack, #[trigger] g[node as int][j]) by {
            if j < from {
                let y = g[node as int][j];
                if post.contains(y) {
                    let t = choose|t: int| 0 <= t < post.len() && post[t] == y;
                    assert(r.1[t] == y);
                }
            } else {
                if !r.1.contains(kid) {
                    assert(stack.contains(kid));
                }
            }
        }
        lemma_dfs_kids(g, root, r.0, r.1, node, from + 1, fuel, stack);
    }
}

/// One depth-first walk from `node` over the marks `vis`, appending each
/// node to `post` as its walk finishes.
fn black_dfs_walk(
    black_inputs: &Vec<Vec<usize>>,
    node: usize,
    vis: &mut Vec<bool>,
    post: &mut Vec<usize>,
    Ghost(fuel): Ghost<nat>,
)
    requires
        black_graph_wf(black_graph_of(black_inputs@)),
        old(vis)@.len() == black_inputs@.len(),
        node < black_inputs@.len(),
        fuel >= black_unvisited(old(vis)@) + 1,
    ensures
        (final(vis)@, final(post)@) == black_dfs_visit(
            black_graph_of(black_inputs@),
            old(vis)@,
            old(post)@,
            node,
            fuel,
        ),
        black_grows(old(vis)@, final(vis)@),
    decreases fuel,
{
    let ghost g = black_graph_of(black_inputs@);
    if vis[node] {
        return;
    }
    let ghost vis0 = vis@;
    vis.set(node, true);
    proof {
        lemma_unvisited_mark(vis0, node as int);
    }
    let ghost vis1 = vis@;
    let ghost post1 = post@;
    let ghost f1: nat = (fuel - 1) as nat;
    let black_kids = &black_inputs[node];
    assert(black_kids@ == g[node as int]);
    let mut i: usize = 0;
    while i < black_kids.len()
        invariant
            0 <= i <= black_kids.len(),
            g == black_graph_of(black_inputs@),
            black_graph_wf(g),
            f1 < fuel,
            black_kids@ == g[node as int],
            node < black_inputs@.len(),
            vis@.len() == black_inputs@.len(),
            black_grows(vis1, vis@),
            f1 >= black_unvisited(vis@) + 1,
            black_dfs_kids(g, vis@, post@, node, i as int, f1) == black_dfs_kids(g, vis1, post1, node, 0, f1),
        decreases black_kids.len() - i,
    {
        let black_kid = black_kids[i];
        assert(g[node as int][i as int] == black_kid);
        let ghost vb = vis@;
        black_dfs_walk(black_inputs, black_kid, vis, post, Ghost(f1));
        proof {
            lemma_unvisited_mono(vb, vis@);
        }
        i = i + 1;
    }
    post.push(node);
    assert forall|x: int| 0 <= x < vis0.len() && #[trigger] vis0[x] implies vis@[x] by {
        assert(vis1[x]);
    }
}

/// The order in which the backward pass from `black_root` handles the
/// nodes, where `black_inputs[i]` lists the inputs of node `i`: the
/// depth-first finishing order, reversed. It holds each node reached from
/// the root exactly once, the root first, and in a graph without cycles
/// every node comes before all of its inputs.
pub fn black_topo_order(black_inputs: &Vec<Vec<usize>>, black_root: usize) -> (r: Vec<usize>)
    requires
        black_graph_wf(black_graph_of(black_inputs@)),
        black_root < black_inputs@.len(),
    ensures
        r@ == black_dfs_order(black_graph_of(black_inputs@), black_root),
        r@.no_duplicates(),
        r@.len() > 0,
        r@[0] == black_root,
        forall|x: usize| r@.contains(x) <==> black_reaches(black_graph_of(black_inputs@), black_root, x),
        black_acyclic(black_graph_of(black_inputs@)) ==> forall|i: int, j: int|
            0 <= i < r@.len() && 0 <= j < r@.len() && #[trigger] black_graph_of(black_inputs@)[r@[i] as int].contains(
                #[trigger] r@[j],
            ) ==> i < j,
{
    let ghost g = black_graph_of(black_inputs@);
    let black_n = black_inputs.len();
    let mut vis: Vec<bool> = Vec::new();
    while vis.len() < black_n
        invariant
            vis.len() <= black_n,
            forall|x: int| 0 <= x < vis.len() ==> !#[trigger] vis@[x],
        decreases black_n - vis.len(),
    {
        vis.push(false);
    }
    assert(vis@ =~= Seq::new(g.len(), |i: int| false));
    let mut post: Vec<usize> = Vec::new();
    let ghost fuel: nat = (g.len() + 1) as nat;
    proof {
        lemma_unvisited_bound(vis@);
        assert(black_dfs_inv(g, black_root, vis@, post@, Seq::empty()));
        lemma_dfs_visit(g, black_root, vis@, post@, black_root, fuel, Seq::empty());
    }
    let ghost vis_start = vis@;
    black_dfs_walk(black_inputs, black_root, &mut vis, &mut post, Ghost(fuel));
    let ghost p = post@;
    proof {
        let stack0 = Seq::<usize>::empty();
        assert(!stack0.contains(black_root));
        // Everything visited is finished, and the finished nodes are closed
        // under inputs.
        assert forall|i: int, k: usize| 0 <= i < p.len() && #[trigger] g[p[i] as int].contains(k) implies p.contains(k) by {
            assert(vis@[k as int]);
            let t = choose|t: int| 0 <= t < g[p[i] as int].len() && g[p[i] as int][t] == k;
            assert(k < g.len());
            if !p.contains(k) {
                assert(stack0.contains(k));
            }
        }
        assert forall|x: usize| p.contains(x) <==> black_reaches(g, black_root, x) by {
            if p.contains(x) {
                let t = choose|t: int| 0 <= t < p.len() && p[t] == x;
                assert(vis@[p[t] as int]);
            }
            if black_reaches(g, black_root, x) {
                let q = choose|q: Seq<usize>| #[trigger] black_is_path(g, q) && q[0] == black_root && q[q.len() - 1] == x;
                lemma_path_stays(g, q, p);
            }
        }
        assert(p.len() > 0 && p[p.len() - 1] == black_root);
    }
    let mut r: Vec<usize> = Vec::new();
    let mut i: usize = post.len();
    while i > 0
        invariant
            i <= post.len(),
            r@.len() == post.len() - i,
            forall|t: int| 0 <= t < r@.len() ==> #[trigger] r@[t] == post@[post.len() - 1 - t],
        decreases i,
    {
        i = i - 1;
        r.push(post[i]);
    }
    proof {
        assert(r@ =~= black_reversed(p));
        assert forall|x: usize| r@.contains(x) <==> black_reaches(g, black_root, x) by {
            if r@.contains(x) {
                let t = choose|t: int| 0 <= t < r@.len() && r@[t] == x;
                assert(p[p.len() - 1 - t] == x);
                assert(p.contains(x));
            }
            if p.contains(x) {
                let t = choose|t: int| 0 <= t < p.len() && p[t] == x;
                assert(r@[p.len() - 1 - t] == x);
            }
        }
        if black_acyclic(g) {
            assert forall|a: int, b: int|
                0 <= a < r@.len() && 0 <= b < r@.len() && #[trigger] g[r@[a] as int].contains(#[trigger] r@[b]) implies a < b by {
                let ia = p.len() - 1 - a;
                let ib = p.len() - 1 - b;
                assert(p[ia] == r@[a]);
                assert(g[p[ia] as int].contains(r@[b]));
                let j = choose|j: int| 0 <= j < ia && #[trigger] p[j] == r@[b];
                assert(p[ib] == r@[b]);
                assert(j == ib);
            }
        }
    }
    r
}

} // verus!
