//! The graph compiler: checks that every edge names existing nodes and
//! orders the nodes topologically, ready nodes first-in first-out in
//! document order.
use vstd::prelude::*;
use vstd::string::*;
use vstd::set_lib::{lemma_int_range, lemma_len_subset, lemma_subset_equality, set_int_range};
use crate::document::{GraphDoc, node_id, ids_unique};
use crate::text::{decimal, push_decimal};

verus! {

/// One valid execution order of a document's nodes, by id.
#[derive(Debug, Clone, PartialEq, Eq)]
pub struct CompilePlan {
    pub order: Vec<String>,
}

/// Why a document could not be compiled.
#[derive(Debug, Clone, PartialEq, Eq)]
pub enum CompileError {
    /// Edge `edge_index` names `node_id`, which no node has.
    MissingNode { edge_index: usize, node_id: String },
    /// The edges form at least one cycle.
    CycleDetected,
}

/// The message that describes a compile error.
pub open spec fn compile_error_message(e: CompileError) -> Seq<char> {
    match e {
        CompileError::MissingNode { edge_index, node_id } =>
            "edge #"@ + decimal(edge_index as nat) + " references unknown node '"@ + node_id@ + "'"@,
        CompileError::CycleDetected => "cycle detected in graph"@,
    }
}

impl CompileError {
    /// Describes the error.
    pub fn to_string(&self) -> (r: String)
        ensures
            r@ == compile_error_message(*self),
    {
        match self {
            CompileError::MissingNode { edge_index, node_id } => {
                let mut m = String::from_str("edge #");
                push_decimal(&mut m, *edge_index);
                m.append(" references unknown node '");
                m.append(node_id.as_str());
                m.append("'");
                m
            },
            CompileError::CycleDetected => String::from_str("cycle detected in graph"),
        }
    }
}

// ----- the document seen as a graph -----

/// Some node of `doc` has the id `id`.
pub open spec fn has_node(doc: GraphDoc, id: Seq<char>) -> bool {
    exists|i: int| 0 <= i < doc.nodes@.len() && node_id(doc, i) == id
}

/// Both endpoints of edge `k` name existing nodes.
pub open spec fn edge_resolves(doc: GraphDoc, k: int) -> bool {
    has_node(doc, doc.edges@[k].from.node@) && has_node(doc, doc.edges@[k].to.node@)
}

/// Every edge names existing nodes.
pub open spec fn edges_resolve(doc: GraphDoc) -> bool {
    forall|k: int| 0 <= k < doc.edges@.len() ==> edge_resolves(doc, k)
}

/// The id that edge `k` names without a node: its source when that is
/// missing, else its target.
pub open spec fn missing_endpoint(doc: GraphDoc, k: int) -> Seq<char> {
    if !has_node(doc, doc.edges@[k].from.node@) {
        doc.edges@[k].from.node@
    } else {
        doc.edges@[k].to.node@
    }
}

/// `order` lists every node id exactly once, and for every edge the
/// producer comes before the consumer.
pub open spec fn is_topological_order(doc: GraphDoc, order: Seq<Seq<char>>) -> bool {
    &&& order.len() == doc.nodes@.len()
    &&& order.no_duplicates()
    &&& forall|i: int| 0 <= i < doc.nodes@.len() ==> order.contains(#[trigger] node_id(doc, i))
    &&& forall|k: int|
        0 <= k < doc.edges@.len() ==> precedes(order, (#[trigger] doc.edges@[k]).from.node@, doc.edges@[k].to.node@)
}

/// `x` occurs in `order` before `y`.
pub open spec fn precedes(order: Seq<Seq<char>>, x: Seq<char>, y: Seq<char>) -> bool {
    exists|a: int, b: int| 0 <= a < b < order.len() && order[a] == x && order[b] == y
}

/// The document's edges form no cycle: some topological order exists.
pub open spec fn is_acyclic(doc: GraphDoc) -> bool {
    exists|order: Seq<Seq<char>>| is_topological_order(doc, order)
}

/// The position of the node with id `id`.
pub open spec fn index_of(doc: GraphDoc, id: Seq<char>) -> int {
    choose|i: int| 0 <= i < doc.nodes@.len() && node_id(doc, i) == id
}

/// The source node of each edge, by position.
pub open spec fn edge_sources(doc: GraphDoc) -> Seq<usize> {
    Seq::new(doc.edges@.len(), |k: int| index_of(doc, doc.edges@[k].from.node@) as usize)
}

/// The target node of each edge, by position.
pub open spec fn edge_targets(doc: GraphDoc) -> Seq<usize> {
    Seq::new(doc.edges@.len(), |k: int| index_of(doc, doc.edges@[k].to.node@) as usize)
}

// ----- Kahn's algorithm over node positions -----

/// Number of edges among the first `k` that end at `v`.
pub open spec fn in_count(to: Seq<usize>, v: usize, k: int) -> nat
    decreases k,
{
    if k <= 0 {
        0
    } else {
        in_count(to, v, k - 1) + if to[k - 1] == v { 1nat } else { 0nat }
    }
}

/// The in-degree of every node.
pub open spec fn in_degrees(to: Seq<usize>, n: nat) -> Seq<usize> {
    Seq::new(n, |v: int| in_count(to, v as usize, to.len() as int) as usize)
}

/// The nodes among the first `k` whose in-degree is zero, in node order.
pub open spec fn ready_nodes(indeg: Seq<usize>, k: int) -> Seq<usize>
    decreases k,
{
    if k <= 0 {
        Seq::empty()
    } else if indeg[k - 1] == 0 {
        ready_nodes(indeg, k - 1).push((k - 1) as usize)
    } else {
        ready_nodes(indeg, k - 1)
    }
}

/// Follows the first `k` edges out of `u`: each lowers its target's
/// in-degree, and a target that reaches zero joins the end of the queue.
pub open spec fn relax(
    fr: Seq<usize>,
    to: Seq<usize>,
    u: usize,
    k: int,
    queue: Seq<usize>,
    indeg: Seq<usize>,
) -> (Seq<usize>, Seq<usize>)
    decreases k,
{
    if k <= 0 {
        (queue, indeg)
    } else {
        let (q, d) = relax(fr, to, u, k - 1, queue, indeg);
        let t = to[k - 1];
        if fr[k - 1] == u && d[t as int] > 0 {
            let d2 = d.update(t as int, (d[t as int] - 1) as usize);
            if d2[t as int] == 0 {
                (q.push(t), d2)
            } else {
                (q, d2)
            }
        } else {
            (q, d)
        }
    }
}

/// Runs the algorithm for at most `fuel` steps: each step takes the node at
/// `head` and follows its edges. The result is the whole queue, which is
/// the order in which nodes were taken.
pub open spec fn run(
    fr: Seq<usize>,
    to: Seq<usize>,
    queue: Seq<usize>,
    head: int,
    indeg: Seq<usize>,
    fuel: nat,
) -> Seq<usize>
    decreases fuel,
{
    if fuel == 0 || head < 0 || head >= queue.len() {
        queue
    } else {
        let (q, d) = relax(fr, to, queue[head], fr.len() as int, queue, indeg);
        run(fr, to, q, head + 1, d, (fuel - 1) as nat)
    }
}

/// The order, by node position, in which the compiler takes a document's
/// nodes. It covers every node exactly when the graph has no cycle.
pub open spec fn kahn_order(doc: GraphDoc) -> Seq<usize> {
    let n = doc.nodes@.len();
    let fr = edge_sources(doc);
    let to = edge_targets(doc);
    let indeg = in_degrees(to, n);
    run(fr, to, ready_nodes(indeg, n as int), 0, indeg, n)
}

/// The ids of the nodes at the given positions.
pub open spec fn ids_at(doc: GraphDoc, order: Seq<usize>) -> Seq<Seq<char>> {
    order.map_values(|i: usize| node_id(doc, i as int))
}

/// The texts of a list of strings.
pub open spec fn texts(v: Seq<String>) -> Seq<Seq<char>> {
    v.map_values(|s: String| s@)
}

// ----- proof helpers -----

/// Number of edges among the first `k` that end at `v` and start at a node
/// not yet done.
pub open spec fn pending(fr: Seq<usize>, to: Seq<usize>, done: Seq<bool>, v: usize, k: int) -> nat
    decreases k,
{
    if k <= 0 {
        0
    } else {
        pending(fr, to, done, v, k - 1) + if to[k - 1] == v && !done[fr[k - 1] as int] {
            1nat
        } else {
            0nat
        }
    }
}

/// Number of edges among the first `k` that go from `u` to `v`.
pub open spec fn count_between(fr: Seq<usize>, to: Seq<usize>, u: usize, v: usize, k: int) -> nat
    decreases k,
{
    if k <= 0 {
        0
    } else {
        count_between(fr, to, u, v, k - 1) + if fr[k - 1] == u && to[k - 1] == v {
            1nat
        } else {
            0nat
        }
    }
}

proof fn lemma_pending_none_done(fr: Seq<usize>, to: Seq<usize>, done: Seq<bool>, v: usize, k: int)
    requires
        0 <= k <= fr.len(),
        fr.len() == to.len(),
        forall|i: int| 0 <= i < fr.len() ==> (fr[i] as int) < done.len(),
        forall|i: int| 0 <= i < done.len() ==> !done[i],
    ensures
        pending(fr, to, done, v, k) == in_count(to, v, k),
    decreases k,
{
    if k > 0 {
        lemma_pending_none_done(fr, to, done, v, k - 1);
    }
}

proof fn lemma_pending_mark_done(
    fr: Seq<usize>,
    to: Seq<usize>,
    done: Seq<bool>,
    u: usize,
    v: usize,
    k: int,
)
    requires
        0 <= k <= fr.len(),
        fr.len() == to.len(),
        forall|i: int| 0 <= i < fr.len() ==> (fr[i] as int) < done.len(),
        (u as int) < done.len(),
        !done[u as int],
    ensures
        pending(fr, to, done, v, k) == pending(fr, to, done.update(u as int, true), v, k)
            + count_between(fr, to, u, v, k),
    decreases k,
{
    if k > 0 {
        lemma_pending_mark_done(fr, to, done, u, v, k - 1);
    }
}

proof fn lemma_count_between_mono(fr: Seq<usize>, to: Seq<usize>, u: usize, v: usize, j: int, k: int)
    requires
        0 <= j <= k,
    ensures
        count_between(fr, to, u, v, j) <= count_between(fr, to, u, v, k),
    decreases k - j,
{
    if j < k {
        lemma_count_between_mono(fr, to, u, v, j, k - 1);
    }
}

/// With nothing pending at `v`, every edge into `v` starts at a done node.
proof fn lemma_pending_zero(fr: Seq<usize>, to: Seq<usize>, done: Seq<bool>, v: usize, k: int, e: int)
    requires
        0 <= e < k,
        pending(fr, to, done, v, k) == 0,
        to[e] == v,
    ensures
        done[fr[e] as int],
    decreases k,
{
    if e < k - 1 {
        lemma_pending_zero(fr, to, done, v, k - 1, e);
    }
}

/// With something pending at `v`, some edge into `v` starts at a node not done.
proof fn lemma_pending_witness(fr: Seq<usize>, to: Seq<usize>, done: Seq<bool>, v: usize, k: int) -> (e: int)
    requires
        pending(fr, to, done, v, k) > 0,
    ensures
        0 <= e < k,
        to[e] == v,
        !done[fr[e] as int],
    decreases k,
{
    if k > 0 && to[k - 1] == v && !done[fr[k - 1] as int] {
        k - 1
    } else {
        lemma_pending_witness(fr, to, done, v, k - 1)
    }
}

/// A duplicate-free sequence of positions below `n` has at most `n`
/// entries, and with exactly `n` it holds every position.
proof fn lemma_distinct_positions(s: Seq<usize>, n: int)
    requires
        0 <= n <= usize::MAX,
        s.no_duplicates(),
        forall|i: int| 0 <= i < s.len() ==> (s[i] as int) < n,
    ensures
        s.len() <= n,
        s.len() == n ==> forall|v: usize| (v as int) < n ==> #[trigger] s.contains(v),
        s.len() < n ==> exists|v: usize| (v as int) < n && !#[trigger] s.contains(v),
{
    let t = s.map_values(|x: usize| x as int);
    assert(t.no_duplicates()) by {
        assert forall|i: int, j: int| 0 <= i < t.len() && 0 <= j < t.len() && i != j implies t[i] != t[j] by {
            assert(s[i] != s[j]);
        }
    }
    t.unique_seq_to_set();
    lemma_int_range(0, n);
    assert(t.to_set().subset_of(set_int_range(0, n))) by {
        assert forall|x: int| t.to_set().contains(x) implies set_int_range(0, n).contains(x) by {
            let i = choose|i: int| 0 <= i < t.len() && t[i] == x;
            assert(t[i] == s[i] as int);
        }
    }
    lemma_len_subset(t.to_set(), set_int_range(0, n));
    if s.len() < n {
        if forall|v: usize| (v as int) < n ==> #[trigger] s.contains(v) {
            assert(set_int_range(0, n).subset_of(t.to_set())) by {
                assert forall|x: int| set_int_range(0, n).contains(x) implies t.to_set().contains(x) by {
                    assert(s.contains(x as usize));
                    assert(0 <= x < n);
                    let i = choose|i: int| 0 <= i < s.len() && s[i] == x as usize;
                    assert(t[i] == s[i] as int);
                    assert(t[i] == x);
                }
            }
            lemma_len_subset(set_int_range(0, n), t.to_set());
        }
    }
    if s.len() == n {
        lemma_subset_equality(t.to_set(), set_int_range(0, n));
        assert forall|v: usize| (v as int) < n implies #[trigger] s.contains(v) by {
            assert(set_int_range(0, n).contains(v as int));
            assert(t.to_set().contains(v as int));
            let i = choose|i: int| 0 <= i < t.len() && t[i] == v as int;
            assert(s[i] == v);
        }
    }
}

/// The smallest `m` that meets `p`, given one `q` that does.
proof fn lemma_least(p: spec_fn(int) -> bool, q: int) -> (m: int)
    requires
        0 <= q,
        p(q),
    ensures
        0 <= m <= q,
        p(m),
        forall|j: int| 0 <= j < m ==> !#[trigger] p(j),
    decreases q,
{
    if exists|j: int| 0 <= j < q && #[trigger] p(j) {
        let j = choose|j: int| 0 <= j < q && #[trigger] p(j);
        lemma_least(p, j)
    } else {
        q
    }
}

proof fn lemma_ready_nodes(indeg: Seq<usize>, k: int)
    requires
        0 <= k <= indeg.len(),
        indeg.len() <= usize::MAX,
    ensures
        ready_nodes(indeg, k).no_duplicates(),
        forall|p: int| 0 <= p < ready_nodes(indeg, k).len() ==> (ready_nodes(indeg, k)[p] as int) < k,
        forall|v: usize| #[trigger] ready_nodes(indeg, k).contains(v) <==> ((v as int) < k && indeg[v as int] == 0),
    decreases k,
{
    if k > 0 {
        lemma_ready_nodes(indeg, k - 1);
        let r = ready_nodes(indeg, k - 1);
        let last = (k - 1) as usize;
        if r.contains(last) {
            let p = choose|p: int| 0 <= p < r.len() && r[p] == last;
            assert((r[p] as int) < k - 1);
        }
        if indeg[k - 1] == 0 {
            let rp = r.push(last);
            assert(rp == ready_nodes(indeg, k));
            assert forall|v: usize| #[trigger] rp.contains(v) <==> ((v as int) < k && indeg[v as int] == 0) by {
                if rp.contains(v) {
                    let p = choose|p: int| 0 <= p < rp.len() && rp[p] == v;
                    if p < r.len() {
                        assert(r[p] == v);
                        assert(r.contains(v));
                    }
                }
                if (v as int) < k - 1 && indeg[v as int] == 0 {
                    assert(r.contains(v));
                    let p = choose|p: int| 0 <= p < r.len() && r[p] == v;
                    assert(rp[p] == v);
                }
                if v == last {
                    assert(rp[r.len() as int] == v);
                }
            }
            assert forall|i: int, j: int| 0 <= i < rp.len() && 0 <= j < rp.len() && i != j implies rp[i] != rp[j] by {
                if i < r.len() && j < r.len() {
                } else if i < r.len() {
                    assert((r[i] as int) < k - 1);
                } else {
                    assert((r[j] as int) < k - 1);
                }
            }
        } else {
            assert(r == ready_nodes(indeg, k));
        }
    }
}

proof fn lemma_in_count_le(to: Seq<usize>, v: usize, k: int)
    requires
        0 <= k,
    ensures
        in_count(to, v, k) <= k,
    decreases k,
{
    if k > 0 {
        lemma_in_count_le(to, v, k - 1);
    }
}

proof fn lemma_in_count_positive(to: Seq<usize>, v: usize, k: int, e: int)
    requires
        0 <= e < k,
        to[e] == v,
    ensures
        in_count(to, v, k) >= 1,
    decreases k,
{
    if e < k - 1 {
        lemma_in_count_positive(to, v, k - 1, e);
    }
}

/// Counts the edges that end at each of the `n` nodes.
fn count_in_degrees(to: &Vec<usize>, n: usize) -> (r: Vec<usize>)
    requires
        forall|k: int| 0 <= k < to@.len() ==> (to@[k] as int) < n,
    ensures
        r@ == in_degrees(to@, n as nat),
{
    let mut r: Vec<usize> = Vec::new();
    let mut v: usize = 0;
    while v < n
        invariant
            v <= n,
            r@.len() == v,
            forall|i: int| 0 <= i < v ==> r@[i] == 0,
        decreases n - v,
    {
        r.push(0);
        v = v + 1;
    }
    let mut k: usize = 0;
    while k < to.len()
        invariant
            k <= to@.len(),
            r@.len() == n,
            forall|j: int| 0 <= j < to@.len() ==> (to@[j] as int) < n,
            forall|i: int| 0 <= i < n ==> r@[i] == in_count(to@, i as usize, k as int),
            forall|i: int| 0 <= i < n ==> r@[i] <= k,
        decreases to@.len() - k,
    {
        let t = to[k];
        r.set(t, r[t] + 1);
        k = k + 1;
    }
    assert(r@ =~= in_degrees(to@, n as nat));
    r
}

/// The nodes whose in-degree is zero, in node order.
fn ready_queue(indeg: &Vec<usize>) -> (r: Vec<usize>)
    ensures
        r@ == ready_nodes(indeg@, indeg@.len() as int),
{
    let mut r: Vec<usize> = Vec::new();
    let mut v: usize = 0;
    while v < indeg.len()
        invariant
            v <= indeg@.len(),
            r@ == ready_nodes(indeg@, v as int),
        decreases indeg@.len() - v,
    {
        if indeg[v] == 0 {
            r.push(v);
        }
        v = v + 1;
    }
    r
}

/// Orders `n` nodes along the edges `fr[k] -> to[k]`: starts from the nodes
/// with no incoming edge in node order, takes queued nodes first-in
/// first-out, and queues a node once all its incoming edges are followed.
/// Returns every node taken, in order; nodes on or behind a cycle are left
/// out.
fn kahn_positions(n: usize, fr: &Vec<usize>, to: &Vec<usize>) -> (r: Vec<usize>)
    requires
        fr@.len() == to@.len(),
        forall|k: int| 0 <= k < fr@.len() ==> (fr@[k] as int) < n && (to@[k] as int) < n,
    ensures
        r@ == run(fr@, to@, ready_nodes(in_degrees(to@, n as nat), n as int), 0, in_degrees(to@, n as nat), n as nat),
        r@.len() <= n,
        r@.no_duplicates(),
        forall|p: int| 0 <= p < r@.len() ==> (r@[p] as int) < n,
        forall|k: int, q: int|
            0 <= k < fr@.len() && 0 <= q < r@.len() && r@[q] == to@[k] ==> exists|p: int|
                0 <= p < q && #[trigger] r@[p] == fr@[k],
        forall|v: usize|
            (v as int) < n && !#[trigger] r@.contains(v) ==> exists|k: int|
                0 <= k < fr@.len() && to@[k] == v && !r@.contains(#[trigger] fr@[k]),
{
    let edge_count = to.len();
    let ghost e = fr@.len() as int;
    let mut indeg = count_in_degrees(to, n);
    let ghost in0 = indeg@;
    let mut order = ready_queue(&indeg);
    let ghost q_init = order@;
    let mut done: Vec<bool> = Vec::new();
    let mut v: usize = 0;
    while v < n
        invariant
            v <= n,
            done@.len() == v,
            forall|i: int| 0 <= i < v ==> !done@[i],
        decreases n - v,
    {
        done.push(false);
        v = v + 1;
    }
    proof {
        lemma_ready_nodes(in0, n as int);
        lemma_distinct_positions(order@, n as int);
        assert forall|w: usize| (w as int) < n implies #[trigger] indeg@[w as int] == in_count(to@, w, e) by {
            lemma_in_count_le(to@, w, e);
            assert(in_count(to@, w, e) <= edge_count);
            assert(in0[w as int] == in_count(to@, w, e) as usize);
        }
        assert forall|w: usize| (w as int) < n implies #[trigger] indeg@[w as int] == pending(fr@, to@, done@, w, e) by {
            lemma_pending_none_done(fr@, to@, done@, w, e);
        }
        assert forall|k: int, q: int|
            0 <= k < e && 0 <= q < order@.len() && order@[q] == to@[k] implies exists|p: int|
                0 <= p < q && #[trigger] order@[p] == fr@[k] by {
            lemma_in_count_positive(to@, to@[k], e, k);
            assert(indeg@[to@[k] as int] == in_count(to@, to@[k], e));
            assert(order@[q] == to@[k]);
            assert(order@.contains(to@[k]));
        }
    }
    let mut head: usize = 0;
    while head < order.len()
        invariant
            fr@.len() == e,
            to@.len() == e,
            forall|k: int| 0 <= k < e ==> (fr@[k] as int) < n && (to@[k] as int) < n,
            indeg@.len() == n,
            done@.len() == n,
            head <= order@.len() <= n,
            order@.no_duplicates(),
            forall|p: int| 0 <= p < order@.len() ==> (order@[p] as int) < n,
            run(fr@, to@, q_init, 0, in0, n as nat) == run(fr@, to@, order@, head as int, indeg@, (n - head) as nat),
            forall|w: usize| (w as int) < n ==> (#[trigger] done@[w as int] <==> exists|p: int| 0 <= p < head && order@[p] == w),
            forall|w: usize| (w as int) < n ==> #[trigger] indeg@[w as int] == pending(fr@, to@, done@, w, e),
            forall|w: usize| (w as int) < n ==> (indeg@[w as int] == 0 <==> #[trigger] order@.contains(w)),
            forall|k: int, q: int|
                0 <= k < e && 0 <= q < order@.len() && order@[q] == to@[k] ==> exists|p: int|
                    0 <= p < q && #[trigger] order@[p] == fr@[k],
        decreases n - head,
    {
        let u = order[head];
        proof {
            if done@[u as int] {
                let p = choose|p: int| 0 <= p < head && order@[p] == u;
                assert(order@[p] == order@[head as int]);
            }
        }
        let ghost done_old = done@;
        let ghost head_old = head as int;
        let ghost q0 = order@;
        let ghost d0 = indeg@;
        done.set(u, true);
        head = head + 1;
        proof {
            assert forall|w: usize| (w as int) < n implies
                pending(fr@, to@, done_old, w, e) == pending(fr@, to@, done@, w, e)
                    + count_between(fr@, to@, u, w, e) by {
                lemma_pending_mark_done(fr@, to@, done_old, u, w, e);
            }
            assert forall|w: usize| (w as int) < n implies (#[trigger] done@[w as int] <==> exists|p: int| 0 <= p < head && order@[p] == w) by {
                if w == u {
                    assert(order@[head_old] == w);
                } else {
                    if exists|p: int| 0 <= p < head && order@[p] == w {
                        let p = choose|p: int| 0 <= p < head && order@[p] == w;
                        assert(p != head_old);
                    }
                }
            }
        }
        let mut j: usize = 0;
        while j < fr.len()
            invariant
                fr@.len() == e,
                to@.len() == e,
                forall|k: int| 0 <= k < e ==> (fr@[k] as int) < n && (to@[k] as int) < n,
                indeg@.len() == n,
                done@.len() == n,
                j <= e,
                head == head_old + 1,
                head <= q0.len() <= order@.len() <= n,
                (u as int) < n,
                order@.no_duplicates(),
                forall|p: int| 0 <= p < order@.len() ==> (order@[p] as int) < n,
                (order@, indeg@) == relax(fr@, to@, u, j as int, q0, d0),
                run(fr@, to@, q_init, 0, in0, n as nat) == run(fr@, to@, q0, head_old, d0, (n - head_old) as nat),
                0 <= head_old < q0.len(),
                q0[head_old] == u,
                forall|w: usize| (w as int) < n ==> (#[trigger] done@[w as int] <==> exists|p: int| 0 <= p < head && order@[p] == w),
                forall|w: usize| (w as int) < n ==> #[trigger] indeg@[w as int] + count_between(fr@, to@, u, w, j as int)
                    == pending(fr@, to@, done@, w, e) + count_between(fr@, to@, u, w, e),
                forall|w: usize| (w as int) < n ==> (indeg@[w as int] == 0 <==> #[trigger] order@.contains(w)),
                forall|k: int, q: int|
                    0 <= k < e && 0 <= q < order@.len() && order@[q] == to@[k] ==> exists|p: int|
                        0 <= p < q && #[trigger] order@[p] == fr@[k],
            decreases e - j,
        {
            if fr[j] == u {
                let t = to[j];
                proof {
                    lemma_count_between_mono(fr@, to@, u, t, j + 1, e);
                }
                let ghost o1 = order@;
                indeg.set(t, indeg[t] - 1);
                if indeg[t] == 0 {
                    proof {
                        assert(!order@.contains(t));
                    }
                    order.push(t);
                    proof {
                        lemma_distinct_positions(order@, n as int);
                        assert forall|w: usize| (w as int) < n implies (#[trigger] done@[w as int] <==> exists|p: int| 0 <= p < head && order@[p] == w) by {
                            if done@[w as int] {
                                let p = choose|p: int| 0 <= p < head && o1[p] == w;
                                assert(order@[p] == w);
                            }
                            if exists|p: int| 0 <= p < head && order@[p] == w {
                                let p = choose|p: int| 0 <= p < head && order@[p] == w;
                                assert(o1[p] == w);
                            }
                        }
                        assert forall|w: usize| (w as int) < n implies (indeg@[w as int] == 0 <==> #[trigger] order@.contains(w)) by {
                            if w != t && order@.contains(w) {
                                let p = choose|p: int| 0 <= p < order@.len() && order@[p] == w;
                                assert(o1[p] == w);
                            }
                            if w != t && o1.contains(w) {
                                let p = choose|p: int| 0 <= p < o1.len() && o1[p] == w;
                                assert(order@[p] == w);
                            }
                            if w == t {
                                assert(order@[o1.len() as int] == t);
                            }
                        }
                        assert forall|k: int, q: int|
                            0 <= k < e && 0 <= q < order@.len() && order@[q] == to@[k] implies exists|p: int|
                                0 <= p < q && #[trigger] order@[p] == fr@[k] by {
                            if q < o1.len() {
                                assert(o1[q] == to@[k]);
                                let p = choose|p: int| 0 <= p < q && #[trigger] o1[p] == fr@[k];
                                assert(order@[p] == fr@[k]);
                            } else {
                                assert(pending(fr@, to@, done@, t, e) == 0);
                                lemma_pending_zero(fr@, to@, done@, t, e, k);
                                let p = choose|p: int| 0 <= p < head && order@[p] == fr@[k];
                            }
                        }
                    }
                }
            }
            j = j + 1;
        }
        proof {
            assert(order@ == relax(fr@, to@, u, e, q0, d0).0);
        }
    }
    proof {
        assert forall|w: usize| (w as int) < n && !#[trigger] order@.contains(w) implies exists|k: int|
            0 <= k < e && to@[k] == w && !order@.contains(#[trigger] fr@[k]) by {
            let k = lemma_pending_witness(fr@, to@, done@, w, e);
            if order@.contains(fr@[k]) {
                let p = choose|p: int| 0 <= p < order@.len() && order@[p] == fr@[k];
                assert(done@[fr@[k] as int]);
            }
        }
    }
    order
}

/// The edges of `doc` seen as positions: `fr[j] -> to[j]` for each edge `j`.
pub open spec fn edges_at(doc: GraphDoc, fr: Seq<usize>, to: Seq<usize>) -> bool {
    &&& fr.len() == doc.edges@.len()
    &&& to.len() == doc.edges@.len()
    &&& forall|j: int| 0 <= j < doc.edges@.len() ==> (fr[j] as int) < doc.nodes@.len() && (to[j] as int) < doc.nodes@.len()
    &&& forall|j: int| 0 <= j < doc.edges@.len() ==>
            node_id(doc, fr[j] as int) == (#[trigger] doc.edges@[j]).from.node@
                && node_id(doc, to[j] as int) == doc.edges@[j].to.node@
}

/// When some node is never taken, and every node not taken has an incoming
/// edge from another node not taken, the graph has no topological order.
proof fn lemma_blocked_is_cyclic(doc: GraphDoc, fr: Seq<usize>, to: Seq<usize>, order: Seq<usize>)
    requires
        doc.nodes@.len() <= usize::MAX,
        edges_at(doc, fr, to),
        exists|v: usize| (v as int) < doc.nodes@.len() && !#[trigger] order.contains(v),
        forall|v: usize|
            (v as int) < doc.nodes@.len() && !#[trigger] order.contains(v) ==> exists|k: int|
                0 <= k < fr.len() && to[k] == v && !order.contains(#[trigger] fr[k]),
    ensures
        !is_acyclic(doc),
{
    let n = doc.nodes@.len();
    if is_acyclic(doc) {
        let t = choose|t: Seq<Seq<char>>| is_topological_order(doc, t);
        let v = choose|v: usize| (v as int) < n && !#[trigger] order.contains(v);
        let missing = |p: int| 0 <= p < t.len() && exists|i: usize|
            (i as int) < n && #[trigger] node_id(doc, i as int) == t[p] && !order.contains(i);
        assert(t.contains(node_id(doc, v as int)));
        let p0 = choose|p: int| 0 <= p < t.len() && t[p] == node_id(doc, v as int);
        assert(missing(p0));
        let m = lemma_least(missing, p0);
        let im = choose|i: usize| (i as int) < n && #[trigger] node_id(doc, i as int) == t[m] && !order.contains(i);
        let kk = choose|kk: int| 0 <= kk < fr.len() && to[kk] == im && !order.contains(#[trigger] fr[kk]);
        let ed = doc.edges@[kk];
        assert(precedes(t, ed.from.node@, ed.to.node@));
        let (pa, pb) = choose|pa: int, pb: int| 0 <= pa < pb < t.len() && t[pa] == ed.from.node@ && t[pb] == ed.to.node@;
        assert(node_id(doc, to[kk] as int) == ed.to.node@);
        assert(t[pb] == t[m]);
        assert(pb == m);
        assert(node_id(doc, fr[kk] as int) == t[pa]);
        assert(missing(pa));
    }
}

/// An order that takes every node, each once, with each edge's source
/// before its target, gives a topological order of ids.
proof fn lemma_complete_is_topological(doc: GraphDoc, fr: Seq<usize>, to: Seq<usize>, order: Seq<usize>)
    requires
        ids_unique(doc),
        edges_at(doc, fr, to),
        order.len() == doc.nodes@.len(),
        order.no_duplicates(),
        forall|p: int| 0 <= p < order.len() ==> (order[p] as int) < doc.nodes@.len(),
        forall|k: int, q: int|
            0 <= k < fr.len() && 0 <= q < order.len() && order[q] == to[k] ==> exists|p: int|
                0 <= p < q && #[trigger] order[p] == fr[k],
        doc.nodes@.len() <= usize::MAX,
    ensures
        is_topological_order(doc, ids_at(doc, order)),
{
    let n = doc.nodes@.len();
    let x = ids_at(doc, order);
    lemma_distinct_positions(order, n as int);
    assert(x.no_duplicates()) by {
        assert forall|i: int, j: int| 0 <= i < x.len() && 0 <= j < x.len() && i != j implies x[i] != x[j] by {
            assert(order[i] != order[j]);
        }
    }
    assert forall|i: int| 0 <= i < n implies x.contains(#[trigger] node_id(doc, i)) by {
        assert(order.contains(i as usize));
        let q = choose|q: int| 0 <= q < order.len() && order[q] == i as usize;
        assert(x[q] == node_id(doc, i));
    }
    assert forall|j: int| 0 <= j < doc.edges@.len() implies
        precedes(x, (#[trigger] doc.edges@[j]).from.node@, doc.edges@[j].to.node@) by {
        assert(order.contains(to[j]));
        let b = choose|b: int| 0 <= b < order.len() && order[b] == to[j];
        let a = choose|a: int| 0 <= a < b && #[trigger] order[a] == fr[j];
        assert(x[a] == doc.edges@[j].from.node@);
        assert(x[b] == doc.edges@[j].to.node@);
    }
}

/// The position of the node whose id is `id`.
fn find_node(doc: &GraphDoc, id: &String) -> (r: Option<usize>)
    ensures
        match r {
            Some(i) => (i as int) < doc.nodes@.len() && node_id(*doc, i as int) == id@,
            None => !has_node(*doc, id@),
        },
{
    let mut i: usize = 0;
    while i < doc.nodes.len()
        invariant
            i <= doc.nodes@.len(),
            forall|j: int| 0 <= j < i ==> node_id(*doc, j) != id@,
        decreases doc.nodes@.len() - i,
    {
        if doc.nodes[i].id == *id {
            return Some(i);
        }
        i = i + 1;
    }
    None
}

proof fn lemma_index_of(doc: GraphDoc, i: int)
    requires
        ids_unique(doc),
        0 <= i < doc.nodes@.len(),
    ensures
        index_of(doc, node_id(doc, i)) == i,
{
    let j = index_of(doc, node_id(doc, i));
    assert(node_id(doc, j) == node_id(doc, i));
}

/// Resolves each edge's endpoints to node positions, failing on the first
/// edge that names a missing node.
fn resolve_edges(doc: &GraphDoc) -> (r: Result<(Vec<usize>, Vec<usize>), CompileError>)
    requires
        ids_unique(*doc),
    ensures
        match r {
            Ok((fr, to)) => {
                &&& edges_resolve(*doc)
                &&& fr@ == edge_sources(*doc)
                &&& to@ == edge_targets(*doc)
                &&& edges_at(*doc, fr@, to@)
            },
            Err(CompileError::MissingNode { edge_index, node_id }) => {
                &&& (edge_index as int) < doc.edges@.len()
                &&& forall|j: int| 0 <= j < edge_index ==> edge_resolves(*doc, j)
                &&& !edge_resolves(*doc, edge_index as int)
                &&& node_id@ == missing_endpoint(*doc, edge_index as int)
            },
            Err(CompileError::CycleDetected) => false,
        },
{
    let n = doc.nodes.len();
    let mut fr: Vec<usize> = Vec::new();
    let mut to: Vec<usize> = Vec::new();
    let mut k: usize = 0;
    while k < doc.edges.len()
        invariant
            n == doc.nodes@.len(),
            ids_unique(*doc),
            k <= doc.edges@.len(),
            fr@.len() == k,
            to@.len() == k,
            forall|j: int| 0 <= j < k ==> edge_resolves(*doc, j),
            forall|j: int| 0 <= j < k ==> fr@[j] == #[trigger] edge_sources(*doc)[j] && (fr@[j] as int) < n,
            forall|j: int| 0 <= j < k ==> to@[j] == #[trigger] edge_targets(*doc)[j] && (to@[j] as int) < n,
            forall|j: int| 0 <= j < k ==>
                node_id(*doc, fr@[j] as int) == (#[trigger] doc.edges@[j]).from.node@
                    && node_id(*doc, to@[j] as int) == doc.edges@[j].to.node@,
        decreases doc.edges@.len() - k,
    {
        let edge = &doc.edges[k];
        let a = match find_node(doc, &edge.from.node) {
            Some(a) => a,
            None => {
                return Err(CompileError::MissingNode { edge_index: k, node_id: edge.from.node.clone() });
            },
        };
        let b = match find_node(doc, &edge.to.node) {
            Some(b) => b,
            None => {
                return Err(CompileError::MissingNode { edge_index: k, node_id: edge.to.node.clone() });
            },
        };
        proof {
            lemma_index_of(*doc, a as int);
            lemma_index_of(*doc, b as int);
            assert(edge_sources(*doc)[k as int] == a);
            assert(edge_targets(*doc)[k as int] == b);
        }
        fr.push(a);
        to.push(b);
        k = k + 1;
    }
    assert(fr@ =~= edge_sources(*doc));
    assert(to@ =~= edge_targets(*doc));
    Ok((fr, to))
}

/// The ids of the nodes at the given positions.
fn ids_in_order(doc: &GraphDoc, order: &Vec<usize>) -> (out: Vec<String>)
    requires
        forall|q: int| 0 <= q < order@.len() ==> (order@[q] as int) < doc.nodes@.len(),
    ensures
        texts(out@) == ids_at(*doc, order@),
{
    let mut out: Vec<String> = Vec::new();
    let mut p: usize = 0;
    while p < order.len()
        invariant
            p <= order@.len(),
            forall|q: int| 0 <= q < order@.len() ==> (order@[q] as int) < doc.nodes@.len(),
            out@.len() == p,
            forall|q: int| 0 <= q < p ==> (#[trigger] out@[q])@ == node_id(*doc, order@[q] as int),
        decreases order@.len() - p,
    {
        out.push(doc.nodes[order[p]].id.clone());
        p = p + 1;
    }
    assert(texts(out@) =~= ids_at(*doc, order@));
    out
}

/// What a compile failure `e` says of `doc`: `MissingNode` names the first
/// edge with an endpoint that is no node, and that endpoint (the source when
/// both are missing); `CycleDetected` means every edge resolves but no
/// topological order exists.
pub open spec fn compile_failure(doc: GraphDoc, e: CompileError) -> bool {
    match e {
        CompileError::MissingNode { edge_index, node_id } => {
            &&& (edge_index as int) < doc.edges@.len()
            &&& forall|j: int| 0 <= j < edge_index ==> edge_resolves(doc, j)
            &&& !edge_resolves(doc, edge_index as int)
            &&& node_id@ == missing_endpoint(doc, edge_index as int)
        },
        CompileError::CycleDetected => {
            &&& edges_resolve(doc)
            &&& kahn_order(doc).len() < doc.nodes@.len()
            &&& !is_acyclic(doc)
        },
    }
}

/// The compiler's work on node positions: the positions in execution
/// order, or the failure.
pub(crate) fn compile_positions(doc: &GraphDoc) -> (r: Result<Vec<usize>, CompileError>)
    requires
        ids_unique(*doc),
    ensures
        match r {
            Ok(order) => {
                &&& edges_resolve(*doc)
                &&& order@ == kahn_order(*doc)
                &&& order@.len() == doc.nodes@.len()
                &&& forall|p: int| 0 <= p < order@.len() ==> (order@[p] as int) < doc.nodes@.len()
                &&& is_topological_order(*doc, ids_at(*doc, order@))
            },
            Err(e) => compile_failure(*doc, e),
        },
{
    let n = doc.nodes.len();
    let (fr, to) = match resolve_edges(doc) {
        Ok(resolved) => resolved,
        Err(e) => {
            return Err(e);
        },
    };
    let order = kahn_positions(n, &fr, &to);
    proof {
        assert(order@ == kahn_order(*doc));
        lemma_distinct_positions(order@, n as int);
    }
    if order.len() < n {
        proof {
            lemma_blocked_is_cyclic(*doc, fr@, to@, order@);
        }
        return Err(CompileError::CycleDetected);
    }
    proof {
        lemma_complete_is_topological(*doc, fr@, to@, order@);
    }
    Ok(order)
}

/// Compiles a document into an execution order.
///
/// Edges are checked first, in order: the first edge whose source or
/// target names no node fails with `MissingNode`, the source being checked
/// before the target. Then nodes are ordered by Kahn's algorithm: the nodes
/// without incoming edges are queued in document order, queued nodes are
/// taken first-in first-out, and taking a node follows its outgoing edges in
/// declaration order, queueing each target whose last incoming edge that
/// was. When some node is never taken the graph has a cycle and the result
/// is `CycleDetected`; otherwise the order taken is the plan.
///
/// Every document whose edges resolve and form no cycle compiles, to an
/// order holding each node id once with each edge's source before its
/// target; a document with a cycle gives `CycleDetected` and no order.
pub fn compile_graph(doc: &GraphDoc) -> (r: Result<CompilePlan, CompileError>)
    requires
        ids_unique(*doc),
    ensures
        match r {
            Ok(plan) => {
                &&& edges_resolve(*doc)
                &&& kahn_order(*doc).len() == doc.nodes@.len()
                &&& texts(plan.order@) == ids_at(*doc, kahn_order(*doc))
                &&& is_topological_order(*doc, texts(plan.order@))
            },
            Err(e) => compile_failure(*doc, e),
        },
        edges_resolve(*doc) && is_acyclic(*doc) ==> r is Ok,
        edges_resolve(*doc) && !is_acyclic(*doc) ==> r == Err::<CompilePlan, CompileError>(CompileError::CycleDetected),
{
    match compile_positions(doc) {
        Ok(order) => {
            let out = ids_in_order(doc, &order);
            Ok(CompilePlan { order: out })
        },
        Err(e) => Err(e),
    }
}

} // verus!
