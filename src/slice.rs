//! Token-bounded context slices around a vertex.
use vstd::prelude::*;
use vstd::string::*;
use crate::graph::{ArborGraph, GraphEdge, NodeId};
use crate::query::{describes, NodeInfo};
use crate::node::CodeNode;
use crate::reach::{at_distance, lemma_hop_unique, lemma_within_mono_pub, lemma_within_zero_pub, reach_result, within, WalkDir};

verus! {

broadcast use vstd::seq_lib::group_to_multiset_ensures;

/// Why a slice stopped growing.
#[derive(Clone, Copy, Debug, PartialEq, Eq, Hash, Structural)]
pub enum TruncationReason {
    /// Every vertex within the depth bound was taken.
    Complete,
    /// Some vertex did not fit the token budget.
    TokenBudget,
    /// Vertices lie beyond the depth bound.
    MaxDepth,
}

impl TruncationReason {
    pub fn to_string(&self) -> (r: String)
        ensures
            *self == TruncationReason::Complete ==> r@ == "complete"@,
            *self == TruncationReason::TokenBudget ==> r@ == "token_budget"@,
            *self == TruncationReason::MaxDepth ==> r@ == "max_depth"@,
    {
        match self {
            TruncationReason::Complete => String::from_str("complete"),
            TruncationReason::TokenBudget => String::from_str("token_budget"),
            TruncationReason::MaxDepth => String::from_str("max_depth"),
        }
    }
}

/// A vertex taken into a slice.
#[derive(Clone, Debug)]
pub struct ContextNode {
    pub node_id: NodeId,
    pub node_info: NodeInfo,
    pub token_estimate: usize,
    /// Hops from the target, over edges of any kind in either direction.
    pub depth: usize,
    pub pinned: bool,
}

/// The result of slicing.
#[derive(Clone, Debug)]
pub struct ContextSlice {
    pub target: NodeInfo,
    /// Pinned vertices first, then by increasing depth, then by decreasing centrality.
    pub nodes: Vec<ContextNode>,
    pub total_tokens: usize,
    pub max_tokens: usize,
    pub truncation_reason: TruncationReason,
    pub query_time_ms: u64,
}

/// The line count of a record: at least 1.
pub open spec fn line_span(info: NodeInfo) -> nat {
    if info.line_end >= info.line_start {
        (info.line_end - info.line_start + 1) as nat
    } else {
        1
    }
}

/// Characters of name, qualified name, file and signature, plus 40 per line.
pub open spec fn estimated_chars(info: NodeInfo) -> nat {
    info.name@.len() + info.qualified_name@.len() + info.file@.len() + (match info.signature {
        Some(s) => s@.len(),
        None => 0,
    }) + 40 * line_span(info)
}

/// The token estimate of a record: a quarter of its characters, rounded up.
pub open spec fn token_estimate(info: NodeInfo) -> nat {
    (estimated_chars(info) + 3) / 4
}

/// `a` comes strictly before `b` in a slice: pinned first, then shallower, then more central.
pub open spec fn comes_before(a: ContextNode, b: ContextNode) -> bool {
    (a.pinned && !b.pinned) || (a.pinned == b.pinned && (a.depth < b.depth || (a.depth == b.depth
        && a.node_info.centrality > b.node_info.centrality)))
}

pub open spec fn slice_ordered(s: Seq<ContextNode>) -> bool {
    forall|i: int, j: int| 0 <= i < j < s.len() ==> !comes_before(#[trigger] s[j], #[trigger] s[i])
}

/// The estimate of `info`, or `usize::MAX` if it does not fit.
pub fn estimate_tokens(info: &NodeInfo) -> (r: usize)
    ensures
        r as nat == if token_estimate(*info) <= usize::MAX { token_estimate(*info) } else { usize::MAX as nat },
{
    let sig: u128 = match &info.signature {
        Some(s) => s.as_str().unicode_len() as u128,
        None => 0,
    };
    let lines: u128 = if info.line_end >= info.line_start {
        (info.line_end - info.line_start) as u128 + 1
    } else {
        1
    };
    let chars: u128 = info.name.as_str().unicode_len() as u128 + info.qualified_name.as_str().unicode_len() as u128
        + info.file.as_str().unicode_len() as u128 + sig + 40 * lines;
    let tokens = (chars + 3) / 4;
    if tokens > usize::MAX as u128 {
        usize::MAX
    } else {
        tokens as usize
    }
}

proof fn lemma_before_transitive(a: ContextNode, b: ContextNode, c: ContextNode)
    requires
        comes_before(a, b),
        comes_before(b, c),
    ensures
        comes_before(a, c),
{
}

/// Orders `items` as a slice shows them, keeping the given order among equals.
fn order_slice(items: Vec<ContextNode>) -> (r: Vec<ContextNode>)
    ensures
        slice_ordered(r@),
        r@.to_multiset() == items@.to_multiset(),
{
    let mut out: Vec<ContextNode> = Vec::new();
    let mut i: usize = 0;
    while i < items.len()
        invariant
            i <= items@.len(),
            slice_ordered(out@),
            out@.to_multiset() == items@.subrange(0, i as int).to_multiset(),
        decreases items@.len() - i,
    {
        let e = items[i].clone_node();
        let mut p: usize = 0;
        while p < out.len() && !before_exec(&e, &out[p])
            invariant
                p <= out@.len(),
                forall|m: int| 0 <= m < p ==> !comes_before(e, #[trigger] out@[m]),
            decreases out@.len() - p,
        {
            p = p + 1;
        }
        let ghost old_out = out@;
        out.insert(p, e);
        proof {
            assert(out@ == old_out.insert(p as int, e));
            assert forall|a: int, b: int| 0 <= a < b < out@.len() implies !comes_before(#[trigger] out@[b], #[trigger] out@[a]) by {
                if b < p {
                    assert(out@[a] == old_out[a] && out@[b] == old_out[b]);
                } else if b == p {
                    assert(out@[a] == old_out[a]);
                } else if a < p {
                    assert(out@[a] == old_out[a] && out@[b] == old_out[b - 1]);
                } else if a == p {
                    assert(out@[b] == old_out[b - 1]);
                    assert(comes_before(e, old_out[p as int]));
                    if comes_before(old_out[b - 1], e) {
                        lemma_before_transitive(old_out[b - 1], e, old_out[p as int]);
                        if b - 1 > p {
                            assert(!comes_before(old_out[b - 1], old_out[p as int]));
                        }
                    }
                } else {
                    assert(out@[a] == old_out[a - 1] && out@[b] == old_out[b - 1]);
                }
            }
            assert(out@.remove(p as int) =~= old_out);
            assert(out@.to_multiset().remove(e) == old_out.to_multiset());
            assert(out@.to_multiset().count(e) > 0);
            assert(out@.to_multiset() =~= old_out.to_multiset().insert(e));
            assert(items@.subrange(0, i + 1) =~= items@.subrange(0, i as int).push(items@[i as int]));
        }
        i = i + 1;
    }
    assert(items@.subrange(0, i as int) =~= items@);
    out
}

fn before_exec(a: &ContextNode, b: &ContextNode) -> (r: bool)
    ensures
        r == comes_before(*a, *b),
{
    (a.pinned && !b.pinned) || (a.pinned == b.pinned && (a.depth < b.depth || (a.depth == b.depth
        && a.node_info.centrality > b.node_info.centrality)))
}

impl ContextNode {
    /// A copy equal to this record.
    pub fn clone_node(&self) -> (r: ContextNode)
        ensures
            r == *self,
    {
        let info = &self.node_info;
        let signature = match &info.signature {
            Some(s) => Some(s.clone()),
            None => None,
        };
        ContextNode {
            node_id: self.node_id,
            node_info: NodeInfo {
                id: info.id.clone(),
                name: info.name.clone(),
                qualified_name: info.qualified_name.clone(),
                kind: info.kind.clone(),
                file: info.file.clone(),
                line_start: info.line_start,
                line_end: info.line_end,
                signature,
                centrality: info.centrality,
            },
            token_estimate: self.token_estimate,
            depth: self.depth,
            pinned: self.pinned,
        }
    }
}

/// The name a reason shows as.
pub open spec fn reason_text(r: TruncationReason) -> Seq<char> {
    match r {
        TruncationReason::Complete => "complete"@,
        TruncationReason::TokenBudget => "token_budget"@,
        TruncationReason::MaxDepth => "max_depth"@,
    }
}

impl ContextSlice {
    /// One line for display: `Context: N nodes, ~T tokens (reason)`.
    pub fn summary(&self) -> (r: String)
        ensures
            r@ == "Context: "@ + crate::text::decimal(self.nodes@.len()) + " nodes, ~"@
                + crate::text::decimal(self.total_tokens as nat) + " tokens ("@
                + reason_text(self.truncation_reason) + ")"@,
    {
        String::from_str("Context: ")
            .concat(crate::text::to_decimal(self.nodes.len()).as_str())
            .concat(" nodes, ~")
            .concat(crate::text::to_decimal(self.total_tokens).as_str())
            .concat(" tokens (")
            .concat(self.truncation_reason.to_string().as_str())
            .concat(")")
    }

    /// The pinned records, in slice order.
    pub fn pinned_only(&self) -> (r: Vec<ContextNode>)
        ensures
            r@ == self.nodes@.filter(|n: ContextNode| n.pinned),
    {
        let mut out: Vec<ContextNode> = Vec::new();
        let mut i: usize = 0;
        while i < self.nodes.len()
            invariant
                i <= self.nodes@.len(),
                out@ == self.nodes@.subrange(0, i as int).filter(|n: ContextNode| n.pinned),
            decreases self.nodes@.len() - i,
        {
            proof {
                let s = self.nodes@.subrange(0, i + 1);
                assert(s.drop_last() =~= self.nodes@.subrange(0, i as int));
                self.nodes@.subrange(0, i as int).lemma_filter_push(self.nodes@[i as int], |n: ContextNode| n.pinned);
                assert(s =~= self.nodes@.subrange(0, i as int).push(self.nodes@[i as int]));
            }
            if self.nodes[i].pinned {
                out.push(self.nodes[i].clone_node());
            }
            i = i + 1;
        }
        assert(self.nodes@.subrange(0, i as int) =~= self.nodes@);
        out
    }
}

/// The estimates of the records not pinned, added up.
pub open spec fn unpinned_tokens(s: Seq<ContextNode>) -> nat
    decreases s.len(),
{
    if s.len() == 0 {
        0
    } else {
        unpinned_tokens(s.drop_last()) + if s.last().pinned { 0nat } else { s.last().token_estimate as nat }
    }
}

proof fn lemma_unpinned_remove(s: Seq<ContextNode>, k: int)
    requires
        0 <= k < s.len(),
    ensures
        unpinned_tokens(s) == unpinned_tokens(s.remove(k)) + if s[k].pinned { 0nat } else { s[k].token_estimate as nat },
    decreases s.len(),
{
    if k < s.len() - 1 {
        lemma_unpinned_remove(s.drop_last(), k);
        assert(s.remove(k).drop_last() =~= s.drop_last().remove(k));
        assert(s.remove(k).last() == s.last());
    } else {
        assert(s.remove(k) =~= s.drop_last());
    }
}

proof fn lemma_unpinned_permutation(a: Seq<ContextNode>, b: Seq<ContextNode>)
    requires
        a.to_multiset() == b.to_multiset(),
    ensures
        unpinned_tokens(a) == unpinned_tokens(b),
    decreases a.len(),
{
    if a.len() == 0 {
        assert(b.to_multiset().len() == b.len());
    } else {
        let x = a.last();
        assert(a.to_multiset().count(x) > 0) by {
            assert(a.contains(x));
        }
        assert(b.contains(x));
        let k = choose|k: int| 0 <= k < b.len() && b[k] == x;
        assert(a.drop_last() =~= a.remove(a.len() - 1));
        assert(a.drop_last().to_multiset() == a.to_multiset().remove(x));
        assert(b.remove(k).to_multiset() == b.to_multiset().remove(x));
        lemma_unpinned_permutation(a.drop_last(), b.remove(k));
        lemma_unpinned_remove(b, k);
    }
}

/// The hops a slice explores: `max_depth`, or the vertex count when `max_depth` is 0
/// or at least the vertex count.
pub open spec fn slice_depth(max_depth: usize, n: int) -> nat {
    if max_depth == 0 || max_depth >= n {
        n as nat
    } else {
        max_depth as nat
    }
}

/// `v` is explored by a slice of `g` around `t` with depth bound `d`.
pub open spec fn explored(g: ArborGraph, t: int, d: nat, v: int) -> bool {
    0 <= v < g.nodes_view().len() && within(g.edges_view(), g.nodes_view().len() as int, WalkDir::Neighbors, t, v, d)
}

/// Some record of `s` is for vertex `v`.
pub open spec fn has_record(s: Seq<ContextNode>, v: int) -> bool {
    exists|j: int| 0 <= j < s.len() && (#[trigger] s[j]).node_id.index == v
}

pub open spec fn is_pinned(pinned: Seq<NodeId>, v: int) -> bool {
    exists|j: int| 0 <= j < pinned.len() && (#[trigger] pinned[j]).index == v
}

/// Each record is for an explored vertex, once, at its distance, with its snapshot,
/// estimate and pin flag.
pub open spec fn records_valid(g: ArborGraph, t: int, d: nat, pinned: Seq<NodeId>, s: Seq<ContextNode>) -> bool {
    &&& forall|j: int| 0 <= j < s.len() ==> {
        let c = #[trigger] s[j];
        &&& explored(g, t, d, c.node_id.index as int)
        &&& at_distance(g.edges_view(), g.nodes_view().len() as int, WalkDir::Neighbors, t, c.node_id.index as int, c.depth as nat)
        &&& describes(c.node_info, g.nodes_view()[c.node_id.index as int], g.centrality_view()[c.node_id.index as int])
        &&& c.token_estimate as nat == if token_estimate(c.node_info) <= usize::MAX { token_estimate(c.node_info) } else { usize::MAX as nat }
        &&& c.pinned == is_pinned(pinned, c.node_id.index as int)
    }
    &&& forall|i: int, j: int| 0 <= i < j < s.len() ==> s[i].node_id != s[j].node_id
}

proof fn lemma_hop_le(edges: Seq<GraphEdge>, n: int, dir: WalkDir, t: int, v: int, h: nat, d: nat)
    requires
        at_distance(edges, n, dir, t, v, h),
        within(edges, n, dir, t, v, d),
    ensures
        h <= d,
{
    if h > d {
        lemma_within_mono_pub(edges, n, dir, t, v, d, (h - 1) as nat);
    }
}

/// Reordering valid records keeps them valid and keeps which vertices have one.
proof fn lemma_permuted_records(g: ArborGraph, t: int, d: nat, pinned: Seq<NodeId>, s: Seq<ContextNode>, r: Seq<ContextNode>)
    requires
        records_valid(g, t, d, pinned, s),
        r.to_multiset() == s.to_multiset(),
    ensures
        records_valid(g, t, d, pinned, r),
        forall|v: int| has_record(s, v) ==> #[trigger] has_record(r, v),
        forall|v: int| has_record(r, v) ==> #[trigger] has_record(s, v),
{
    assert forall|j: int| 0 <= j < r.len() implies s.contains(#[trigger] r[j]) by {
        assert(r.contains(r[j]));
        assert(r.to_multiset().count(r[j]) > 0);
    }
    assert forall|v: int| has_record(r, v) implies #[trigger] has_record(s, v) by {
        let j = choose|j: int| 0 <= j < r.len() && (#[trigger] r[j]).node_id.index == v;
        assert(s.contains(r[j]));
        let i = choose|i: int| 0 <= i < s.len() && s[i] == r[j];
        assert(s[i].node_id.index == v);
    }
    assert forall|v: int| has_record(s, v) implies #[trigger] has_record(r, v) by {
        let j = choose|j: int| 0 <= j < s.len() && (#[trigger] s[j]).node_id.index == v;
        assert(s.contains(s[j]));
        assert(s.to_multiset().count(s[j]) > 0);
        assert(r.contains(s[j]));
        let i = choose|i: int| 0 <= i < r.len() && r[i] == s[j];
        assert(r[i].node_id.index == v);
    }
    assert forall|i: int, j: int| 0 <= i < j < r.len() implies r[i].node_id != r[j].node_id by {
        if r[i].node_id == r[j].node_id {
            let p = choose|p: int| 0 <= p < s.len() && s[p] == r[i];
            let q = choose|q: int| 0 <= q < s.len() && s[q] == r[j];
            if p == q {
                // the same record twice in `r` but once in `s`
                assert(r.remove(j).contains(r[i])) by {
                    assert(r.remove(j)[i] == r[i]);
                }
                assert(r.remove(j).to_multiset().count(r[i]) > 0);
                assert(r.to_multiset().count(r[i]) == r.remove(j).to_multiset().count(r[i]) + 1);
                assert(s.to_multiset().count(s[p]) <= 1) by {
                    assert forall|w: int| 0 <= w < s.len() && w != p implies s[w] != s[p] by {
                        if w < p {
                            assert(s[w].node_id != s[p].node_id);
                        } else {
                            assert(s[p].node_id != s[w].node_id);
                        }
                    }
                    assert(!s.remove(p).contains(s[p])) by {
                        if s.remove(p).contains(s[p]) {
                            let w = choose|w: int| 0 <= w < s.remove(p).len() && s.remove(p)[w] == s[p];
                            if w < p {
                                assert(s.remove(p)[w] == s[w]);
                            } else {
                                assert(s.remove(p)[w] == s[w + 1]);
                            }
                        }
                    }
                    assert(s.remove(p).to_multiset().count(s[p]) == 0);
                }
            } else if p < q {
                assert(s[p].node_id != s[q].node_id);
            } else {
                assert(s[q].node_id != s[p].node_id);
            }
        }
    }
}

fn contains_id(ids: &Vec<NodeId>, v: usize) -> (r: bool)
    ensures
        r == is_pinned(ids@, v as int),
{
    let mut i: usize = 0;
    while i < ids.len()
        invariant
            i <= ids@.len(),
            forall|j: int| 0 <= j < i ==> (#[trigger] ids@[j]).index != v,
        decreases ids@.len() - i,
    {
        if ids[i].index == v {
            return true;
        }
        i = i + 1;
    }
    false
}

/// `x`, or `usize::MAX` when it is larger.
pub open spec fn cap(x: nat) -> nat {
    if x <= usize::MAX { x } else { usize::MAX as nat }
}

/// The token estimate of a vertex (capped at `usize::MAX`).
pub open spec fn node_estimate(n: CodeNode) -> nat {
    let lines: nat = if n.line_end >= n.line_start { (n.line_end - n.line_start + 1) as nat } else { 1 };
    let chars = n.name@.len() + n.qualified_name@.len() + n.file@.len() + (match n.signature {
        Some(s) => s@.len(),
        None => 0,
    }) + 40 * lines;
    cap((chars + 3) / 4)
}

/// The budget a slice works with: `max_tokens`, or no limit when it is 0.
pub open spec fn budget_of(max_tokens: usize) -> nat {
    if max_tokens == 0 { usize::MAX as nat } else { max_tokens as nat }
}

/// Taking the vertices of `order` in turn: which are taken (pinned ones, and others whose
/// estimate still fits the budget on top of the running total), the running total, and
/// whether some vertex did not fit.
pub open spec fn greedy(g: ArborGraph, pinned: Seq<NodeId>, budget: nat, order: Seq<(int, int)>) -> (Set<int>, nat, bool)
    decreases order.len(),
{
    if order.len() == 0 {
        (Set::empty(), 0, false)
    } else {
        let prev = greedy(g, pinned, budget, order.drop_last());
        let v = order.last().0;
        let e = node_estimate(g.nodes_view()[v]);
        let fits = prev.1 + e <= budget;
        let take = fits || is_pinned(pinned, v);
        (
            if take { prev.0.insert(v) } else { prev.0 },
            if take { cap(prev.1 + e) } else { prev.1 },
            prev.2 || !fits,
        )
    }
}

/// A breadth-first visiting order of the slice around `t` with depth bound `d`: the
/// target first, each explored vertex once with its distance, distances never
/// decreasing.
pub open spec fn visit_order(g: ArborGraph, t: int, d: nat, order: Seq<(int, int)>) -> bool {
    let n = g.nodes_view().len() as int;
    &&& order.len() >= 1
    &&& order[0] == (t, 0int)
    &&& forall|i: int| 0 <= i < order.len() ==> 0 <= (#[trigger] order[i]).0 < n && 0 <= order[i].1 <= d
        && at_distance(g.edges_view(), n, WalkDir::Neighbors, t, order[i].0, order[i].1 as nat)
    &&& forall|i: int, j: int| 0 <= i < j < order.len() ==> (#[trigger] order[i]).0 != (#[trigger] order[j]).0
        && order[i].1 <= order[j].1
    &&& forall|v: int| explored(g, t, d, v) ==> exists|i: int| 0 <= i < order.len() && (#[trigger] order[i]).0 == v
}

/// The target, then the first `m` traversal results that lie within `d` hops.
pub open spec fn visits(t: int, found: Seq<usize>, hops: Seq<usize>, d: nat, m: int) -> Seq<(int, int)>
    decreases m,
{
    if m <= 0 {
        seq![(t, 0int)]
    } else {
        let p = visits(t, found, hops, d, m - 1);
        if hops[m - 1] <= d { p.push((found[m - 1] as int, hops[m - 1] as int)) } else { p }
    }
}

pub open spec fn from_found(found: Seq<usize>, hops: Seq<usize>, d: nat, m: int, e: (int, int)) -> bool {
    exists|p: int| 0 <= p < m && hops[p] <= d && e == (found[p] as int, hops[p] as int)
}

proof fn lemma_visits(t: int, found: Seq<usize>, hops: Seq<usize>, d: nat, m: int)
    requires
        0 <= m <= found.len(),
        found.len() == hops.len(),
        forall|j: int| 0 <= j < found.len() ==> #[trigger] found[j] != t && hops[j] >= 1,
        forall|i: int, j: int| 0 <= i < j < found.len() ==> found[i] != found[j],
        forall|i: int, j: int| 0 <= i < j < found.len() ==> hops[i] <= hops[j],
    ensures
        visits(t, found, hops, d, m).len() >= 1,
        visits(t, found, hops, d, m)[0] == (t, 0int),
        forall|i: int| 1 <= i < visits(t, found, hops, d, m).len() ==> from_found(found, hops, d, m, #[trigger] visits(t, found, hops, d, m)[i]),
        forall|i: int, j: int| 0 <= i < j < visits(t, found, hops, d, m).len() ==>
            (#[trigger] visits(t, found, hops, d, m)[i]).0 != (#[trigger] visits(t, found, hops, d, m)[j]).0
            && visits(t, found, hops, d, m)[i].1 <= visits(t, found, hops, d, m)[j].1,
        forall|p: int| 0 <= p < m && #[trigger] hops[p] <= d ==> exists|i: int| 0 <= i < visits(t, found, hops, d, m).len()
            && visits(t, found, hops, d, m)[i].0 == found[p] as int,
    decreases m,
{
    if m > 0 {
        lemma_visits(t, found, hops, d, m - 1);
        let p = visits(t, found, hops, d, m - 1);
        let cur = visits(t, found, hops, d, m);
        assert forall|i: int| 1 <= i < cur.len() implies from_found(found, hops, d, m, #[trigger] cur[i]) by {
            if i < p.len() {
                assert(cur[i] == p[i]);
                assert(from_found(found, hops, d, m - 1, p[i]));
                let q = choose|q: int| 0 <= q < m - 1 && hops[q] <= d && p[i] == (found[q] as int, hops[q] as int);
            } else {
                assert(cur[i] == (found[m - 1] as int, hops[m - 1] as int));
            }
        }
        if hops[m - 1] <= d {
            assert forall|i: int, j: int| 0 <= i < j < cur.len() implies (#[trigger] cur[i]).0 != (#[trigger] cur[j]).0
                && cur[i].1 <= cur[j].1 by {
                if j < p.len() {
                    assert(cur[i] == p[i] && cur[j] == p[j]);
                } else {
                    assert(cur[i] == p[i]);
                    if i == 0 {
                        assert(found[m - 1] != t);
                    } else {
                        assert(from_found(found, hops, d, m - 1, p[i]));
                        let q = choose|q: int| 0 <= q < m - 1 && hops[q] <= d && p[i] == (found[q] as int, hops[q] as int);
                        assert(found[q] != found[m - 1]);
                        assert(hops[q] <= hops[m - 1]);
                    }
                }
            }
        }
        assert forall|q: int| 0 <= q < m && #[trigger] hops[q] <= d implies exists|i: int| 0 <= i < cur.len()
            && cur[i].0 == found[q] as int by {
            if q < m - 1 {
                let i = choose|i: int| 0 <= i < p.len() && p[i].0 == found[q] as int;
                assert(cur[i] == p[i]);
            } else {
                assert(cur[cur.len() - 1].0 == found[q] as int);
            }
        }
    }
}

proof fn lemma_explored_found(e: Seq<GraphEdge>, n: int, t: int, d: nat, probe: nat, found: Seq<usize>, hops: Seq<usize>, v: int)
    requires
        probe == d + 1,
        0 <= v < n,
        n <= usize::MAX,
        v != t,
        within(e, n, WalkDir::Neighbors, t, v, d),
        found.len() == hops.len(),
        forall|j: int| 0 <= j < found.len() ==> at_distance(e, n, WalkDir::Neighbors, t, (#[trigger] found[j]) as int, hops[j] as nat),
        forall|w: int| 0 <= w < n && w != t && #[trigger] within(e, n, WalkDir::Neighbors, t, w, probe) ==> found.contains(w as usize),
    ensures
        exists|p: int| 0 <= p < found.len() && found[p] as int == v && hops[p] <= d,
{
    lemma_within_mono_pub(e, n, WalkDir::Neighbors, t, v, d, probe);
    assert(found.contains(v as usize));
    let p = choose|p: int| 0 <= p < found.len() && found[p] == v as usize;
    assert(at_distance(e, n, WalkDir::Neighbors, t, found[p] as int, hops[p] as nat));
    lemma_hop_le(e, n, WalkDir::Neighbors, t, v, hops[p] as nat, d);
}

impl ArborGraph {
    #[verifier::rlimit(100)]
    proof fn lemma_visit_order(&self, t: int, d: nat, probe: nat, found: Seq<usize>, hops: Seq<usize>, order: Seq<(int, int)>)
        requires
            self.wf(),
            0 <= t < self.nodes_view().len(),
            self.nodes_view().len() < usize::MAX,
            probe == d + 1,
            reach_result(self.edges_view(), self.nodes_view().len() as int, WalkDir::Neighbors, t, probe, found, hops),
            order.len() >= 1,
            order[0] == (t, 0int),
            forall|i: int| 1 <= i < order.len() ==> from_found(found, hops, d, found.len() as int, #[trigger] order[i]),
            forall|i: int, j: int| 0 <= i < j < order.len() ==> (#[trigger] order[i]).0 != (#[trigger] order[j]).0
                && order[i].1 <= order[j].1,
            forall|p: int| 0 <= p < found.len() && #[trigger] hops[p] <= d ==> exists|i: int| 0 <= i < order.len()
                && order[i].0 == found[p] as int,
        ensures
            visit_order(*self, t, d, order),
    {
        let n = self.nodes_view().len() as int;
        let e = self.edges_view();
        lemma_within_zero_pub(e, n, WalkDir::Neighbors, t, t);
        assert forall|i: int| 0 <= i < order.len() implies 0 <= (#[trigger] order[i]).0 < n && 0 <= order[i].1 <= d
            && at_distance(e, n, WalkDir::Neighbors, t, order[i].0, order[i].1 as nat) by {
            if i >= 1 {
                let p = choose|p: int| 0 <= p < found.len() && hops[p] <= d && order[i] == (found[p] as int, hops[p] as int);
                assert(found[p] < n);
            }
        }
        assert forall|v: int| explored(*self, t, d, v) implies exists|i: int| 0 <= i < order.len() && (#[trigger] order[i]).0 == v by {
            if v == t {
                assert(order[0].0 == v);
            } else {
                lemma_explored_found(e, n, t, d, probe, found, hops, v);
                let p = choose|p: int| 0 <= p < found.len() && found[p] as int == v && hops[p] <= d;
                let i = choose|i: int| 0 <= i < order.len() && order[i].0 == found[p] as int;
            }
        }
    }
}

impl ArborGraph {
    /// Collects a token-bounded slice around `target`. Vertices are explored level by
    /// level over edges of any kind in either direction, up to `max_depth` hops (0 for no
    /// bound). Each explored vertex is taken if pinned, or if its estimate still fits
    /// `max_tokens` (0 for no budget) on top of what was taken before it. The reason is
    /// `TokenBudget` if some vertex did not fit, else `MaxDepth` if vertices lie past the
    /// depth bound, else `Complete`. An absent target gives an empty slice.
    #[verifier::rlimit(100)]
    pub fn slice_context(&self, target: NodeId, max_tokens: usize, max_depth: usize, pinned: &Vec<NodeId>) -> (r: ContextSlice)
        requires
            self.wf(),
            self.nodes_view().len() < usize::MAX,
        ensures
            r.max_tokens == max_tokens,
            r.query_time_ms == 0,
            target.index >= self.nodes_view().len() ==> r.nodes@.len() == 0 && r.total_tokens == 0
                && r.truncation_reason == TruncationReason::Complete && r.target.id@.len() == 0
                && r.target.name@.len() == 0 && r.target.qualified_name@.len() == 0 && r.target.file@.len() == 0,
            target.index < self.nodes_view().len() ==> {
                let n = self.nodes_view().len() as int;
                let t = target.index as int;
                let d = slice_depth(max_depth, n);
                &&& describes(r.target, self.nodes_view()[t], self.centrality_view()[t])
                &&& records_valid(*self, t, d, pinned@, r.nodes@)
                &&& slice_ordered(r.nodes@)
                &&& forall|v: int| explored(*self, t, d, v) && is_pinned(pinned@, v) ==> #[trigger] has_record(r.nodes@, v)
                &&& max_tokens > 0 ==> unpinned_tokens(r.nodes@) <= max_tokens
                &&& (exists|v: int| explored(*self, t, d, v) && !#[trigger] has_record(r.nodes@, v))
                    ==> r.truncation_reason == TruncationReason::TokenBudget
                &&& r.truncation_reason == TruncationReason::MaxDepth ==> exists|v: int|
                    0 <= v < n && #[trigger] at_distance(self.edges_view(), n, WalkDir::Neighbors, t, v, d + 1)
                &&& r.truncation_reason == TruncationReason::Complete ==> forall|v: int|
                    0 <= v < n ==> !#[trigger] at_distance(self.edges_view(), n, WalkDir::Neighbors, t, v, d + 1)
                &&& exists|order: Seq<(int, int)>| #[trigger] visit_order(*self, t, d, order) && {
                    let gr = greedy(*self, pinned@, budget_of(max_tokens), order);
                    &&& forall|v: int| has_record(r.nodes@, v) <==> gr.0.contains(v)
                    &&& r.total_tokens as nat == gr.1
                    &&& (r.truncation_reason == TruncationReason::TokenBudget <==> gr.2)
                    &&& !gr.2 ==> (r.truncation_reason == TruncationReason::MaxDepth <==> exists|v: int|
                        0 <= v < n && #[trigger] at_distance(self.edges_view(), n, WalkDir::Neighbors, t, v, d + 1))
                }
            },
    {
        let n = self.node_count();
        if target.index >= n {
            return ContextSlice {
                target: NodeInfo::empty(),
                nodes: Vec::new(),
                total_tokens: 0,
                max_tokens,
                truncation_reason: TruncationReason::Complete,
                query_time_ms: 0,
            };
        }
        let ghost t = target.index as int;
        let ghost ni = n as int;
        let ghost edges = self.edges_view();
        let unlimited = max_depth == 0 || max_depth >= n;
        let depth = if unlimited { n } else { max_depth };
        let probe = depth + 1;
        let (found, hops) = self.reach_within(target, WalkDir::Neighbors, probe);
        let ghost d = slice_depth(max_depth, ni);
        assert(depth as nat == d);
        let budget = if max_tokens == 0 { usize::MAX } else { max_tokens };
        proof {
            crate::impact::lemma_distinct_bounded_len(found@, ni);
        }

        let mut included: Vec<ContextNode> = Vec::new();
        let mut total: usize = 0;
        let mut over_budget = false;
        let mut beyond = false;
        let ghost mut np: nat = 0;
        let ghost mut order: Seq<(int, int)> = Seq::empty();
        let ghost bud = budget_of(max_tokens);
        // Position -1 stands for the target itself, then the explored vertices in order.
        let mut k: usize = 0;
        let count = found.len();
        while k <= count
            invariant
                self.wf(),
                n == self.nodes_view().len(),
                ni == n as int,
                edges == self.edges_view(),
                t == target.index as int,
                0 <= t < n,
                depth as nat == d,
                d <= n,
                probe == depth + 1,
                count == found@.len(),
                count <= n,
                n < usize::MAX,
                k <= count + 1,
                reach_result(edges, ni, WalkDir::Neighbors, t, probe as nat, found@, hops@),
                budget == if max_tokens == 0 { usize::MAX } else { max_tokens },
                records_valid(*self, t, d, pinned@, included@),
                np == unpinned_tokens(included@),
                np <= total,
                max_tokens > 0 ==> np <= max_tokens,
                // each record comes from the target or an explored vertex already passed
                forall|j: int| 0 <= j < included@.len() ==> {
                    let v = (#[trigger] included@[j]).node_id.index as int;
                    v == t && k >= 1 || exists|m: int| 0 <= m < k - 1 && found@[m] as int == v
                },
                k >= 1 && is_pinned(pinned@, t) ==> has_record(included@, t),
                k >= 1 && !has_record(included@, t) ==> over_budget,
                forall|m: int| 0 <= m < k - 1 && hops@[m] <= d ==> (is_pinned(pinned@, #[trigger] found@[m] as int) ==> has_record(included@, found@[m] as int)),
                forall|m: int| 0 <= m < k - 1 && hops@[m] <= d && !has_record(included@, #[trigger] found@[m] as int) ==> over_budget,
                beyond ==> exists|m: int| 0 <= m < k - 1 && #[trigger] hops@[m] > d,
                forall|m: int| 0 <= m < k - 1 && #[trigger] hops@[m] > d ==> beyond,
                bud == budget_of(max_tokens),
                budget as nat == bud,
                order == if k == 0 { Seq::empty() } else { visits(t, found@, hops@, d, k - 1) },
                forall|w: int| has_record(included@, w) <==> greedy(*self, pinned@, bud, order).0.contains(w),
                total as nat == greedy(*self, pinned@, bud, order).1,
                over_budget == greedy(*self, pinned@, bud, order).2,
            decreases count + 1 - k,
        {
            let (v, dv) = if k == 0 { (target.index, 0usize) } else { (found[k - 1], hops[k - 1]) };
            let ghost prev_order = order;
            let ghost prev_inc = included@;
            proof {
                if k == 0 {
                    assert(visits(t, found@, hops@, d, 0) == seq![(t, 0int)]);
                    assert(seq![(t, 0int)] =~= Seq::<(int, int)>::empty().push((t, 0int)));
                } else {
                    assert(visits(t, found@, hops@, d, k as int) == if hops@[k - 1] <= d {
                        prev_order.push((found@[k - 1] as int, hops@[k - 1] as int)) } else { prev_order });
                }
            }
            if dv <= depth {
                let id = NodeId { index: v };
                let node = self.get(id).unwrap();
                let info = NodeInfo::from_node(node, self.centrality(id));
                let est = estimate_tokens(&info);
                proof {
                    order = order.push((v as int, dv as int));
                    assert(order.drop_last() =~= prev_order);
                    assert(est as nat == node_estimate(self.nodes_view()[v as int]));
                }
                let pin = contains_id(pinned, v);
                let fits = est <= budget && total <= budget - est;
                if !fits {
                    over_budget = true;
                }
                if pin || fits {
                    let ghost before = included@;
                    proof {
                        if k == 0 {
                            lemma_within_zero_pub(edges, ni, WalkDir::Neighbors, t, t);
                        } else {
                            lemma_within_mono_pub(edges, ni, WalkDir::Neighbors, t, v as int, dv as nat, d);
                        }
                        assert forall|j: int| 0 <= j < before.len() implies (#[trigger] before[j]).node_id != id by {
                            if k >= 1 {
                                if before[j].node_id.index as int == t {
                                } else {
                                    let m = choose|m: int| 0 <= m < k - 1 && found@[m] as int == before[j].node_id.index as int;
                                    assert(found@[m] != found@[k - 1]);
                                }
                            }
                        }
                    }
                    included.push(ContextNode { node_id: id, node_info: info, token_estimate: est, depth: dv, pinned: pin });
                    proof {
                        assert(included@.drop_last() =~= before);
                        assert(included@[included@.len() - 1].node_id.index == v);
                        assert(has_record(included@, v as int));
                        assert forall|w: int| has_record(before, w) implies has_record(included@, w) by {
                            let j = choose|j: int| 0 <= j < before.len() && (#[trigger] before[j]).node_id.index == w;
                            assert(included@[j] == before[j]);
                        }
                        if !pin {
                            np = np + est as nat;
                        }
                        assert forall|j: int| 0 <= j < included@.len() implies {
                            let w = (#[trigger] included@[j]).node_id.index as int;
                            w == t && k + 1 >= 1 || exists|m: int| 0 <= m < k && found@[m] as int == w
                        } by {
                            if j < before.len() {
                                assert(included@[j] == before[j]);
                            } else if k >= 1 {
                                assert(found@[k - 1] as int == v as int);
                            }
                        }
                    }
                    total = total.saturating_add(est);
                }
                proof {
                    let gp = greedy(*self, pinned@, bud, prev_order);
                    let gn = greedy(*self, pinned@, bud, order);
                    assert(order.last().0 == v as int);
                    assert(fits == (gp.1 + est <= bud));
                    assert forall|w: int| has_record(included@, w) <==> gn.0.contains(w) by {
                        if pin || fits {
                            if has_record(included@, w) && w != v as int {
                                let j = choose|j: int| 0 <= j < included@.len() && (#[trigger] included@[j]).node_id.index == w;
                                assert(j < prev_inc.len());
                                assert(included@[j] == prev_inc[j]);
                                assert(has_record(prev_inc, w));
                            }
                            if has_record(prev_inc, w) {
                                let j = choose|j: int| 0 <= j < prev_inc.len() && (#[trigger] prev_inc[j]).node_id.index == w;
                                assert(included@[j] == prev_inc[j]);
                            }
                        }
                    }
                }
            } else {
                beyond = true;
                proof {
                    assert(order == prev_order);
                }
            }
            k = k + 1;
        }
        proof {
            assert forall|v: int| explored(*self, t, d, v) && !has_record(included@, v) implies over_budget by {
                if v != t {
                    lemma_within_mono_pub(edges, ni, WalkDir::Neighbors, t, v, d, probe as nat);
                    let m = choose|m: int| 0 <= m < found@.len() && found@[m] == v as usize;
                    lemma_hop_le(edges, ni, WalkDir::Neighbors, t, v, hops@[m] as nat, d);
                    assert(!has_record(included@, found@[m] as int));
                }
            }
            assert forall|v: int| explored(*self, t, d, v) && is_pinned(pinned@, v) implies has_record(included@, v) by {
                if v != t {
                    lemma_within_mono_pub(edges, ni, WalkDir::Neighbors, t, v, d, probe as nat);
                    let m = choose|m: int| 0 <= m < found@.len() && found@[m] == v as usize;
                    lemma_hop_le(edges, ni, WalkDir::Neighbors, t, v, hops@[m] as nat, d);
                    assert(is_pinned(pinned@, found@[m] as int));
                }
            }
            if !beyond {
                assert forall|v: int| 0 <= v < n implies !#[trigger] at_distance(edges, ni, WalkDir::Neighbors, t, v, d + 1) by {
                    if at_distance(edges, ni, WalkDir::Neighbors, t, v, d + 1) {
                        lemma_within_zero_pub(edges, ni, WalkDir::Neighbors, t, t);
                        if v == t {
                            lemma_within_mono_pub(edges, ni, WalkDir::Neighbors, t, t, 0, d);
                        }
                        let m = choose|m: int| 0 <= m < found@.len() && found@[m] == v as usize;
                        lemma_hop_unique(edges, ni, WalkDir::Neighbors, t, v, hops@[m] as nat, d + 1);
                        assert(hops@[m] > d);
                    }
                }
            }
            if beyond {
                let m = choose|m: int| 0 <= m < k - 1 && #[trigger] hops@[m] > d;
                assert(at_distance(edges, ni, WalkDir::Neighbors, t, found@[m] as int, d + 1));
            }
        }
        let reason = if over_budget {
            TruncationReason::TokenBudget
        } else if beyond {
            TruncationReason::MaxDepth
        } else {
            TruncationReason::Complete
        };
        let nodes = order_slice(included);
        proof {
            lemma_permuted_records(*self, t, d, pinned@, included@, nodes@);
            lemma_unpinned_permutation(included@, nodes@);
            lemma_visits(t, found@, hops@, d, count as int);
            assert(order == visits(t, found@, hops@, d, count as int));
            self.lemma_visit_order(t, d, probe as nat, found@, hops@, order);
            let gr = greedy(*self, pinned@, bud, order);
            assert forall|v: int| has_record(nodes@, v) <==> gr.0.contains(v) by {
                if has_record(nodes@, v) {
                    assert(has_record(included@, v));
                }
                if has_record(included@, v) {
                    assert(has_record(nodes@, v));
                }
            }
            assert(visit_order(*self, t, d, order));
        }
        let node = self.get(target).unwrap();
        ContextSlice {
            target: NodeInfo::from_node(node, self.centrality(target)),
            nodes,
            total_tokens: total,
            max_tokens,
            truncation_reason: reason,
            query_time_ms: 0,
        }
    }
}

} // verus!
