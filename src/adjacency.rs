//! The reverse graph: for each output node, the input nodes that can produce
//! an action on it, sorted and without duplicates. It serves dependency
//! inspection only.
use std::marker::PhantomData;
use vstd::prelude::*;

use crate::algebra::GraphNode;

verus! {

/// The node indices of `s` are strictly increasing.
pub open spec fn strictly_sorted<N: GraphNode>(s: Seq<N>) -> bool {
    forall|i: int, j: int| 0 <= i < j < s.len() ==> s[i].index() < s[j].index()
}

/// The list of output node `k`, empty for a node that was never registered.
pub open spec fn list_at<N>(lists: Seq<Seq<N>>, k: int) -> Seq<N> {
    if 0 <= k < lists.len() {
        lists[k]
    } else {
        Seq::empty()
    }
}

/// Registers that an input node feeds an output node.
pub trait GraphBuilder<OutNode, InNode> where OutNode: GraphNode, InNode: GraphNode {
    fn add_node(&mut self, out_node: &OutNode, in_node: &InNode)
        requires
            out_node.index() < usize::MAX,
    ;
}

/// Lists the input nodes that feed an output node.
pub trait VisitOutputsNode<OutNode, InNode> where OutNode: GraphNode, InNode: GraphNode {
    /// Appends to `visitor` each input node that feeds `out_node`.
    fn visit_in_nodes(&self, out_node: &OutNode, visitor: &mut Vec<InNode>);
}

/// Mutable registration data of a reverse graph.
pub struct AdjacentListGraphBuilder<SrcNode, DstNode> where
    SrcNode: GraphNode,
    DstNode: GraphNode,
 {
    ins: Vec<Vec<DstNode>>,
    _src_node: PhantomData<SrcNode>,
}

/// The frozen reverse graph.
pub struct AdjacentListGraph<SrcNode, DstNode> where SrcNode: GraphNode, DstNode: GraphNode {
    ins: Vec<Vec<DstNode>>,
    _src_node: PhantomData<SrcNode>,
}

/// The nodes of `v`, each once, in ascending index.
fn sorted_unique<N: GraphNode>(v: &Vec<N>) -> (r: Vec<N>)
    ensures
        strictly_sorted(r@),
        forall|x: N| r@.contains(x) <==> v@.contains(x),
{
    let mut r: Vec<N> = Vec::new();
    let mut i: usize = 0;
    while i < v.len()
        invariant
            i <= v@.len(),
            strictly_sorted(r@),
            forall|x: N| r@.contains(x) <==> v@.subrange(0, i as int).contains(x),
        decreases v.len() - i,
    {
        let x = v[i];
        let xi = x.to_index();
        let mut p: usize = 0;
        while p < r.len() && r[p].to_index() < xi
            invariant
                p <= r@.len(),
                forall|j: int| 0 <= j < p ==> (#[trigger] r@[j]).index() < xi,
            decreases r.len() - p,
        {
            p = p + 1;
        }
        let ghost old_r = r@;
        let ghost pre = v@.subrange(0, i as int);
        let ghost post = v@.subrange(0, i + 1);
        assert(post =~= pre.push(x));
        if p < r.len() && r[p].to_index() == xi {
            proof {
                N::lemma_index_injective(r@[p as int], x);
                assert forall|y: N| r@.contains(y) <==> post.contains(y) by {
                    if post.contains(y) && !pre.contains(y) {
                        let j = choose|j: int| 0 <= j < post.len() && post[j] == y;
                        assert(j == pre.len());
                        assert(r@[p as int] == y);
                    }
                    if pre.contains(y) {
                        let j = choose|j: int| 0 <= j < pre.len() && pre[j] == y;
                        assert(post[j] == y);
                    }
                }
            }
        } else {
            r.insert(p, x);
            proof {
                old_r.insert_ensures(p as int, x);
                assert(r@ == old_r.insert(p as int, x));
                assert forall|a: int, b: int| 0 <= a < b < r@.len() implies r@[a].index()
                    < r@[b].index() by {
                    if p < old_r.len() {
                        assert(old_r[p as int].index() > xi);
                    }
                    if b > p {
                        assert(r@[b] == old_r[b - 1]);
                    }
                    if a > p {
                        assert(r@[a] == old_r[a - 1]);
                    }
                }
                assert forall|y: N| r@.contains(y) <==> post.contains(y) by {
                    if r@.contains(y) {
                        let j = choose|j: int| 0 <= j < r@.len() && r@[j] == y;
                        if j < p {
                            assert(old_r.contains(y));
                        } else if j > p {
                            assert(old_r[j - 1] == y);
                            assert(old_r.contains(y));
                        } else {
                            assert(post[pre.len() as int] == y);
                        }
                        if old_r.contains(y) {
                            let k = choose|k: int| 0 <= k < pre.len() && pre[k] == y;
                            assert(post[k] == y);
                        }
                    }
                    if post.contains(y) {
                        let j = choose|j: int| 0 <= j < post.len() && post[j] == y;
                        if j < pre.len() {
                            assert(pre[j] == y);
                            assert(old_r.contains(y));
                            let k = choose|k: int| 0 <= k < old_r.len() && old_r[k] == y;
                            if k < p {
                                assert(r@[k] == y);
                            } else {
                                assert(r@[k + 1] == y);
                            }
                        } else {
                            assert(r@[p as int] == y);
                        }
                    }
                }
            }
        }
        i = i + 1;
    }
    assert(v@.subrange(0, v@.len() as int) =~= v@);
    r
}

impl<SrcNode, DstNode> AdjacentListGraphBuilder<SrcNode, DstNode> where
    SrcNode: GraphNode,
    DstNode: GraphNode,
 {
    /// The input nodes registered so far for each output node index, in
    /// registration order.
    pub closed spec fn lists(&self) -> Seq<Seq<DstNode>> {
        self.ins@.map_values(|v: Vec<DstNode>| v@)
    }

    fn new() -> (r: Self)
        ensures
            r.lists() == Seq::<Seq<DstNode>>::empty(),
    {
        let r = AdjacentListGraphBuilder { ins: Vec::new(), _src_node: PhantomData };
        assert(r.lists() =~= Seq::<Seq<DstNode>>::empty());
        r
    }

    /// Sorts each list by node index and removes its duplicates.
    pub fn finalize(self) -> (r: AdjacentListGraph<SrcNode, DstNode>)
        ensures
            r.lists().len() == self.lists().len(),
            forall|k: int|
                0 <= k < r.lists().len() ==> strictly_sorted(#[trigger] r.lists()[k]) && forall|
                    x: DstNode,
                | r.lists()[k].contains(x) <==> self.lists()[k].contains(x),
    {
        let mut ins: Vec<Vec<DstNode>> = Vec::new();
        let mut k: usize = 0;
        while k < self.ins.len()
            invariant
                k <= self.ins@.len(),
                ins@.len() == k,
                forall|j: int|
                    0 <= j < k ==> strictly_sorted(#[trigger] ins@[j]@) && forall|x: DstNode|
                        ins@[j]@.contains(x) <==> self.ins@[j]@.contains(x),
            decreases self.ins.len() - k,
        {
            let list = sorted_unique(&self.ins[k]);
            ins.push(list);
            k = k + 1;
        }
        let r = AdjacentListGraph { ins, _src_node: PhantomData };
        assert forall|j: int| 0 <= j < r.lists().len() implies strictly_sorted(
            #[trigger] r.lists()[j],
        ) && forall|x: DstNode| r.lists()[j].contains(x) <==> self.lists()[j].contains(x) by {
            assert(r.lists()[j] == r.ins@[j]@);
            assert(self.lists()[j] == self.ins@[j]@);
        }
        r
    }
}

impl<OutNode, InNode> GraphBuilder<OutNode, InNode> for AdjacentListGraphBuilder<
    OutNode,
    InNode,
> where OutNode: GraphNode, InNode: GraphNode {
    fn add_node(&mut self, out_node: &OutNode, in_node: &InNode)
        ensures
            final(self).lists().len() == if out_node.index() < old(self).lists().len() {
                old(self).lists().len() as int
            } else {
                out_node.index() + 1
            },
            forall|k: int|
                0 <= k < final(self).lists().len() ==> #[trigger] final(self).lists()[k] == if k
                    == out_node.index() {
                    list_at(old(self).lists(), k).push(*in_node)
                } else {
                    list_at(old(self).lists(), k)
                },
    {
        let idx: usize = out_node.to_index();
        let ghost old_lists = self.lists();
        while self.ins.len() <= idx
            invariant
                idx < usize::MAX,
                self.ins.len() >= old_lists.len(),
                self.ins.len() <= if idx < old_lists.len() {
                    old_lists.len() as int
                } else {
                    idx + 1
                },
                forall|k: int|
                    0 <= k < self.ins.len() ==> #[trigger] self.ins@[k]@ == list_at(old_lists, k),
            decreases idx + 1 - self.ins.len(),
        {
            self.ins.push(Vec::new());
        }
        let mut list: Vec<InNode> = Vec::new();
        self.ins.set_and_swap(idx, &mut list);
        list.push(*in_node);
        self.ins.set_and_swap(idx, &mut list);
        assert forall|k: int| 0 <= k < self.lists().len() implies #[trigger] self.lists()[k] == if k
            == idx {
            list_at(old_lists, k).push(*in_node)
        } else {
            list_at(old_lists, k)
        } by {
            assert(self.lists()[k] == self.ins@[k]@);
        }
    }
}

impl<SrcNode, DstNode> AdjacentListGraph<SrcNode, DstNode> where
    SrcNode: GraphNode,
    DstNode: GraphNode,
 {
    /// The input nodes of each output node index, sorted and distinct.
    pub closed spec fn lists(&self) -> Seq<Seq<DstNode>> {
        self.ins@.map_values(|v: Vec<DstNode>| v@)
    }

    pub fn builder() -> (r: AdjacentListGraphBuilder<SrcNode, DstNode>)
        ensures
            r.lists() == Seq::<Seq<DstNode>>::empty(),
    {
        AdjacentListGraphBuilder::new()
    }
}

impl<SrcNode, DstNode> VisitOutputsNode<SrcNode, DstNode> for AdjacentListGraph<
    SrcNode,
    DstNode,
> where SrcNode: GraphNode, DstNode: GraphNode {
    fn visit_in_nodes(&self, out_node: &SrcNode, visitor: &mut Vec<DstNode>)
        ensures
            final(visitor)@ == old(visitor)@ + list_at(self.lists(), out_node.index() as int),
    {
        let idx = out_node.to_index();
        if idx >= self.ins.len() {
            assert(old(visitor)@ + Seq::<DstNode>::empty() =~= old(visitor)@);
            return ;
        }
        let ins = &self.ins[idx];
        assert(ins@ == self.lists()[idx as int]);
        let mut i: usize = 0;
        assert(old(visitor)@ + ins@.subrange(0, 0) =~= old(visitor)@);
        while i < ins.len()
            invariant
                i <= ins@.len(),
                visitor@ == old(visitor)@ + ins@.subrange(0, i as int),
            decreases ins.len() - i,
        {
            visitor.push(ins[i]);
            i = i + 1;
            assert(visitor@ =~= old(visitor)@ + ins@.subrange(0, i as int));
        }
        assert(ins@.subrange(0, ins@.len() as int) =~= ins@);
    }
}

} // verus!
