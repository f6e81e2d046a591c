//! The watch graph (static per-input-node lists of guarded actions) and the
//! event accumulator that buffers notifications and turns them into actions.
use std::marker::PhantomData;
use std::rc::Rc;
use vstd::prelude::*;

use crate::algebra::{GraphEvent, GraphNode};

verus! {

/// The links of node `k`, empty for a node that was never registered.
pub open spec fn edges_at<E, O>(edges: Seq<Seq<(E, O)>>, k: int) -> Seq<(E, O)> {
    if 0 <= k < edges.len() {
        edges[k]
    } else {
        Seq::empty()
    }
}

/// The actions of `links` whose guard passes for the incoming `event`, in
/// registration order.
pub open spec fn fired<E: GraphEvent, O>(links: Seq<(E, O)>, event: E) -> Seq<O>
    decreases links.len(),
{
    if links.len() == 0 {
        Seq::empty()
    } else {
        let prev = fired(links.drop_last(), event);
        let link = links.last();
        if event.subsumed(link.0.merged(event)) {
            prev.push(link.1)
        } else {
            prev
        }
    }
}

/// The buffer after one notification: a null event changes nothing; an event
/// for the node of the last entry is merged into it; any other is appended.
pub open spec fn notified<N: GraphNode, E: GraphEvent>(buf: Seq<(N, E)>, node: N, event: E) -> Seq<
    (N, E),
> {
    if event == E::null_event() {
        buf
    } else if buf.len() > 0 && buf.last().0.index() == node.index() {
        buf.update(buf.len() - 1, (buf.last().0, buf.last().1.merged(event)))
    } else {
        buf.push((node, event))
    }
}

/// All entries of `buf` for the node of index `k`, coalesced: the first such
/// node, with the merge of their events in buffer order; `None` if there is
/// no such entry.
pub open spec fn group<N: GraphNode, E: GraphEvent>(buf: Seq<(N, E)>, k: usize) -> Option<(N, E)>
    decreases buf.len(),
{
    if buf.len() == 0 {
        None
    } else {
        let prev = group(buf.drop_last(), k);
        let (n, e) = buf.last();
        if n.index() == k {
            match prev {
                None => Some((n, e)),
                Some((n0, e0)) => Some((n0, e0.merged(e))),
            }
        } else {
            prev
        }
    }
}

/// The coalesced entries for the node indices below `k`, in ascending order.
pub open spec fn coalesced_below<N: GraphNode, E: GraphEvent>(buf: Seq<(N, E)>, k: nat) -> Seq<
    (N, E),
>
    decreases k,
{
    if k == 0 {
        Seq::empty()
    } else {
        let prev = coalesced_below(buf, (k - 1) as nat);
        match group(buf, (k - 1) as usize) {
            Some(p) => prev.push(p),
            None => prev,
        }
    }
}

/// One entry per distinct node of `buf`, in ascending node index, each with
/// the merge of that node's events.
pub open spec fn coalesced<N: GraphNode, E: GraphEvent>(buf: Seq<(N, E)>) -> Seq<(N, E)> {
    coalesced_below(buf, usize::MAX as nat + 1)
}

/// The actions that the coalesced entries `pairs` fire, entry after entry.
pub open spec fn actions_of<N: GraphNode, E: GraphEvent, O>(
    edges: Seq<Seq<(E, O)>>,
    pairs: Seq<(N, E)>,
) -> Seq<O>
    decreases pairs.len(),
{
    if pairs.len() == 0 {
        Seq::empty()
    } else {
        actions_of(edges, pairs.drop_last()) + fired(
            edges_at(edges, pairs.last().0.index() as int),
            pairs.last().1,
        )
    }
}

/// What one collection round delivers for the buffer `buf`.
pub open spec fn triggered<N: GraphNode, E: GraphEvent, O>(
    edges: Seq<Seq<(E, O)>>,
    buf: Seq<(N, E)>,
) -> Seq<O> {
    actions_of(edges, coalesced(buf))
}

/// Mutable registration data of a watch graph.
pub struct LazyInputEventGraphBuilder<InNode, InEvent, Output> where
    InNode: GraphNode,
    InEvent: GraphEvent,
 {
    in_events: Vec<Vec<(InEvent, Output)>>,
    _in_node: PhantomData<InNode>,
}

/// The frozen watch graph: for each input node, its (watch event, action)
/// links in registration order.
pub struct LazyInputEventGraph<InNode, InEvent, Output> where
    InNode: GraphNode,
    InEvent: GraphEvent,
 {
    in_events: Vec<Vec<(InEvent, Output)>>,
    _in_node: PhantomData<InNode>,
}

impl<InNode, InEvent, Output> LazyInputEventGraphBuilder<InNode, InEvent, Output> where
    InNode: GraphNode,
    InEvent: GraphEvent,
 {
    /// The links registered so far, per input node index.
    pub closed spec fn edges(&self) -> Seq<Seq<(InEvent, Output)>> {
        self.in_events@.map_values(|v: Vec<(InEvent, Output)>| v@)
    }

    pub fn new() -> (r: Self)
        ensures
            r.edges() == Seq::<Seq<(InEvent, Output)>>::empty(),
    {
        let r = LazyInputEventGraphBuilder { in_events: Vec::new(), _in_node: PhantomData };
        assert(r.edges() =~= Seq::<Seq<(InEvent, Output)>>::empty());
        r
    }

    /// Appends the link `(event, out)` to the links of `node`.
    pub fn add_event(&mut self, node: InNode, event: InEvent, out: Output)
        requires
            node.index() < usize::MAX,
        ensures
            final(self).edges().len() == if node.index() < old(self).edges().len() {
                old(self).edges().len() as int
            } else {
                node.index() + 1
            },
            forall|k: int|
                0 <= k < final(self).edges().len() ==> #[trigger] final(self).edges()[k] == if k
                    == node.index() {
                    edges_at(old(self).edges(), k).push((event, out))
                } else {
                    edges_at(old(self).edges(), k)
                },
    {
        let idx: usize = node.to_index();
        let ghost old_edges = self.edges();
        while self.in_events.len() <= idx
            invariant
                idx < usize::MAX,
                self.in_events.len() >= old_edges.len(),
                self.in_events.len() <= if idx < old_edges.len() {
                    old_edges.len() as int
                } else {
                    idx + 1
                },
                forall|k: int|
                    0 <= k < self.in_events.len() ==> #[trigger] self.in_events@[k]@ == edges_at(
                        old_edges,
                        k,
                    ),
            decreases idx + 1 - self.in_events.len(),
        {
            self.in_events.push(Vec::new());
        }
        let mut links: Vec<(InEvent, Output)> = Vec::new();
        self.in_events.set_and_swap(idx, &mut links);
        links.push((event, out));
        self.in_events.set_and_swap(idx, &mut links);
        assert forall|k: int| 0 <= k < self.edges().len() implies #[trigger] self.edges()[k] == if k
            == idx {
            edges_at(old_edges, k).push((event, out))
        } else {
            edges_at(old_edges, k)
        } by {
            assert(self.edges()[k] == self.in_events@[k]@);
        }
    }

    /// Freezes the registrations; links keep their registration order.
    pub fn finalize(self) -> (r: LazyInputEventGraph<InNode, InEvent, Output>)
        ensures
            r.edges() == self.edges(),
    {
        LazyInputEventGraph { in_events: self.in_events, _in_node: PhantomData }
    }
}

impl<InNode, InEvent, Output> Default for LazyInputEventGraphBuilder<InNode, InEvent, Output> where
    InNode: GraphNode,
    InEvent: GraphEvent,
 {
    fn default() -> (r: Self)
        ensures
            r.edges() == Seq::<Seq<(InEvent, Output)>>::empty(),
    {
        Self::new()
    }
}

impl<InNode, InEvent, Output> LazyInputEventGraph<InNode, InEvent, Output> where
    InNode: GraphNode,
    InEvent: GraphEvent,
 {
    /// The links of each input node index.
    pub closed spec fn edges(&self) -> Seq<Seq<(InEvent, Output)>> {
        self.in_events@.map_values(|v: Vec<(InEvent, Output)>| v@)
    }
}

/// A coalesced entry is for the node it was asked for, and there is one
/// exactly when the buffer holds an entry for that node.
pub proof fn lemma_group_index<N: GraphNode, E: GraphEvent>(buf: Seq<(N, E)>, k: usize)
    ensures
        group(buf, k) is Some ==> group(buf, k)->Some_0.0.index() == k,
        group(buf, k) is None <==> forall|j: int| 0 <= j < buf.len() ==> buf[j].0.index() != k,
    decreases buf.len(),
{
    if buf.len() > 0 {
        lemma_group_index(buf.drop_last(), k);
        assert forall|j: int| 0 <= j < buf.len() - 1 implies buf.drop_last()[j] == buf[j] by {}
    }
}

/// When no entry of `buf` has an index in `[lo, k)`, the coalesced entries
/// below `k` are those below `lo`.
pub proof fn lemma_coalesced_skip<N: GraphNode, E: GraphEvent>(buf: Seq<(N, E)>, lo: nat, k: nat)
    requires
        lo <= k <= usize::MAX as nat + 1,
        forall|j: int| 0 <= j < buf.len() ==> !(lo <= #[trigger] buf[j].0.index() < k),
    ensures
        coalesced_below(buf, k) == coalesced_below(buf, lo),
    decreases k,
{
    if k > lo {
        lemma_coalesced_skip(buf, lo, (k - 1) as nat);
        lemma_group_index(buf, (k - 1) as usize);
    }
}

/// The per-node-type event accumulator: a buffer of pending notifications
/// over a shared watch graph.
pub struct LazyInputEventHandler<InNode, InEvent, Output> where
    InNode: GraphNode,
    InEvent: GraphEvent,
 {
    graph: Rc<LazyInputEventGraph<InNode, InEvent, Output>>,
    events: Vec<(InNode, InEvent)>,
}

/// Receives notifications of changes on input nodes.
pub trait InputEventHandler<InNode, InEvent> where InNode: GraphNode, InEvent: GraphEvent {
    /// Notifies a change event on `node`; returns whether anything was queued.
    fn notify(&mut self, node: &InNode, event: &InEvent) -> (r: bool)
        ensures
            r == (*event != InEvent::null_event()),
    ;
}

impl<InNode, InEvent, Output> InputEventHandler<InNode, InEvent> for LazyInputEventHandler<
    InNode,
    InEvent,
    Output,
> where InNode: GraphNode, InEvent: GraphEvent {
    fn notify(&mut self, node: &InNode, event: &InEvent) -> (r: bool)
        ensures
            final(self).pending() == notified(old(self).pending(), *node, *event),
            final(self).edges() == old(self).edges(),
    {
        if event.is_null() {
            return false;
        }
        let len = self.events.len();
        if len > 0 && self.events[len - 1].0.to_index() == node.to_index() {
            let (l_node, l_evt) = self.events[len - 1];
            self.events.set(len - 1, (l_node, l_evt.merge(*event)));
        } else {
            self.events.push((*node, *event));
        }
        true
    }
}

impl<InNode, InEvent, Output> LazyInputEventHandler<InNode, InEvent, Output> where
    InNode: GraphNode,
    InEvent: GraphEvent,
 {
    /// The notifications buffered since the last collection.
    pub closed spec fn pending(&self) -> Seq<(InNode, InEvent)> {
        self.events@
    }

    /// The links of the watch graph this accumulator consults.
    pub closed spec fn edges(&self) -> Seq<Seq<(InEvent, Output)>> {
        self.graph.edges()
    }

    pub fn builder() -> (r: LazyInputEventGraphBuilder<InNode, InEvent, Output>)
        ensures
            r.edges() == Seq::<Seq<(InEvent, Output)>>::empty(),
    {
        LazyInputEventGraphBuilder::new()
    }

    /// One collection round: the buffer is coalesced per node, in ascending
    /// node index, and the actions that each coalesced entry fires are
    /// appended to `process`. The buffer is left empty.
    pub fn trigger_events(&mut self, process: &mut Vec<Output>)
        where Output: Copy,
        ensures
            final(self).pending() == Seq::<(InNode, InEvent)>::empty(),
            final(self).edges() == old(self).edges(),
            final(process)@ == old(process)@ + triggered(old(self).edges(), old(self).pending()),
    {
        let mut looked: Vec<(InNode, InEvent)> = Vec::new();
        self.trigger_look_events(process, &mut looked);
    }

    /// As `trigger_events`, and each coalesced entry is also appended to
    /// `look_in`, before the actions it fires.
    pub fn trigger_look_events(
        &mut self,
        process: &mut Vec<Output>,
        look_in: &mut Vec<(InNode, InEvent)>,
    )
        where Output: Copy,
        ensures
            final(self).pending() == Seq::<(InNode, InEvent)>::empty(),
            final(self).edges() == old(self).edges(),
            final(process)@ == old(process)@ + triggered(old(self).edges(), old(self).pending()),
            final(look_in)@ == old(look_in)@ + coalesced(old(self).pending()),
    {
        let ghost buf = self.events@;
        let ghost edges = self.edges();
        if self.events.len() == 0 {
            proof {
                lemma_coalesced_skip(buf, 0, usize::MAX as nat + 1);
                assert(old(process)@ + Seq::<Output>::empty() =~= old(process)@);
                assert(old(look_in)@ + Seq::<(InNode, InEvent)>::empty() =~= old(look_in)@);
            }
            return ;
        }
        let mut lo: usize = 0;
        let mut finished = false;
        proof {
            assert(old(process)@ + Seq::<Output>::empty() =~= old(process)@);
            assert(old(look_in)@ + Seq::<(InNode, InEvent)>::empty() =~= old(look_in)@);
        }
        while !finished
            invariant
                self.events@ == buf,
                self.edges() == edges,
                !finished ==> process@ == old(process)@ + actions_of(
                    edges,
                    coalesced_below(buf, lo as nat),
                ) && look_in@ == old(look_in)@ + coalesced_below(buf, lo as nat),
                finished ==> process@ == old(process)@ + actions_of(edges, coalesced(buf))
                    && look_in@ == old(look_in)@ + coalesced(buf),
            decreases
                if finished {
                    0
                } else {
                    usize::MAX as int - lo as int + 1
                },
        {
            match min_index_from(&self.events, lo) {
                None => {
                    proof {
                        lemma_coalesced_skip(buf, lo as nat, usize::MAX as nat + 1);
                    }
                    finished = true;
                },
                Some(k) => {
                    let (n, e) = merged_group(&self.events, k);
                    let ghost prefix = coalesced_below(buf, k as nat);
                    proof {
                        lemma_coalesced_skip(buf, lo as nat, k as nat);
                        lemma_group_index(buf, k);
                        assert(coalesced_below(buf, k as nat + 1) == prefix.push((n, e)));
                        assert(prefix.push((n, e)).drop_last() =~= prefix);
                    }
                    look_in.push((n, e));
                    self.process_in_event(&n, &e, process);
                    proof {
                        assert(look_in@ =~= old(look_in)@ + prefix.push((n, e)));
                        assert(process@ =~= old(process)@ + actions_of(edges, prefix.push((n, e))));
                    }
                    if k == usize::MAX {
                        finished = true;
                    } else {
                        lo = k + 1;
                    }
                },
            }
        }
        self.events.clear();
    }

    /// The actions of the links of `in_node` whose guard passes for
    /// `in_event` are appended to `process`, in registration order; a node
    /// without links appends nothing.
    pub fn process_in_event(&self, in_node: &InNode, in_event: &InEvent, process: &mut Vec<Output>)
        where Output: Copy,
        ensures
            final(process)@ == old(process)@ + fired(
                edges_at(self.edges(), in_node.index() as int),
                *in_event,
            ),
    {
        let in_idx: usize = in_node.to_index();
        if in_idx >= self.graph.in_events.len() {
            assert(old(process)@ + Seq::<Output>::empty() =~= old(process)@);
            return ;
        }
        let links: &Vec<(InEvent, Output)> = &self.graph.in_events[in_idx];
        assert(links@ == edges_at(self.edges(), in_idx as int));
        let mut i: usize = 0;
        assert(links@.subrange(0, 0) =~= Seq::<(InEvent, Output)>::empty());
        assert(old(process)@ + Seq::<Output>::empty() =~= old(process)@);
        while i < links.len()
            invariant
                i <= links.len(),
                process@ == old(process)@ + fired(links@.subrange(0, i as int), *in_event),
            decreases links.len() - i,
        {
            let (watch, out) = links[i];
            assert(links@.subrange(0, i + 1).drop_last() =~= links@.subrange(0, i as int));
            if in_event.is_subsumed_under(&watch.merge(*in_event)) {
                process.push(out);
                assert(process@ =~= old(process)@ + fired(links@.subrange(0, i + 1), *in_event));
            }
            i = i + 1;
        }
        assert(links@.subrange(0, links.len() as int) =~= links@);
    }

    pub fn new(graph: LazyInputEventGraph<InNode, InEvent, Output>) -> (r: Self)
        ensures
            r.edges() == graph.edges(),
            r.pending() == Seq::<(InNode, InEvent)>::empty(),
    {
        LazyInputEventHandler { graph: Rc::new(graph), events: Vec::new() }
    }
}

/// The least node index at least `lo` among the entries of `buf`.
fn min_index_from<N: GraphNode, E: GraphEvent>(buf: &Vec<(N, E)>, lo: usize) -> (r: Option<usize>)
    ensures
        r is None ==> forall|j: int| 0 <= j < buf@.len() ==> #[trigger] buf@[j].0.index() < lo,
        r is Some ==> {
            let k = r->Some_0;
            &&& lo <= k
            &&& exists|j: int| 0 <= j < buf@.len() && #[trigger] buf@[j].0.index() == k
            &&& forall|j: int|
                0 <= j < buf@.len() && lo <= #[trigger] buf@[j].0.index() ==> k <= buf@[j].0.index()
        },
{
    let mut best: Option<usize> = None;
    let mut i: usize = 0;
    while i < buf.len()
        invariant
            i <= buf@.len(),
            best is None ==> forall|j: int| 0 <= j < i ==> #[trigger] buf@[j].0.index() < lo,
            best is Some ==> {
                let k = best->Some_0;
                &&& lo <= k
                &&& exists|j: int| 0 <= j < i && #[trigger] buf@[j].0.index() == k
                &&& forall|j: int|
                    0 <= j < i && lo <= #[trigger] buf@[j].0.index() ==> k <= buf@[j].0.index()
            },
        decreases buf.len() - i,
    {
        let idx = buf[i].0.to_index();
        if idx >= lo {
            match best {
                None => {
                    best = Some(idx);
                },
                Some(k) => {
                    if idx < k {
                        best = Some(idx);
                    }
                },
            }
        }
        i = i + 1;
    }
    best
}

/// The coalesced entry of the node of index `k`, which `buf` holds.
fn merged_group<N: GraphNode, E: GraphEvent>(buf: &Vec<(N, E)>, k: usize) -> (r: (N, E))
    requires
        exists|j: int| 0 <= j < buf@.len() && #[trigger] buf@[j].0.index() == k,
    ensures
        group(buf@, k) == Some(r),
{
    let mut acc: Option<(N, E)> = None;
    let mut i: usize = 0;
    assert(buf@.subrange(0, 0) =~= Seq::<(N, E)>::empty());
    while i < buf.len()
        invariant
            i <= buf@.len(),
            acc == group(buf@.subrange(0, i as int), k),
        decreases buf.len() - i,
    {
        let (n, e) = buf[i];
        assert(buf@.subrange(0, i + 1).drop_last() =~= buf@.subrange(0, i as int));
        if n.to_index() == k {
            acc = match acc {
                None => Some((n, e)),
                Some((n0, e0)) => Some((n0, e0.merge(e))),
            };
        }
        i = i + 1;
    }
    assert(buf@.subrange(0, buf@.len() as int) =~= buf@);
    proof {
        lemma_group_index(buf@, k);
    }
    acc.unwrap()
}

/// Notifying `node` with `e1` and then with `e2` leaves the same buffer, and
/// so delivers the same actions at the next collection, as notifying it once
/// with the merge of the two.
pub proof fn lemma_notify_coalesces<N: GraphNode, E: GraphEvent, O>(
    edges: Seq<Seq<(E, O)>>,
    buf: Seq<(N, E)>,
    node: N,
    e1: E,
    e2: E,
)
    ensures
        notified(notified(buf, node, e1), node, e2) == notified(buf, node, e1.merged(e2)),
        triggered(edges, notified(notified(buf, node, e1), node, e2)) == triggered(
            edges,
            notified(buf, node, e1.merged(e2)),
        ),
{
    let m = e1.merged(e2);
    let b1 = notified(buf, node, e1);
    crate::algebra::lemma_merge_null_bottom(e1, e2);
    if e1 == E::null_event() {
        E::lemma_merge_commutative(e1, e2);
        E::lemma_merge_null(e2);
    } else if e2 == E::null_event() {
        E::lemma_merge_null(e1);
    } else {
        if buf.len() > 0 && buf.last().0.index() == node.index() {
            E::lemma_merge_associative(buf.last().1, e1, e2);
            assert(notified(b1, node, e2) =~= notified(buf, node, m));
        } else {
            assert(notified(b1, node, e2) =~= notified(buf, node, m));
        }
    }
}

} // verus!
