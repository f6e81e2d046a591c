//! The output aggregator: actions are merged per destination node, and the
//! pending destinations are handed out by priority.
use priority_queue::PriorityQueue;
use std::marker::PhantomData;
use vstd::prelude::*;

use crate::algebra::{GraphEvent, GraphNode};
use crate::lazy::{actions_of, coalesced, edges_at, fired, triggered, LazyInputEventHandler};

verus! {

/// Declares `priority_queue::PriorityQueue`, an indexed max-heap in which each
/// item occurs at most once, as an opaque type.
#[verifier::external_type_specification]
#[verifier::external_body]
#[verifier::reject_recursive_types(I)]
#[verifier::reject_recursive_types(P)]
#[verifier::reject_recursive_types(H)]
pub struct ExPriorityQueue<I, P, H>(PriorityQueue<I, P, H>);

/// A queue of output node indices keyed by priority.
pub type NodeQueue = PriorityQueue<usize, i64>;

/// The contents of a queue that holds no item.
pub open spec fn nothing_queued() -> Map<usize, i64> {
    Map::empty()
}

/// The items of a queue of node indices, each with its priority: the queue
/// holds an item at most once.
pub uninterp spec fn queue_contents(q: NodeQueue) -> Map<usize, i64>;

/// Relies on `PriorityQueue::new`: the new queue holds no item.
#[verifier::external_body]
fn queue_new() -> (r: NodeQueue)
    ensures
        queue_contents(r) == nothing_queued(),
{
    PriorityQueue::new()
}

/// Relies on `PriorityQueue::push`: an item already in the queue gets the
/// new priority and its old one is returned; any other item is inserted.
#[verifier::external_body]
fn queue_push(q: &mut NodeQueue, item: usize, priority: i64) -> (r: Option<i64>)
    ensures
        queue_contents(*final(q)) == queue_contents(*old(q)).insert(item, priority),
        r == if queue_contents(*old(q)).contains_key(item) {
            Some(queue_contents(*old(q))[item])
        } else {
            None
        },
{
    q.push(item, priority)
}

/// Relies on `PriorityQueue::pop`: removes and returns an item of greatest
/// priority, or `None` when the queue is empty.
#[verifier::external_body]
fn queue_pop(q: &mut NodeQueue) -> (r: Option<(usize, i64)>)
    ensures
        (r is None) == (queue_contents(*old(q)) == nothing_queued()),
        r is None ==> queue_contents(*final(q)) == queue_contents(*old(q)),
        r is Some ==> {
            let (item, priority) = r->Some_0;
            &&& queue_contents(*old(q)).contains_key(item)
            &&& queue_contents(*old(q))[item] == priority
            &&& forall|j: usize| #[trigger]
                queue_contents(*old(q)).contains_key(j) ==> queue_contents(*old(q))[j] <= priority
            &&& queue_contents(*final(q)) == queue_contents(*old(q)).remove(item)
        },
{
    q.pop()
}

/// An action on an output node: the event to merge into it and the priority
/// to give it.
#[derive(Clone, Copy, Debug)]
pub struct OutCostEventLink<OutNode: GraphNode, OutEvent: GraphEvent> {
    pub idx: OutNode,
    pub event: OutEvent,
    pub cost: i64,
}

impl<OutNode: GraphNode, OutEvent: GraphEvent> OutCostEventLink<OutNode, OutEvent> {
    pub fn new(idx: OutNode, event: OutEvent, cost: i64) -> (r: Self)
        ensures
            r.idx == idx,
            r.event == event,
            r.cost == cost,
    {
        OutCostEventLink { idx, event, cost }
    }
}

/// The state of an aggregator: the event slot of each output node, and the
/// queued output node indices with their priorities.
pub type OutputState<OutEvent> = (Seq<OutEvent>, Map<usize, i64>);

/// The state after recording `link`: nothing changes when it targets the
/// ignored node; otherwise its event is merged into the slot of its node and
/// the node is queued with the link's cost, replacing any earlier priority.
pub open spec fn after_record<N: GraphNode, E: GraphEvent>(
    state: OutputState<E>,
    link: OutCostEventLink<N, E>,
    ignored: Option<N>,
) -> OutputState<E> {
    let i = link.idx.index();
    if ignored == Some(link.idx) {
        state
    } else {
        (state.0.update(i as int, state.0[i as int].merged(link.event)), state.1.insert(i, link.cost))
    }
}

/// The state after recording each of `links` in turn.
pub open spec fn after_records<N: GraphNode, E: GraphEvent>(
    state: OutputState<E>,
    links: Seq<OutCostEventLink<N, E>>,
    ignored: Option<N>,
) -> OutputState<E>
    decreases links.len(),
{
    if links.len() == 0 {
        state
    } else {
        after_record(after_records(state, links.drop_last(), ignored), links.last(), ignored)
    }
}

/// Every link of `edges` targets an output node below `n`.
pub open spec fn targets_below<IE, N: GraphNode, E: GraphEvent>(
    edges: Seq<Seq<(IE, OutCostEventLink<N, E>)>>,
    n: nat,
) -> bool {
    forall|k: int, j: int|
        0 <= k < edges.len() && 0 <= j < edges[k].len() ==> (#[trigger] edges[k][j]).1.idx.index()
            < n
}

proof fn lemma_fired_targets<IE: GraphEvent, N: GraphNode, E: GraphEvent>(
    links: Seq<(IE, OutCostEventLink<N, E>)>,
    event: IE,
    n: nat,
)
    requires
        forall|j: int| 0 <= j < links.len() ==> (#[trigger] links[j]).1.idx.index() < n,
    ensures
        forall|i: int|
            0 <= i < fired(links, event).len() ==> (#[trigger] fired(links, event)[i]).idx.index()
                < n,
    decreases links.len(),
{
    if links.len() > 0 {
        let prev = links.drop_last();
        assert forall|j: int| 0 <= j < prev.len() implies (#[trigger] prev[j]).1.idx.index() < n by {
            assert(prev[j] == links[j]);
        }
        lemma_fired_targets(prev, event, n);
        let pf = fired(prev, event);
        assert(links.last() == links[links.len() - 1]);
        assert forall|i: int| 0 <= i < fired(links, event).len() implies (#[trigger] fired(
            links,
            event,
        )[i]).idx.index() < n by {
            if i < pf.len() {
                assert(fired(links, event)[i] == pf[i]);
            } else {
                assert(fired(links, event)[i] == links.last().1);
            }
        }
    }
}

proof fn lemma_actions_targets<IN: GraphNode, IE: GraphEvent, N: GraphNode, E: GraphEvent>(
    edges: Seq<Seq<(IE, OutCostEventLink<N, E>)>>,
    pairs: Seq<(IN, IE)>,
    n: nat,
)
    requires
        targets_below(edges, n),
    ensures
        forall|i: int|
            0 <= i < actions_of(edges, pairs).len() ==> (#[trigger] actions_of(
                edges,
                pairs,
            )[i]).idx.index() < n,
    decreases pairs.len(),
{
    if pairs.len() > 0 {
        lemma_actions_targets(edges, pairs.drop_last(), n);
        let links = edges_at(edges, pairs.last().0.index() as int);
        assert forall|j: int| 0 <= j < links.len() implies (#[trigger] links[j]).1.idx.index()
            < n by {
            let k = pairs.last().0.index() as int;
            assert(edges[k][j] == links[j]);
        }
        lemma_fired_targets(links, pairs.last().1, n);
        let prev = actions_of(edges, pairs.drop_last());
        let last = fired(links, pairs.last().1);
        assert forall|i: int| 0 <= i < prev.len() + last.len() implies (#[trigger] (prev
            + last)[i]).idx.index() < n by {
            if i < prev.len() {
                assert((prev + last)[i] == prev[i]);
            } else {
                assert((prev + last)[i] == last[i - prev.len()]);
            }
        }
    }
}

/// Mutable registration data of an output aggregator: the greatest output
/// node seen.
pub struct HandlerOutputBuilder<OutNode, OutEvent> where
    OutNode: GraphNode,
    OutEvent: GraphEvent,
 {
    last_out: OutNode,
    _event: PhantomData<OutEvent>,
}

impl<OutNode, OutEvent> HandlerOutputBuilder<OutNode, OutEvent> where
    OutNode: GraphNode,
    OutEvent: GraphEvent,
 {
    /// The greatest output node index registered, or 0.
    pub closed spec fn last_index(&self) -> usize {
        self.last_out.index()
    }

    pub fn new() -> (r: Self)
        ensures
            r.last_index() == 0,
    {
        HandlerOutputBuilder { last_out: OutNode::from_index(0), _event: PhantomData }
    }

    pub fn add_node(&mut self, node: OutNode)
        ensures
            final(self).last_index() == if node.index() > old(self).last_index() {
                node.index()
            } else {
                old(self).last_index()
            },
    {
        if node.to_index() > self.last_out.to_index() {
            self.last_out = node;
        }
    }

    /// An aggregator with a null slot for each node up to the greatest one
    /// registered, and nothing queued.
    pub fn finalize(self) -> (r: HandlerOutput<OutNode, OutEvent>)
        requires
            self.last_index() < usize::MAX,
        ensures
            r.wf(),
            r.slots() == Seq::new(self.last_index() as nat + 1, |i: int| OutEvent::null_event()),
            r.queued() == nothing_queued(),
    {
        let len = self.last_out.to_index() + 1;
        let mut mode: Vec<OutEvent> = Vec::new();
        while mode.len() < len
            invariant
                mode.len() <= len,
                forall|i: int| 0 <= i < mode.len() ==> mode@[i] == OutEvent::null_event(),
            decreases len - mode.len(),
        {
            mode.push(OutEvent::null());
        }
        let r = HandlerOutput { mode, queue: queue_new(), _out_node: PhantomData };
        assert(r.slots() =~= Seq::new(len as nat, |i: int| OutEvent::null_event()));
        r
    }
}

impl<OutNode, OutEvent> Default for HandlerOutputBuilder<OutNode, OutEvent> where
    OutNode: GraphNode,
    OutEvent: GraphEvent,
 {
    fn default() -> (r: Self)
        ensures
            r.last_index() == 0,
    {
        Self::new()
    }
}

/// The output aggregator: the event accumulated for each output node since
/// it was last handed out, and the priority queue of pending nodes.
pub struct HandlerOutput<OutNode, OutEvent> where OutNode: GraphNode, OutEvent: GraphEvent {
    mode: Vec<OutEvent>,
    queue: NodeQueue,
    _out_node: PhantomData<OutNode>,
}

impl<OutNode, OutEvent> HandlerOutput<OutNode, OutEvent> where
    OutNode: GraphNode,
    OutEvent: GraphEvent,
 {
    /// The event slot of each output node index.
    pub closed spec fn slots(&self) -> Seq<OutEvent> {
        self.mode@
    }

    /// The pending output node indices, with their latest priorities.
    pub closed spec fn queued(&self) -> Map<usize, i64> {
        queue_contents(self.queue)
    }

    /// Queued nodes have a slot, and a node that is not queued has a null
    /// slot.
    pub closed spec fn wf(&self) -> bool {
        &&& forall|i: usize| #[trigger] self.queued().contains_key(i) ==> i < self.slots().len()
        &&& forall|i: usize|
            i < self.slots().len() && !self.queued().contains_key(i) ==> #[trigger] self.slots()[i as int]
                == OutEvent::null_event()
    }

    pub fn builder() -> (r: HandlerOutputBuilder<OutNode, OutEvent>)
        ensures
            r.last_index() == 0,
    {
        HandlerOutputBuilder::new()
    }

    /// Records the action `out`, unless it targets `ignored_out`.
    pub fn collect_out_event(
        &mut self,
        out: &OutCostEventLink<OutNode, OutEvent>,
        ignored_out: Option<OutNode>,
    )
        requires
            old(self).wf(),
            out.idx.index() < old(self).slots().len(),
        ensures
            final(self).wf(),
            (final(self).slots(), final(self).queued()) == after_record(
                (old(self).slots(), old(self).queued()),
                *out,
                ignored_out,
            ),
    {
        let out_node = out.idx;
        let idx = out_node.to_index();
        let ignored = match ignored_out {
            Some(ignored_node) => ignored_node.to_index() == idx,
            None => false,
        };
        proof {
            if let Some(ignored_node) = ignored_out {
                OutNode::lemma_index_injective(ignored_node, out_node);
            }
        }
        if !ignored {
            queue_push(&mut self.queue, idx, out.cost);
            let mut slot = OutEvent::null();
            self.mode.set_and_swap(idx, &mut slot);
            let merged = slot.merge(out.event);
            self.mode.set(idx, merged);
        }
    }

    /// Runs a collection round of `input` and records each action it
    /// delivers, in delivery order, unless it targets `ignored`.
    pub fn collect<InNode: GraphNode, InEvent: GraphEvent>(
        &mut self,
        input: &mut LazyInputEventHandler<InNode, InEvent, OutCostEventLink<OutNode, OutEvent>>,
        ignored: Option<OutNode>,
    )
        requires
            old(self).wf(),
            targets_below(old(input).edges(), old(self).slots().len()),
        ensures
            final(self).wf(),
            final(input).pending() == Seq::<(InNode, InEvent)>::empty(),
            final(input).edges() == old(input).edges(),
            (final(self).slots(), final(self).queued()) == after_records(
                (old(self).slots(), old(self).queued()),
                triggered(old(input).edges(), old(input).pending()),
                ignored,
            ),
    {
        let mut outs: Vec<OutCostEventLink<OutNode, OutEvent>> = Vec::new();
        input.trigger_events(&mut outs);
        let ghost len = self.slots().len();
        let ghost start = (self.slots(), self.queued());
        proof {
            lemma_actions_targets(old(input).edges(), coalesced(old(input).pending()), len);
            assert(outs@ =~= triggered(old(input).edges(), old(input).pending()));
            assert(outs@.subrange(0, 0) =~= Seq::<OutCostEventLink<OutNode, OutEvent>>::empty());
        }
        let mut i: usize = 0;
        while i < outs.len()
            invariant
                i <= outs@.len(),
                self.wf(),
                self.slots().len() == len,
                forall|j: int| 0 <= j < outs@.len() ==> (#[trigger] outs@[j]).idx.index() < len,
                (self.slots(), self.queued()) == after_records(
                    start,
                    outs@.subrange(0, i as int),
                    ignored,
                ),
            decreases outs.len() - i,
        {
            assert(outs@.subrange(0, i + 1).drop_last() =~= outs@.subrange(0, i as int));
            self.collect_out_event(&outs[i], ignored);
            i = i + 1;
        }
        assert(outs@.subrange(0, outs@.len() as int) =~= outs@);
    }

    /// Hands out a pending node of greatest priority with its accumulated
    /// event, and resets its slot to null; `None` when no node is pending.
    pub fn pop(&mut self) -> (r: Option<(OutNode, OutEvent)>)
        requires
            old(self).wf(),
        ensures
            final(self).wf(),
            (r is None) == (old(self).queued() == nothing_queued()),
            r is None ==> final(self).slots() == old(self).slots() && final(self).queued() == old(
                self,
            ).queued(),
            r is Some ==> {
                let (node, event) = r->Some_0;
                let i = node.index();
                &&& old(self).queued().contains_key(i)
                &&& forall|j: usize| #[trigger]
                    old(self).queued().contains_key(j) ==> old(self).queued()[j] <= old(
                        self,
                    ).queued()[i]
                &&& event == old(self).slots()[i as int]
                &&& final(self).slots() == old(self).slots().update(
                    i as int,
                    OutEvent::null_event(),
                )
                &&& final(self).queued() == old(self).queued().remove(i)
            },
    {
        match queue_pop(&mut self.queue) {
            None => None,
            Some((out_idx, _cost)) => {
                assert(old(self).queued().contains_key(out_idx));
                let mut event = OutEvent::null();
                self.mode.set_and_swap(out_idx, &mut event);
                assert forall|i: usize|
                    i < self.slots().len() && !self.queued().contains_key(
                        i,
                    ) implies #[trigger] self.slots()[i as int] == OutEvent::null_event() by {
                    if i != out_idx {
                        assert(!old(self).queued().contains_key(i));
                    }
                }
                Some((OutNode::from_index(out_idx), event))
            },
        }
    }
}

} // verus!
