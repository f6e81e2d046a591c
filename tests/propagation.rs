use crusp_graph::{
    AdjacentListGraph, AdjacentListGraphBuilder, BitEvent, GraphBuilder, GraphEvent, GraphNode,
    HandlerOutput, InputEventHandler, LazyInputEventHandler, OutCostEventLink, VisitOutputsNode,
};

type Link = OutCostEventLink<usize, BitEvent>;

fn ev(bits: u64) -> BitEvent {
    BitEvent::new(bits)
}

struct Composite {
    out: HandlerOutput<usize, BitEvent>,
    in1: LazyInputEventHandler<usize, BitEvent, Link>,
    in2: LazyInputEventHandler<usize, BitEvent, Link>,
    rev1: AdjacentListGraph<usize, usize>,
    rev2: AdjacentListGraph<usize, usize>,
}

impl Composite {
    fn collect_and_pop(&mut self) -> Option<(usize, BitEvent)> {
        self.out.collect(&mut self.in1, None);
        self.out.collect(&mut self.in2, None);
        self.out.pop()
    }

    fn visit_all_in_nodes(&self, out_node: &usize, n1: &mut usize, n2: &mut usize) {
        let mut v1 = Vec::new();
        self.rev1.visit_in_nodes(out_node, &mut v1);
        *n1 += v1.len();
        let mut v2 = Vec::new();
        self.rev2.visit_in_nodes(out_node, &mut v2);
        *n2 += v2.len();
    }
}

fn build_scenario() -> Composite {
    let (oe0, oe1, oe2) = (ev(0), ev(1), ev(2));
    let (on0, on1, on2) = (0usize, 1usize, 2usize);
    let (in1, ie1, in12, ie12) = (0usize, ev(1), 1usize, ev(2));
    let (in2, ie2) = (0usize, ev(1));
    let mut out_b = HandlerOutput::<usize, BitEvent>::builder();
    let mut in1_b = LazyInputEventHandler::<usize, BitEvent, Link>::builder();
    let mut in2_b = LazyInputEventHandler::<usize, BitEvent, Link>::builder();
    let mut rev1_b: AdjacentListGraphBuilder<usize, usize> = AdjacentListGraph::builder();
    let mut rev2_b: AdjacentListGraphBuilder<usize, usize> = AdjacentListGraph::builder();
    out_b.add_node(on0);
    in1_b.add_event(in1, ie1, OutCostEventLink::new(on0, oe0, 0));
    rev1_b.add_node(&on0, &in1);
    out_b.add_node(on1);
    in1_b.add_event(in12, ie12, OutCostEventLink::new(on1, oe1, 2));
    rev1_b.add_node(&on1, &in12);
    out_b.add_node(on2);
    in2_b.add_event(in2, ie2, OutCostEventLink::new(on2, oe2, 1));
    rev2_b.add_node(&on2, &in2);
    Composite {
        out: out_b.finalize(),
        in1: LazyInputEventHandler::new(in1_b.finalize()),
        in2: LazyInputEventHandler::new(in2_b.finalize()),
        rev1: rev1_b.finalize(),
        rev2: rev2_b.finalize(),
    }
}

#[test]
fn end_to_end_scenario() {
    let mut graph = build_scenario();
    let (mut n1, mut n2) = (0usize, 0usize);
    graph.visit_all_in_nodes(&0, &mut n1, &mut n2);
    assert_eq!((n1, n2), (1, 0));
    graph.visit_all_in_nodes(&1, &mut n1, &mut n2);
    assert_eq!((n1, n2), (2, 0));
    graph.visit_all_in_nodes(&2, &mut n1, &mut n2);
    assert_eq!((n1, n2), (2, 1));

    graph.in1.notify(&0, &ev(1));
    assert_eq!(graph.collect_and_pop(), Some((0, ev(0))));
    assert_eq!(graph.collect_and_pop(), None);

    graph.in1.notify(&0, &ev(1));
    graph.in1.notify(&1, &ev(2));
    graph.in2.notify(&0, &ev(1));
    assert_eq!(graph.collect_and_pop(), Some((1, ev(1))));
    assert_eq!(graph.collect_and_pop(), Some((2, ev(2))));

    graph.in1.notify(&1, &ev(2));
    assert_eq!(graph.collect_and_pop(), Some((1, ev(1))));
    assert_eq!(graph.collect_and_pop(), Some((0, ev(0))));
    assert_eq!(graph.collect_and_pop(), None);
    assert_eq!(graph.collect_and_pop(), None);
}

#[test]
fn merge_is_associative_and_idempotent() {
    let (a, b, c) = (ev(0b0011), ev(0b0110), ev(0b1000));
    assert_eq!(a.merge(b.merge(c)), a.merge(b).merge(c));
    assert_eq!(a.merge(b.merge(c)), ev(0b1111));
    assert_eq!(a.merge(a), a);
    assert_eq!(a.merge(b), b.merge(a));
}

#[test]
fn null_is_identity_and_nullify_resets() {
    let a = ev(0b101);
    assert_eq!(a.merge(BitEvent::null()), a);
    assert!(BitEvent::null().is_null());
    assert!(!a.is_null());
    let mut slot = a;
    let prev = slot.nullify();
    assert_eq!(prev, a);
    assert!(slot.is_null());
}

#[test]
fn subsumption_is_flag_inclusion() {
    assert!(ev(0b01).is_subsumed_under(&ev(0b11)));
    assert!(!ev(0b100).is_subsumed_under(&ev(0b011)));
    assert!(BitEvent::null().is_subsumed_under(&ev(0)));
}

#[test]
fn usize_nodes_are_their_own_index() {
    assert_eq!(7usize.to_index(), 7);
    assert_eq!(<usize as GraphNode>::from_index(9), 9);
}

fn simple_handler() -> LazyInputEventHandler<usize, BitEvent, usize> {
    let mut b = LazyInputEventHandler::<usize, BitEvent, usize>::builder();
    b.add_event(2, ev(1), 20);
    b.add_event(0, ev(1), 10);
    b.add_event(2, ev(2), 21);
    b.add_event(5, ev(4), 50);
    LazyInputEventHandler::new(b.finalize())
}

#[test]
fn null_notify_is_a_no_op() {
    let mut h = simple_handler();
    assert!(!h.notify(&2, &BitEvent::null()));
    let mut out = Vec::new();
    h.trigger_events(&mut out);
    assert!(out.is_empty());
    assert!(h.notify(&2, &ev(1)));
}

#[test]
fn notifying_twice_delivers_as_notifying_the_merge() {
    let mut twice = simple_handler();
    twice.notify(&2, &ev(1));
    twice.notify(&2, &ev(2));
    let mut out_twice = Vec::new();
    twice.trigger_events(&mut out_twice);

    let mut once = simple_handler();
    once.notify(&2, &ev(1).merge(ev(2)));
    let mut out_once = Vec::new();
    once.trigger_events(&mut out_once);

    assert_eq!(out_twice, out_once);
    assert_eq!(out_once, vec![20, 21]);
}

#[test]
fn trigger_delivers_by_ascending_node_then_registration_order() {
    let mut h = simple_handler();
    h.notify(&5, &ev(4));
    h.notify(&2, &ev(1));
    h.notify(&0, &ev(1));
    h.notify(&5, &ev(1));
    let mut out = Vec::new();
    let mut looked = Vec::new();
    h.trigger_look_events(&mut out, &mut looked);
    assert_eq!(out, vec![10, 20, 21, 50]);
    assert_eq!(looked, vec![(0, ev(1)), (2, ev(1)), (5, ev(5))]);
    let mut again = Vec::new();
    h.trigger_events(&mut again);
    assert!(again.is_empty());
}

#[test]
fn node_without_links_delivers_nothing() {
    let mut h = simple_handler();
    h.notify(&1, &ev(1));
    h.notify(&40, &ev(1));
    let mut out = Vec::new();
    let mut looked = Vec::new();
    h.trigger_look_events(&mut out, &mut looked);
    assert!(out.is_empty());
    assert_eq!(looked, vec![(1, ev(1)), (40, ev(1))]);
}

#[test]
fn process_in_event_appends_passing_links() {
    let h = simple_handler();
    let mut out = vec![99];
    h.process_in_event(&2, &ev(3), &mut out);
    assert_eq!(out, vec![99, 20, 21]);
}

#[test]
fn trigger_on_empty_buffer_is_a_no_op() {
    let mut h = simple_handler();
    let mut out = vec![1];
    h.trigger_events(&mut out);
    assert_eq!(out, vec![1]);
}

fn output_with(n: usize) -> HandlerOutput<usize, BitEvent> {
    let mut b = HandlerOutput::<usize, BitEvent>::builder();
    b.add_node(n);
    b.finalize()
}

#[test]
fn pops_follow_descending_cost() {
    let mut out = output_with(2);
    out.collect_out_event(&OutCostEventLink::new(0, ev(1), 0), None);
    out.collect_out_event(&OutCostEventLink::new(1, ev(2), 2), None);
    out.collect_out_event(&OutCostEventLink::new(2, ev(4), 1), None);
    assert_eq!(out.pop(), Some((1, ev(2))));
    assert_eq!(out.pop(), Some((2, ev(4))));
    assert_eq!(out.pop(), Some((0, ev(1))));
}

#[test]
fn drained_output_keeps_returning_none() {
    let mut out = output_with(1);
    out.collect_out_event(&OutCostEventLink::new(1, ev(1), 3), None);
    assert_eq!(out.pop(), Some((1, ev(1))));
    assert_eq!(out.pop(), None);
    assert_eq!(out.pop(), None);
    out.collect_out_event(&OutCostEventLink::new(0, ev(2), 3), None);
    assert_eq!(out.pop(), Some((0, ev(2))));
    assert_eq!(out.pop(), None);
}

#[test]
fn ignored_node_is_never_queued() {
    let mut out = output_with(3);
    out.collect_out_event(&OutCostEventLink::new(3, ev(1), 100), Some(3));
    assert_eq!(out.pop(), None);
    out.collect_out_event(&OutCostEventLink::new(3, ev(1), 100), Some(2));
    assert_eq!(out.pop(), Some((3, ev(1))));
}

#[test]
fn latest_cost_wins_and_events_accumulate() {
    let mut out = output_with(1);
    out.collect_out_event(&OutCostEventLink::new(0, ev(1), 5), None);
    out.collect_out_event(&OutCostEventLink::new(1, ev(8), 0), None);
    out.collect_out_event(&OutCostEventLink::new(0, ev(2), -1), None);
    assert_eq!(out.pop(), Some((1, ev(8))));
    assert_eq!(out.pop(), Some((0, ev(3))));
    assert_eq!(out.pop(), None);
}

#[test]
fn popped_slot_is_reset() {
    let mut out = output_with(0);
    out.collect_out_event(&OutCostEventLink::new(0, ev(1), 1), None);
    assert_eq!(out.pop(), Some((0, ev(1))));
    out.collect_out_event(&OutCostEventLink::new(0, ev(4), 1), None);
    assert_eq!(out.pop(), Some((0, ev(4))));
}

#[test]
fn link_keeps_its_fields() {
    let link = OutCostEventLink::new(4usize, ev(6), -7);
    assert_eq!(link.idx, 4);
    assert_eq!(link.event, ev(6));
    assert_eq!(link.cost, -7);
}

#[test]
fn reverse_graph_lists_are_sorted_and_distinct() {
    let mut b: AdjacentListGraphBuilder<usize, usize> = AdjacentListGraph::builder();
    b.add_node(&1, &3);
    b.add_node(&1, &1);
    b.add_node(&1, &3);
    b.add_node(&1, &2);
    b.add_node(&4, &0);
    let g = b.finalize();
    let mut v = Vec::new();
    g.visit_in_nodes(&1, &mut v);
    assert_eq!(v, vec![1, 2, 3]);
    let mut none = Vec::new();
    g.visit_in_nodes(&0, &mut none);
    g.visit_in_nodes(&9, &mut none);
    assert!(none.is_empty());
    g.visit_in_nodes(&4, &mut v);
    assert_eq!(v, vec![1, 2, 3, 0]);
}
