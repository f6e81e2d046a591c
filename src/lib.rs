//! Propagation core of an incremental change-notification engine: typed
//! change events on nodes are buffered, coalesced, matched against a static
//! watch graph, and the resulting actions are merged per destination node and
//! handed out in priority order.
use vstd::prelude::*;

pub mod adjacency;
pub mod algebra;
pub mod lazy;
pub mod output;

pub use adjacency::{AdjacentListGraph, AdjacentListGraphBuilder, GraphBuilder, VisitOutputsNode};
pub use algebra::{BitEvent, GraphEvent, GraphNode};
pub use lazy::{
    InputEventHandler, LazyInputEventGraph, LazyInputEventGraphBuilder, LazyInputEventHandler,
};
pub use output::{HandlerOutput, HandlerOutputBuilder, OutCostEventLink};

verus! {

} // verus!
