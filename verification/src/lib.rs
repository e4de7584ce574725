//! The control plane of a reconfigurable event pipeline, and read access to its records.
//!
//! [`topology_controller::TopologyController`] decides, request by request, what the
//! pipeline engine has to do, and counts the generations of its configuration;
//! [`reconciler::reload_vector`] computes the description that a request asks for;
//! [`memory_queue_client::MemoryQueueClient`] is the one consumer of the channel that a
//! sink feeds; [`model::CxxLogEvent`] gives typed, path-aware access to one record.
//!
//! The engine itself is not part of this crate: the caller performs the commands that the
//! controller gives and reports back what the engine answered.

pub mod config_event;
pub mod description;
pub mod memory_queue_client;
pub mod model;
pub mod reconciler;
pub mod text;
pub mod topology;
pub mod topology_controller;

pub use crate::model::new_cxx_log_events;

use crate::memory_queue_client::{MemoryQueueClient, ReceiverSlot};
use crate::topology_controller::{ControllerView, OneShotTopologyController, TopologyController};
use vstd::prelude::*;

verus! {

/// A controller with no pipeline, at generation zero, on the heap.
pub fn new_topology_controller() -> (controller: Box<TopologyController>)
    ensures
        controller.wf(),
        controller@ == ControllerView::initial(),
{
    Box::new(TopologyController::new())
}

/// A controller for one pipeline that runs to its end, on the heap.
pub fn new_one_shot_topology_controller() -> Box<OneShotTopologyController> {
    Box::new(OneShotTopologyController::new())
}

/// The queue client, made from the receiving end in `slot`, on the heap. To call this while
/// another client holds the receiving end is a usage error.
pub fn new_memory_queue_client(slot: &mut ReceiverSlot) -> (client: Box<MemoryQueueClient>)
    requires
        old(slot).held() is Some,
    ensures
        client.held() is Some,
        client.held() == old(slot).held(),
        final(slot).held() is None,
{
    Box::new(MemoryQueueClient::new(slot))
}

/// The queue client of a channel that was fed generated events, made from whatever lies in
/// `filled`, on the heap.
pub fn new_memory_queue_client_with_random_events(filled: &mut ReceiverSlot) -> (client: Box<
    MemoryQueueClient,
>)
    ensures
        client.held() == old(filled).held(),
        final(filled).held() is None,
{
    Box::new(MemoryQueueClient::new_with_random_events(filled))
}

} // verus!
