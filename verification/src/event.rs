//! Events, effects, sinks and the kernel error taxonomy.
//!
//! An [`Event`] is a scheduled unit of work: a due virtual time, a globally
//! unique insertion sequence number, an urgency class and the action to take.
//! Events are totally ordered by `(due, urgency, sequence)`; the scheduler
//! always dispatches the least pending event first, which yields the FIFO
//! tie-break between events due at the same instant.

use vstd::prelude::*;

use crate::msg::Msg;

verus! {

/// A lightweight, copyable, non-owning handle to a registered model's
/// mailbox, used to route events and wire ports.
#[derive(Clone, Copy, PartialEq, Eq, Structural, Debug)]
pub struct Address {
    pub index: usize,
}

/// One destination of an output port's broadcast.
#[derive(Clone, Copy, PartialEq, Eq, Structural, Debug)]
pub enum Sink {
    /// Deliver to the event handler `port` of the model behind `dest`.
    Handler { dest: Address, port: u32 },
    /// Overwrite the capture slot `slot` with the broadcast value.
    Capture { slot: usize },
}

/// Where the reply of a query must go.
#[derive(Clone, Copy, PartialEq, Eq, Structural, Debug)]
pub enum ReplyTo {
    /// The query was injected from outside; the reply fills the kernel's
    /// reply slot, read by `process_query`.
    External,
    /// The query was issued by the model at `index`, which resumes through
    /// its continuation `cont` once the reply is available.
    Model { index: usize, cont: u32 },
}

/// The action an event performs when dispatched.
#[derive(Clone, Copy, PartialEq, Eq, Structural, Debug)]
pub enum EventKind {
    /// Deliver `value` to event-handler `port` of model `target`.
    /// `period > 0` makes the event re-enqueue itself `period` nanoseconds
    /// later each time it fires; `period == 0` means one-shot.
    Input { target: usize, port: u32, value: Msg, period: u64 },
    /// Run the query handler of model `target` and route the reply.
    Query { target: usize, value: Msg, reply_to: ReplyTo },
    /// Resume model `target` at continuation `cont` with the reply `value`.
    Reply { target: usize, cont: u32, value: Msg },
}

/// A scheduled unit of work.
///
/// `urgent` marks the causal cascade of the event currently resolving
/// (deliveries, queries and replies due at the current instant): urgent
/// events dispatch before every non-urgent event due at the same time, so a
/// dispatched event resolves fully before the next scheduled one begins.
/// `key` is the cancellation key: scheduled events keep the key of the
/// `schedule` call that created them across periodic re-enqueues.
#[derive(Clone, Copy, PartialEq, Eq, Structural, Debug)]
pub struct Event {
    pub due: u64,
    pub seq: u64,
    pub urgent: bool,
    pub key: u64,
    pub kind: EventKind,
}

/// Strict total order on events with distinct sequence numbers:
/// earlier due time first; at equal time urgent before non-urgent; within a
/// class, insertion (FIFO) order.
pub open spec fn key_lt(a: Event, b: Event) -> bool {
    ||| a.due < b.due
    ||| (a.due == b.due && a.urgent && !b.urgent)
    ||| (a.due == b.due && a.urgent == b.urgent && a.seq < b.seq)
}

/// Decides [`key_lt`] executably.
pub fn key_lt_exec(a: &Event, b: &Event) -> (r: bool)
    ensures
        r == key_lt(*a, *b),
{
    a.due < b.due || (a.due == b.due && a.urgent && !b.urgent)
        || (a.due == b.due && a.urgent == b.urgent && a.seq < b.seq)
}

/// A side effect requested by a model handler, applied by the kernel after
/// the handler returns.  This is the explicit, two-phase form of in-handler
/// port operations: a request suspends the issuing handler, which resumes in
/// its reply handler once the destination's reply is available.
#[derive(Clone, Copy, PartialEq, Eq, Structural, Debug)]
pub enum Effect {
    /// Broadcast `value` on output port `port` of the issuing model.
    Emit { port: u32, value: Msg },
    /// Issue `value` on requestor port `port`; the reply resumes the issuing
    /// model at continuation `cont`.
    Request { port: u32, value: Msg, cont: u32 },
    /// Self-schedule `value` on input port `port`, `delay` nanoseconds from
    /// now; `period > 0` makes it periodic.
    Schedule { delay: u64, port: u32, value: Msg, period: u64 },
}

/// The kernel error taxonomy.  Every error is returned from the offending
/// call; the kernel itself never panics.
#[derive(Clone, Copy, PartialEq, Eq, Structural, Debug)]
pub enum Error {
    /// Two models registered under the same name.
    DuplicateAddress,
    /// An event or a clock advance aimed at a time earlier than the clock.
    PastScheduling,
    /// Port wiring attempted after initialization.
    LatePortConnection,
    /// A model requested a reply from itself at the same instant.
    SelfReferentialQuery,
    /// A query whose destination can never reply: its requestor port was
    /// left unconnected, or the reply was lost to an earlier failure.
    UnresolvedQuery,
    /// The kernel ran out of event sequence numbers (a machine limit).
    SequenceExhausted,
}

} // verus!
