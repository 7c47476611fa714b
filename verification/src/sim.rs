//! The scheduler and runtime: registration, wiring, initialization, and the
//! stimuli that drive the virtual clock.
//!
//! The whole observable behaviour is pinned by a spec-level interpreter:
//! [`step1`] dispatches the least pending event of an abstract state
//! [`AbsSim`], and [`stepn`] iterates it.  Every executable entry point is
//! proved to leave the simulation in a state the interpreter reaches, which
//! is what makes replays of the same stimuli deterministic.

use vstd::prelude::*;

use crate::event::{key_lt, key_lt_exec, Address, Effect, Error, Event, EventKind, ReplyTo, Sink};
use crate::models::{
    ev_step, handle_event, handle_init, handle_query, handle_reply, init_step, query_step,
    reply_step, ModelKind,
};
use crate::msg::Msg;

verus! {

/// The scheduler lifecycle: models register and ports are wired while
/// `Uninitialized`; `initialize` runs the init hooks; the first stimulus
/// moves to `Running`.
#[derive(Clone, Copy, PartialEq, Eq, Structural, Debug)]
pub enum Phase {
    Uninitialized,
    Initialized,
    Running,
}

/// The kernel-owned inbound delivery point of one registered model.
#[derive(Clone, Copy, PartialEq, Eq, Structural, Debug)]
pub struct Mailbox {
    pub name: u64,
    pub model: ModelKind,
}

/// One wiring entry of an output port: broadcasts on `(src, port)` deliver
/// to `sink`, in the order the entries were connected.
#[derive(Clone, Copy, PartialEq, Eq, Structural, Debug)]
pub struct Connection {
    pub src: usize,
    pub port: u32,
    pub sink: Sink,
}

/// One wiring entry of a requestor port: requests on `(src, port)` query the
/// model at `dest`.
#[derive(Clone, Copy, PartialEq, Eq, Structural, Debug)]
pub struct ReqConnection {
    pub src: usize,
    pub port: u32,
    pub dest: usize,
}

/// The mathematical state of a simulation: what the contracts speak about.
#[verifier::ext_equal]
pub ghost struct AbsSim {
    pub phase: Phase,
    pub clock: u64,
    pub next_seq: u64,
    pub mailboxes: Seq<Mailbox>,
    pub conns: Seq<Connection>,
    pub req_conns: Seq<ReqConnection>,
    pub queue: Seq<Event>,
    pub captures: Seq<Option<Msg>>,
    pub reply_slot: Option<Msg>,
}

/// Well-formedness of one pending event's action.
pub open spec fn kind_wf(s: AbsSim, k: EventKind) -> bool {
    match k {
        EventKind::Input { target, .. } => target < s.mailboxes.len(),
        EventKind::Query { target, reply_to, .. } => target < s.mailboxes.len() && match reply_to {
            ReplyTo::External => true,
            ReplyTo::Model { index, .. } => index < s.mailboxes.len(),
        },
        EventKind::Reply { target, .. } => target < s.mailboxes.len(),
    }
}

/// Well-formedness of one pending event: never due in the past, numbered
/// below the allocator, aimed at a registered model.  External queries are
/// due exactly now: they are injected at the current instant and resolved
/// before the stimulus returns.
pub open spec fn event_wf(s: AbsSim, e: Event) -> bool {
    &&& e.due >= s.clock
    &&& e.seq < s.next_seq
    &&& e.key < s.next_seq
    &&& kind_wf(s, e.kind)
    &&& (e.kind matches EventKind::Query { reply_to: ReplyTo::External, .. } ==> e.due
        <= s.clock)
}

/// Well-formedness of one output wiring entry.
pub open spec fn conn_wf(s: AbsSim, c: Connection) -> bool {
    &&& c.src < s.mailboxes.len()
    &&& match c.sink {
        Sink::Handler { dest, .. } => dest.index < s.mailboxes.len(),
        Sink::Capture { slot } => slot < s.captures.len(),
    }
}

/// The simulation invariant: every constructor establishes it and every
/// operation preserves it.
pub open spec fn wf(s: AbsSim) -> bool {
    &&& forall|i: int| 0 <= i < s.queue.len() ==> event_wf(s, #[trigger] s.queue[i])
    &&& forall|i: int, j: int|
        0 <= i < j < s.queue.len() ==> #[trigger] s.queue[i].seq < #[trigger] s.queue[j].seq
    &&& forall|i: int, j: int|
        0 <= i < j < s.queue.len() ==> #[trigger] s.queue[i].key != #[trigger] s.queue[j].key
    &&& forall|i: int| 0 <= i < s.conns.len() ==> conn_wf(s, #[trigger] s.conns[i])
    &&& forall|i: int|
        0 <= i < s.req_conns.len() ==> (#[trigger] s.req_conns[i]).src < s.mailboxes.len()
            && s.req_conns[i].dest < s.mailboxes.len()
    &&& (s.phase is Uninitialized ==> s.queue.len() == 0)
}

/// A fresh sequence number can still be allocated.
pub open spec fn can_alloc(s: AbsSim) -> bool {
    s.next_seq < u64::MAX
}

/// Enqueues one event, numbered by the allocator.
pub open spec fn enq(s: AbsSim, due: u64, urgent: bool, key: u64, kind: EventKind) -> AbsSim {
    AbsSim {
        queue: s.queue.push(Event { due, seq: s.next_seq, urgent, key, kind }),
        next_seq: (s.next_seq + 1) as u64,
        ..s
    }
}

/// Enqueues one event whose cancellation key is its own sequence number.
pub open spec fn enq_fresh(s: AbsSim, due: u64, urgent: bool, kind: EventKind) -> AbsSim {
    enq(s, due, urgent, s.next_seq, kind)
}

/// Replaces the model behind mailbox `idx`, keeping its name.
pub open spec fn set_model(s: AbsSim, idx: usize, m: ModelKind) -> AbsSim {
    AbsSim {
        mailboxes: s.mailboxes.update(
            idx as int,
            Mailbox { name: s.mailboxes[idx as int].name, model: m },
        ),
        ..s
    }
}

/// The index of the least pending event due at or before `t` among
/// `q[i..]`, folded against the best index seen so far (`-1` for none).
pub open spec fn pick_from(q: Seq<Event>, t: u64, i: int, best: int) -> int
    decreases q.len() - i,
{
    if i < 0 || i >= q.len() {
        best
    } else {
        let b2 = if q[i].due <= t && (best == -1 || key_lt(q[i], q[best])) {
            i
        } else {
            best
        };
        pick_from(q, t, i + 1, b2)
    }
}

/// The index of the event the scheduler dispatches next when advancing to
/// `t`, or `-1` when none is due.
pub open spec fn pick(q: Seq<Event>, t: u64) -> int {
    pick_from(q, t, 0, -1)
}

/// Nothing is due at or before `t`: the scheduler is idle.
pub open spec fn settled(s: AbsSim, t: u64) -> bool {
    pick(s.queue, t) == -1
}

/// The first requestor wiring entry of `(src, port)` in `rc[i..]`, or `-1`.
pub open spec fn req_dest_from(rc: Seq<ReqConnection>, src: usize, port: u32, i: int) -> int
    decreases rc.len() - i,
{
    if i < 0 || i >= rc.len() {
        -1
    } else if rc[i].src == src && rc[i].port == port {
        i
    } else {
        req_dest_from(rc, src, port, i + 1)
    }
}

/// Applies a broadcast to the sinks wired on `(src, port)` from entry `i`
/// on: captures are overwritten, handler sinks get an urgent delivery due
/// now, in connection order.
pub open spec fn apply_sinks(
    s: AbsSim,
    conns: Seq<Connection>,
    src: usize,
    port: u32,
    value: Msg,
    i: int,
) -> (AbsSim, Option<Error>)
    decreases conns.len() - i,
{
    if i < 0 || i >= conns.len() {
        (s, None)
    } else {
        let c = conns[i];
        if c.src == src && c.port == port {
            match c.sink {
                Sink::Capture { slot } => apply_sinks(
                    AbsSim { captures: s.captures.update(slot as int, Some(value)), ..s },
                    conns,
                    src,
                    port,
                    value,
                    i + 1,
                ),
                Sink::Handler { dest, port: dport } => {
                    if can_alloc(s) {
                        apply_sinks(
                            enq_fresh(
                                s,
                                s.clock,
                                true,
                                EventKind::Input {
                                    target: dest.index,
                                    port: dport,
                                    value,
                                    period: 0,
                                },
                            ),
                            conns,
                            src,
                            port,
                            value,
                            i + 1,
                        )
                    } else {
                        (s, Some(Error::SequenceExhausted))
                    }
                },
            }
        } else {
            apply_sinks(s, conns, src, port, value, i + 1)
        }
    }
}

/// Applies one effect requested by the model at `self_idx`.
pub open spec fn apply_effect(s: AbsSim, self_idx: usize, eff: Effect) -> (AbsSim, Option<
    Error,
>) {
    match eff {
        Effect::Emit { port, value } => apply_sinks(s, s.conns, self_idx, port, value, 0),
        Effect::Request { port, value, cont } => {
            let d = req_dest_from(s.req_conns, self_idx, port, 0);
            if d == -1 {
                (s, Some(Error::UnresolvedQuery))
            } else {
                let dest = s.req_conns[d].dest;
                if dest == self_idx {
                    (s, Some(Error::SelfReferentialQuery))
                } else if can_alloc(s) {
                    (
                        enq_fresh(
                            s,
                            s.clock,
                            true,
                            EventKind::Query {
                                target: dest,
                                value,
                                reply_to: ReplyTo::Model { index: self_idx, cont },
                            },
                        ),
                        None,
                    )
                } else {
                    (s, Some(Error::SequenceExhausted))
                }
            }
        },
        Effect::Schedule { delay, port, value, period } => {
            if s.clock + delay > u64::MAX {
                // Beyond the representable horizon: the event can never fire.
                (s, None)
            } else if can_alloc(s) {
                (
                    enq_fresh(
                        s,
                        (s.clock + delay) as u64,
                        false,
                        EventKind::Input { target: self_idx, port, value, period },
                    ),
                    None,
                )
            } else {
                (s, Some(Error::SequenceExhausted))
            }
        },
    }
}

/// Applies `effs[i..]` in order, stopping at the first failure.
pub open spec fn apply_effects(s: AbsSim, self_idx: usize, effs: Seq<Effect>, i: int) -> (
    AbsSim,
    Option<Error>,
)
    decreases effs.len() - i,
{
    if i < 0 || i >= effs.len() {
        (s, None)
    } else {
        let r = apply_effect(s, self_idx, effs[i]);
        if r.1 is Some {
            r
        } else {
            apply_effects(r.0, self_idx, effs, i + 1)
        }
    }
}

/// Dispatches one event against a state it has already been removed from,
/// with the clock set to its due time.
pub open spec fn dispatch(s: AbsSim, ev: Event) -> (AbsSim, Option<Error>) {
    match ev.kind {
        EventKind::Input { target, port, value, period } => {
            let r = ev_step(s.mailboxes[target as int].model, port, value, ev.due);
            let s1 = set_model(s, target, r.0);
            let after = apply_effects(s1, target, r.1, 0);
            if after.1 is Some {
                after
            } else if period > 0 {
                if ev.due + period > u64::MAX {
                    // The next firing is beyond the horizon: the series ends.
                    (after.0, None)
                } else if can_alloc(after.0) {
                    (enq(after.0, (ev.due + period) as u64, false, ev.key, ev.kind), None)
                } else {
                    (after.0, Some(Error::SequenceExhausted))
                }
            } else {
                after
            }
        },
        EventKind::Query { target, value, reply_to } => {
            let r = query_step(s.mailboxes[target as int].model, value, ev.due);
            let s1 = set_model(s, target, r.0);
            match reply_to {
                ReplyTo::External => (AbsSim { reply_slot: Some(r.1), ..s1 }, None),
                ReplyTo::Model { index, cont } => {
                    if can_alloc(s1) {
                        (
                            enq_fresh(
                                s1,
                                ev.due,
                                true,
                                EventKind::Reply { target: index, cont, value: r.1 },
                            ),
                            None,
                        )
                    } else {
                        (s1, Some(Error::SequenceExhausted))
                    }
                },
            }
        },
        EventKind::Reply { target, cont, value } => {
            let r = reply_step(s.mailboxes[target as int].model, cont, value, ev.due);
            let s1 = set_model(s, target, r.0);
            apply_effects(s1, target, r.1, 0)
        },
    }
}

/// One scheduler step towards `t`: dispatch the least due event, or do
/// nothing if the state is settled.
pub open spec fn step1(s: AbsSim, t: u64) -> (AbsSim, Option<Error>) {
    let k = pick(s.queue, t);
    if k == -1 {
        (s, None)
    } else {
        let ev = s.queue[k];
        let s1 = AbsSim { queue: s.queue.remove(k), clock: ev.due, ..s };
        dispatch(s1, ev)
    }
}

/// `n` scheduler steps towards `t`, stopping at the first failure.
pub open spec fn stepn(s: AbsSim, t: u64, n: nat) -> (AbsSim, Option<Error>)
    decreases n,
{
    if n == 0 {
        (s, None)
    } else {
        let r = step1(s, t);
        if r.1 is Some {
            r
        } else {
            stepn(r.0, t, (n - 1) as nat)
        }
    }
}

/// The scheduler, run from `s`, comes to rest at `s2` with everything due
/// at or before `t` dispatched.
pub open spec fn runs_to(s: AbsSim, t: u64, s2: AbsSim) -> bool {
    exists|n: nat| stepn(s, t, n) == (s2, None::<Error>) && settled(s2, t)
}

/// The scheduler, run from `s`, fails with `e` leaving state `s2`.
pub open spec fn runs_to_err(s: AbsSim, t: u64, s2: AbsSim, e: Error) -> bool {
    exists|n: nat| stepn(s, t, n) == (s2, Some(e))
}

/// A stimulus call marks the scheduler as running.
pub open spec fn stimulate(s: AbsSim) -> AbsSim {
    AbsSim { phase: Phase::Running, ..s }
}

/// The state after injecting an external event at the current instant.
pub open spec fn inject_event(s: AbsSim, dest: Address, port: u32, value: Msg) -> AbsSim {
    enq_fresh(
        s,
        s.clock,
        false,
        EventKind::Input { target: dest.index, port, value, period: 0 },
    )
}

/// The state after injecting an external query at the current instant.
pub open spec fn inject_query(s: AbsSim, dest: Address, value: Msg) -> AbsSim {
    enq_fresh(
        AbsSim { reply_slot: None, ..s },
        s.clock,
        true,
        EventKind::Query { target: dest.index, value, reply_to: ReplyTo::External },
    )
}

/// The init hooks of models `i..n` run in registration order.
pub open spec fn init_run(s: AbsSim, n: int, i: int) -> (AbsSim, Option<Error>)
    decreases n - i,
{
    if i < 0 || i >= n || i >= s.mailboxes.len() {
        (s, None)
    } else {
        let r = init_step(s.mailboxes[i].model, s.clock);
        let s1 = set_model(s, i as usize, r.0);
        let after = apply_effects(s1, i as usize, r.1, 0);
        if after.1 is Some {
            after
        } else {
            init_run(after.0, n, i + 1)
        }
    }
}


/// The executable simulation.  Its view is the abstract state [`AbsSim`];
/// [`wf`] is its invariant, established by [`Simulation::new`] and preserved
/// by every operation.
pub struct Simulation {
    phase: Phase,
    clock: u64,
    next_seq: u64,
    mailboxes: Vec<Mailbox>,
    conns: Vec<Connection>,
    req_conns: Vec<ReqConnection>,
    queue: Vec<Event>,
    captures: Vec<Option<Msg>>,
    reply_slot: Option<Msg>,
}

impl View for Simulation {
    type V = AbsSim;

    closed spec fn view(&self) -> AbsSim {
        AbsSim {
            phase: self.phase,
            clock: self.clock,
            next_seq: self.next_seq,
            mailboxes: self.mailboxes@,
            conns: self.conns@,
            req_conns: self.req_conns@,
            queue: self.queue@,
            captures: self.captures@,
            reply_slot: self.reply_slot,
        }
    }
}

/// The state of a freshly created simulation.
pub open spec fn initial_sim() -> AbsSim {
    AbsSim {
        phase: Phase::Uninitialized,
        clock: 0,
        next_seq: 0,
        mailboxes: Seq::empty(),
        conns: Seq::empty(),
        req_conns: Seq::empty(),
        queue: Seq::empty(),
        captures: Seq::empty(),
        reply_slot: None,
    }
}

/// Enqueueing a well-formed event preserves the invariant.
pub proof fn lemma_enq_wf(s: AbsSim, due: u64, urgent: bool, key: u64, kind: EventKind)
    requires
        wf(s),
        can_alloc(s),
        !(s.phase is Uninitialized),
        due >= s.clock,
        kind_wf(s, kind),
        key <= s.next_seq,
        forall|j: int| 0 <= j < s.queue.len() ==> (#[trigger] s.queue[j]).key != key,
        kind matches EventKind::Query { reply_to: ReplyTo::External, .. } ==> due <= s.clock,
    ensures
        wf(enq(s, due, urgent, key, kind)),
{
    let s2 = enq(s, due, urgent, key, kind);
    assert forall|i: int| 0 <= i < s2.queue.len() implies event_wf(s2, #[trigger] s2.queue[i]) by {
        if i < s.queue.len() {
            assert(event_wf(s, s.queue[i]));
        }
    }
    assert forall|i: int| 0 <= i < s2.conns.len() implies conn_wf(s2, #[trigger] s2.conns[i]) by {
        assert(conn_wf(s, s.conns[i]));
    }
}

impl Simulation {
    /// A fresh, uninitialized simulation with the clock at zero.
    pub fn new() -> (s: Simulation)
        ensures
            s@ == initial_sim(),
            wf(s@),
    {
        let s = Simulation {
            phase: Phase::Uninitialized,
            clock: 0,
            next_seq: 0,
            mailboxes: Vec::new(),
            conns: Vec::new(),
            req_conns: Vec::new(),
            queue: Vec::new(),
            captures: Vec::new(),
            reply_slot: None,
        };
        proof {
            assert(s@ =~= initial_sim());
        }
        s
    }

    /// The current virtual time, in nanoseconds.
    pub fn time(&self) -> (t: u64)
        ensures
            t == self@.clock,
    {
        self.clock
    }

    /// Registers a model under `name`, creating its mailbox; its address is
    /// returned.  Fails (leaving the simulation unchanged) exactly when the
    /// name is already taken.
    pub fn register(&mut self, model: ModelKind, name: u64) -> (r: Result<Address, Error>)
        requires
            wf(old(self)@),
            old(self)@.phase is Uninitialized,
        ensures
            wf(final(self)@),
            final(self)@.phase is Uninitialized,
            match r {
                Ok(addr) => {
                    &&& forall|i: int|
                        0 <= i < old(self)@.mailboxes.len() ==> (#[trigger] old(
                            self,
                        )@.mailboxes[i]).name != name
                    &&& addr.index == old(self)@.mailboxes.len()
                    &&& final(self)@ == (AbsSim {
                        mailboxes: old(self)@.mailboxes.push(Mailbox { name, model }),
                        ..old(self)@
                    })
                },
                Err(e) => {
                    &&& e == Error::DuplicateAddress
                    &&& exists|i: int|
                        0 <= i < old(self)@.mailboxes.len() && (#[trigger] old(
                            self,
                        )@.mailboxes[i]).name == name
                    &&& final(self)@ == old(self)@
                },
            },
    {
        let n = self.mailboxes.len();
        let mut i: usize = 0;
        while i < n
            invariant
                n == self.mailboxes.len(),
                i <= n,
                self@ == old(self)@,
                wf(self@),
                self@.phase is Uninitialized,
                forall|j: int| 0 <= j < i ==> (#[trigger] self.mailboxes@[j]).name != name,
            decreases n - i,
        {
            if self.mailboxes[i].name == name {
                return Err(Error::DuplicateAddress);
            }
            i = i + 1;
        }
        let addr = Address { index: self.mailboxes.len() };
        self.mailboxes.push(Mailbox { name, model });
        proof {
            let s0 = old(self)@;
            let s2 = self@;
            assert(s2 =~= (AbsSim { mailboxes: s0.mailboxes.push(Mailbox { name, model }), ..s0 }));
            assert forall|k: int| 0 <= k < s2.conns.len() implies conn_wf(s2, #[trigger] s2.conns[k])
            by {
                assert(conn_wf(s0, s0.conns[k]));
            }
            assert forall|k: int| 0 <= k < s2.queue.len() implies event_wf(s2, #[trigger] s2.queue[k])
            by {
                assert(event_wf(s0, s0.queue[k]));
            }
        }
        Ok(addr)
    }

    /// Connects output `port` of the model at `src` to event-handler
    /// `dest_port` of the model at `dest`.  Wiring is legal only before
    /// initialization; afterwards the call fails and changes nothing.
    pub fn connect(&mut self, src: Address, port: u32, dest: Address, dest_port: u32) -> (r:
        Result<(), Error>)
        requires
            wf(old(self)@),
            src.index < old(self)@.mailboxes.len(),
            dest.index < old(self)@.mailboxes.len(),
        ensures
            wf(final(self)@),
            match r {
                Ok(()) => old(self)@.phase is Uninitialized && final(self)@ == (AbsSim {
                    conns: old(self)@.conns.push(
                        Connection {
                            src: src.index,
                            port,
                            sink: Sink::Handler { dest, port: dest_port },
                        },
                    ),
                    ..old(self)@
                }),
                Err(e) => e == Error::LatePortConnection && !(old(self)@.phase is Uninitialized)
                    && final(self)@ == old(self)@,
            },
    {
        if !matches!(self.phase, Phase::Uninitialized) {
            return Err(Error::LatePortConnection);
        }
        self.conns.push(
            Connection { src: src.index, port, sink: Sink::Handler { dest, port: dest_port } },
        );
        proof {
            let s0 = old(self)@;
            let s2 = self@;
            assert forall|k: int| 0 <= k < s2.conns.len() implies conn_wf(s2, #[trigger] s2.conns[k])
            by {
                if k < s0.conns.len() {
                    assert(conn_wf(s0, s0.conns[k]));
                }
            }
        }
        Ok(())
    }

    /// Connects output `port` of the model at `src` to the capture slot
    /// `slot`.  Wiring is legal only before initialization.
    pub fn connect_sink(&mut self, src: Address, port: u32, slot: usize) -> (r: Result<(), Error>)
        requires
            wf(old(self)@),
            src.index < old(self)@.mailboxes.len(),
            slot < old(self)@.captures.len(),
        ensures
            wf(final(self)@),
            match r {
                Ok(()) => old(self)@.phase is Uninitialized && final(self)@ == (AbsSim {
                    conns: old(self)@.conns.push(
                        Connection { src: src.index, port, sink: Sink::Capture { slot } },
                    ),
                    ..old(self)@
                }),
                Err(e) => e == Error::LatePortConnection && !(old(self)@.phase is Uninitialized)
                    && final(self)@ == old(self)@,
            },
    {
        if !matches!(self.phase, Phase::Uninitialized) {
            return Err(Error::LatePortConnection);
        }
        self.conns.push(Connection { src: src.index, port, sink: Sink::Capture { slot } });
        proof {
            let s0 = old(self)@;
            let s2 = self@;
            assert forall|k: int| 0 <= k < s2.conns.len() implies conn_wf(s2, #[trigger] s2.conns[k])
            by {
                if k < s0.conns.len() {
                    assert(conn_wf(s0, s0.conns[k]));
                }
            }
        }
        Ok(())
    }

    /// Binds requestor `port` of the model at `src` to the query handler of
    /// the model at `dest`.  Wiring is legal only before initialization.
    pub fn connect_requestor(&mut self, src: Address, port: u32, dest: Address) -> (r: Result<
        (),
        Error,
    >)
        requires
            wf(old(self)@),
            src.index < old(self)@.mailboxes.len(),
            dest.index < old(self)@.mailboxes.len(),
        ensures
            wf(final(self)@),
            match r {
                Ok(()) => old(self)@.phase is Uninitialized && final(self)@ == (AbsSim {
                    req_conns: old(self)@.req_conns.push(
                        ReqConnection { src: src.index, port, dest: dest.index },
                    ),
                    ..old(self)@
                }),
                Err(e) => e == Error::LatePortConnection && !(old(self)@.phase is Uninitialized)
                    && final(self)@ == old(self)@,
            },
    {
        if !matches!(self.phase, Phase::Uninitialized) {
            return Err(Error::LatePortConnection);
        }
        self.req_conns.push(ReqConnection { src: src.index, port, dest: dest.index });
        proof {
            let s0 = old(self)@;
            let s2 = self@;
            assert forall|k: int| 0 <= k < s2.conns.len() implies conn_wf(s2, #[trigger] s2.conns[k])
            by {
                assert(conn_wf(s0, s0.conns[k]));
            }
        }
        Ok(())
    }

    /// Creates a fresh single-slot capture sink and returns its slot number.
    pub fn add_capture(&mut self) -> (slot: usize)
        requires
            wf(old(self)@),
        ensures
            wf(final(self)@),
            slot == old(self)@.captures.len(),
            final(self)@ == (AbsSim { captures: old(self)@.captures.push(None), ..old(self)@ }),
    {
        let slot = self.captures.len();
        self.captures.push(None);
        proof {
            let s0 = old(self)@;
            let s2 = self@;
            assert forall|k: int| 0 <= k < s2.conns.len() implies conn_wf(s2, #[trigger] s2.conns[k])
            by {
                assert(conn_wf(s0, s0.conns[k]));
            }
            assert forall|k: int| 0 <= k < s2.queue.len() implies event_wf(s2, #[trigger] s2.queue[k])
            by {
                assert(event_wf(s0, s0.queue[k]));
            }
        }
        slot
    }

    /// Consumes the most recent value broadcast into capture slot `slot`:
    /// the slot is left empty, so each observed value is read exactly once.
    pub fn next(&mut self, slot: usize) -> (r: Option<Msg>)
        requires
            wf(old(self)@),
            slot < old(self)@.captures.len(),
        ensures
            wf(final(self)@),
            r == old(self)@.captures[slot as int],
            final(self)@ == (AbsSim {
                captures: old(self)@.captures.update(slot as int, None),
                ..old(self)@
            }),
    {
        let v = self.captures[slot];
        self.captures[slot] = None;
        proof {
            let s0 = old(self)@;
            let s2 = self@;
            assert forall|k: int| 0 <= k < s2.conns.len() implies conn_wf(s2, #[trigger] s2.conns[k])
            by {
                assert(conn_wf(s0, s0.conns[k]));
            }
            assert forall|k: int| 0 <= k < s2.queue.len() implies event_wf(s2, #[trigger] s2.queue[k])
            by {
                assert(event_wf(s0, s0.queue[k]));
            }
        }
        v
    }

    /// Pushes one event, numbering it with the next sequence number.
    fn enq_exec(&mut self, due: u64, urgent: bool, key: u64, kind: EventKind)
        requires
            can_alloc(old(self)@),
        ensures
            final(self)@ == enq(old(self)@, due, urgent, key, kind),
    {
        let seq_no = self.next_seq;
        self.queue.push(Event { due, seq: seq_no, urgent, key, kind });
        self.next_seq = self.next_seq + 1;
        proof {
            assert(self@ =~= enq(old(self)@, due, urgent, key, kind));
        }
    }

    /// Schedules a one-shot event for virtual time `at`, returning its
    /// cancellation key.  Fails with `PastScheduling` (and changes nothing)
    /// exactly when `at` lies before the current clock.
    pub fn schedule_event(&mut self, at: u64, dest: Address, port: u32, value: Msg) -> (r: Result<
        u64,
        Error,
    >)
        requires
            wf(old(self)@),
            !(old(self)@.phase is Uninitialized),
            dest.index < old(self)@.mailboxes.len(),
        ensures
            wf(final(self)@),
            match r {
                Ok(key) => at >= old(self)@.clock && can_alloc(old(self)@) && key == old(
                    self,
                )@.next_seq && final(self)@ == enq_fresh(
                    old(self)@,
                    at,
                    false,
                    EventKind::Input { target: dest.index, port, value, period: 0 },
                ),
                Err(e) => final(self)@ == old(self)@ && ((e == Error::PastScheduling && at < old(
                    self,
                )@.clock) || (e == Error::SequenceExhausted && at >= old(self)@.clock && !can_alloc(
                    old(self)@,
                ))),
            },
    {
        if at < self.clock {
            return Err(Error::PastScheduling);
        }
        if self.next_seq == u64::MAX {
            return Err(Error::SequenceExhausted);
        }
        let key = self.next_seq;
        let kind = EventKind::Input { target: dest.index, port, value, period: 0 };
        proof {
            assert forall|j: int|
                0 <= j < old(self)@.queue.len() implies (#[trigger] old(self)@.queue[j]).key != old(
                self,
            )@.next_seq by {
                assert(event_wf(old(self)@, old(self)@.queue[j]));
            }
            lemma_enq_wf(old(self)@, at, false, old(self)@.next_seq, kind);
        }
        self.enq_exec(at, false, key, kind);
        Ok(key)
    }

    /// Schedules an event for virtual time `at` that re-fires every
    /// `period` nanoseconds until cancelled, returning its cancellation key.
    pub fn schedule_periodic_event(
        &mut self,
        at: u64,
        period: u64,
        dest: Address,
        port: u32,
        value: Msg,
    ) -> (r: Result<u64, Error>)
        requires
            wf(old(self)@),
            !(old(self)@.phase is Uninitialized),
            dest.index < old(self)@.mailboxes.len(),
            period >= 1,
        ensures
            wf(final(self)@),
            match r {
                Ok(key) => at >= old(self)@.clock && can_alloc(old(self)@) && key == old(
                    self,
                )@.next_seq && final(self)@ == enq_fresh(
                    old(self)@,
                    at,
                    false,
                    EventKind::Input { target: dest.index, port, value, period },
                ),
                Err(e) => final(self)@ == old(self)@ && ((e == Error::PastScheduling && at < old(
                    self,
                )@.clock) || (e == Error::SequenceExhausted && at >= old(self)@.clock && !can_alloc(
                    old(self)@,
                ))),
            },
    {
        if at < self.clock {
            return Err(Error::PastScheduling);
        }
        if self.next_seq == u64::MAX {
            return Err(Error::SequenceExhausted);
        }
        let key = self.next_seq;
        let kind = EventKind::Input { target: dest.index, port, value, period };
        proof {
            assert forall|j: int|
                0 <= j < old(self)@.queue.len() implies (#[trigger] old(self)@.queue[j]).key != old(
                self,
            )@.next_seq by {
                assert(event_wf(old(self)@, old(self)@.queue[j]));
            }
            lemma_enq_wf(old(self)@, at, false, old(self)@.next_seq, kind);
        }
        self.enq_exec(at, false, key, kind);
        Ok(key)
    }

    /// Cancels the pending scheduled event carrying `key`, if it has not
    /// fired yet; afterwards no pending event carries the key, so a
    /// periodic series stops.  Returns whether anything was cancelled.
    pub fn cancel(&mut self, key: u64) -> (found: bool)
        requires
            wf(old(self)@),
        ensures
            wf(final(self)@),
            found ==> exists|i: int|
                0 <= i < old(self)@.queue.len() && (#[trigger] old(self)@.queue[i]).key == key
                    && final(self)@ == (AbsSim { queue: old(self)@.queue.remove(i), ..old(self)@ }),
            !found ==> final(self)@ == old(self)@ && forall|i: int|
                0 <= i < old(self)@.queue.len() ==> (#[trigger] old(self)@.queue[i]).key != key,
            forall|i: int|
                0 <= i < final(self)@.queue.len() ==> (#[trigger] final(self)@.queue[i]).key != key,
    {
        let n = self.queue.len();
        let mut i: usize = 0;
        while i < n
            invariant
                n == self.queue.len(),
                i <= n,
                wf(self@),
                self@ == old(self)@,
                forall|j: int| 0 <= j < i ==> (#[trigger] self.queue@[j]).key != key,
            decreases n - i,
        {
            if self.queue[i].key == key {
                let ghost s0 = self@;
                let ghost ii = i as int;
                self.queue.remove(i);
                proof {
                    s0.queue.remove_ensures(ii);
                    assert(self@ =~= (AbsSim { queue: s0.queue.remove(ii), ..s0 }));
                    let s2 = self@;
                    assert forall|k: int|
                        0 <= k < s2.queue.len() implies event_wf(s2, #[trigger] s2.queue[k]) by {
                        if k < ii {
                            assert(s2.queue[k] == s0.queue[k]);
                            assert(event_wf(s0, s0.queue[k]));
                        } else {
                            assert(s2.queue[k] == s0.queue[k + 1]);
                            assert(event_wf(s0, s0.queue[k + 1]));
                        }
                    }
                    assert forall|k: int, j: int|
                        0 <= k < j < s2.queue.len() implies #[trigger] s2.queue[k].seq
                        < #[trigger] s2.queue[j].seq by {
                        let k0 = if k < ii { k } else { k + 1 };
                        let j0 = if j < ii { j } else { j + 1 };
                        assert(s2.queue[k] == s0.queue[k0]);
                        assert(s2.queue[j] == s0.queue[j0]);
                    }
                    assert forall|k: int, j: int|
                        0 <= k < j < s2.queue.len() implies #[trigger] s2.queue[k].key
                        != #[trigger] s2.queue[j].key by {
                        let k0 = if k < ii { k } else { k + 1 };
                        let j0 = if j < ii { j } else { j + 1 };
                        assert(s2.queue[k] == s0.queue[k0]);
                        assert(s2.queue[j] == s0.queue[j0]);
                    }
                    assert forall|k: int|
                        0 <= k < s2.queue.len() implies (#[trigger] s2.queue[k]).key != key by {
                        let k0 = if k < ii { k } else { k + 1 };
                        assert(s2.queue[k] == s0.queue[k0]);
                        if k0 > ii {
                            assert(s0.queue[ii].key != s0.queue[k0].key);
                        }
                    }
                    assert forall|k: int|
                        0 <= k < s2.conns.len() implies conn_wf(s2, #[trigger] s2.conns[k]) by {
                        assert(conn_wf(s0, s0.conns[k]));
                    }
                }
                return true;
            }
            i = i + 1;
        }
        false
    }
}


/// No pending event is an externally injected query.
pub open spec fn no_ext_query(q: Seq<Event>) -> bool {
    forall|i: int|
        0 <= i < q.len() ==> !((#[trigger] q[i]).kind matches EventKind::Query {
            reply_to: ReplyTo::External,
            ..
        })
}

/// `q1` extends `q0`: the old events are untouched and every new event is
/// numbered and keyed at or above `fresh_from`.
pub open spec fn queue_extends(q0: Seq<Event>, q1: Seq<Event>, fresh_from: u64) -> bool {
    &&& q1.len() >= q0.len()
    &&& forall|j: int| 0 <= j < q0.len() ==> q1[j] == q0[j]
    &&& forall|j: int|
        q0.len() <= j < q1.len() ==> (#[trigger] q1[j]).key >= fresh_from && q1[j].seq
            >= fresh_from
}

/// What effect application leaves untouched, and how the allocator relates
/// to queue growth (the scheduler's termination metric).
pub open spec fn effect_frame(s0: AbsSim, s: AbsSim) -> bool {
    &&& s.phase == s0.phase
    &&& s.clock == s0.clock
    &&& s.conns == s0.conns
    &&& s.req_conns == s0.req_conns
    &&& s.mailboxes.len() == s0.mailboxes.len()
    &&& s.captures.len() == s0.captures.len()
    &&& s.reply_slot == s0.reply_slot
    &&& s.next_seq >= s0.next_seq
    &&& (s.next_seq == s0.next_seq ==> s.queue == s0.queue)
    &&& queue_extends(s0.queue, s.queue, s0.next_seq)
    &&& no_ext_query(s0.queue) ==> no_ext_query(s.queue)
}

/// The scan for the least due event returns `-1` exactly when nothing in
/// the whole queue is due, and otherwise an index whose event is due and
/// minimal in the event order.
pub proof fn lemma_pick_from_props(q: Seq<Event>, t: u64, i: int, best: int)
    requires
        0 <= i <= q.len(),
        best == -1 ==> forall|j: int| 0 <= j < i ==> (#[trigger] q[j]).due > t,
        best != -1 ==> 0 <= best < i && q[best].due <= t && forall|j: int|
            0 <= j < i && (#[trigger] q[j]).due <= t && j != best ==> !key_lt(q[j], q[best]),
    ensures
        pick_from(q, t, i, best) == -1 ==> forall|j: int|
            0 <= j < q.len() ==> (#[trigger] q[j]).due > t,
        pick_from(q, t, i, best) != -1 ==> {
            let r = pick_from(q, t, i, best);
            &&& 0 <= r < q.len()
            &&& q[r].due <= t
            &&& forall|j: int|
                0 <= j < q.len() && (#[trigger] q[j]).due <= t && j != r ==> !key_lt(q[j], q[r])
        },
    decreases q.len() - i,
{
    if i >= q.len() {
    } else {
        let b2 = if q[i].due <= t && (best == -1 || key_lt(q[i], q[best])) {
            i
        } else {
            best
        };
        if b2 == i {
            assert forall|j: int|
                0 <= j < i + 1 && (#[trigger] q[j]).due <= t && j != i implies !key_lt(
                q[j],
                q[i],
            ) by {
                if best != -1 {
                    assert(!key_lt(q[j], q[best]));
                    assert(key_lt(q[i], q[best]));
                }
            }
        }
        lemma_pick_from_props(q, t, i + 1, b2);
    }
}

/// The requestor wiring scan returns `-1` or a matching entry.
pub proof fn lemma_req_dest_from_props(rc: Seq<ReqConnection>, src: usize, port: u32, i: int)
    requires
        0 <= i,
    ensures
        req_dest_from(rc, src, port, i) == -1 || (i <= req_dest_from(rc, src, port, i) < rc.len()
            && rc[req_dest_from(rc, src, port, i)].src == src && rc[req_dest_from(
            rc,
            src,
            port,
            i,
        )].port == port),
    decreases rc.len() - i,
{
    if i < rc.len() && !(rc[i].src == src && rc[i].port == port) {
        lemma_req_dest_from_props(rc, src, port, i + 1);
    }
}

/// Broadcast application preserves the invariant and the frame.
pub proof fn lemma_apply_sinks_props(
    s: AbsSim,
    conns: Seq<Connection>,
    src: usize,
    port: u32,
    value: Msg,
    i: int,
)
    requires
        wf(s),
        conns == s.conns,
        !(s.phase is Uninitialized),
    ensures
        wf(apply_sinks(s, conns, src, port, value, i).0),
        effect_frame(s, apply_sinks(s, conns, src, port, value, i).0),
    decreases conns.len() - i,
{
    if i < 0 || i >= conns.len() {
    } else {
        let c = conns[i];
        if c.src == src && c.port == port {
            match c.sink {
                Sink::Capture { slot } => {
                    let s1 = AbsSim {
                        captures: s.captures.update(slot as int, Some(value)),
                        ..s
                    };
                    assert(conn_wf(s, c));
                    assert forall|k: int|
                        0 <= k < s1.queue.len() implies event_wf(s1, #[trigger] s1.queue[k]) by {
                        assert(event_wf(s, s.queue[k]));
                    }
                    assert forall|k: int|
                        0 <= k < s1.conns.len() implies conn_wf(s1, #[trigger] s1.conns[k]) by {
                        assert(conn_wf(s, s.conns[k]));
                    }
                    lemma_apply_sinks_props(s1, conns, src, port, value, i + 1);
                },
                Sink::Handler { dest, port: dport } => {
                    if can_alloc(s) {
                        assert(conn_wf(s, c));
                        let kind = EventKind::Input {
                            target: dest.index,
                            port: dport,
                            value,
                            period: 0,
                        };
                        assert forall|j: int|
                            0 <= j < s.queue.len() implies (#[trigger] s.queue[j]).key
                            != s.next_seq by {
                            assert(event_wf(s, s.queue[j]));
                        }
                        lemma_enq_wf(s, s.clock, true, s.next_seq, kind);
                        let s1 = enq_fresh(s, s.clock, true, kind);
                        lemma_apply_sinks_props(s1, conns, src, port, value, i + 1);
                    }
                },
            }
        } else {
            lemma_apply_sinks_props(s, conns, src, port, value, i + 1);
        }
    }
}

/// One effect application preserves the invariant and the frame.
pub proof fn lemma_apply_effect_props(s: AbsSim, self_idx: usize, eff: Effect)
    requires
        wf(s),
        self_idx < s.mailboxes.len(),
        !(s.phase is Uninitialized),
    ensures
        wf(apply_effect(s, self_idx, eff).0),
        effect_frame(s, apply_effect(s, self_idx, eff).0),
{
    match eff {
        Effect::Emit { port, value } => {
            lemma_apply_sinks_props(s, s.conns, self_idx, port, value, 0);
        },
        Effect::Request { port, value, cont } => {
            lemma_req_dest_from_props(s.req_conns, self_idx, port, 0);
            let d = req_dest_from(s.req_conns, self_idx, port, 0);
            if d != -1 {
                let dest = s.req_conns[d].dest;
                if dest != self_idx && can_alloc(s) {
                    let kind = EventKind::Query {
                        target: dest,
                        value,
                        reply_to: ReplyTo::Model { index: self_idx, cont },
                    };
                    assert forall|j: int|
                        0 <= j < s.queue.len() implies (#[trigger] s.queue[j]).key != s.next_seq by {
                        assert(event_wf(s, s.queue[j]));
                    }
                    lemma_enq_wf(s, s.clock, true, s.next_seq, kind);
                }
            }
        },
        Effect::Schedule { delay, port, value, period } => {
            if s.clock + delay <= u64::MAX && can_alloc(s) {
                let kind = EventKind::Input { target: self_idx, port, value, period };
                assert forall|j: int|
                    0 <= j < s.queue.len() implies (#[trigger] s.queue[j]).key != s.next_seq by {
                    assert(event_wf(s, s.queue[j]));
                }
                lemma_enq_wf(s, (s.clock + delay) as u64, false, s.next_seq, kind);
            }
        },
    }
}

/// Effect-list application preserves the invariant and the frame.
pub proof fn lemma_apply_effects_props(s: AbsSim, self_idx: usize, effs: Seq<Effect>, i: int)
    requires
        wf(s),
        self_idx < s.mailboxes.len(),
        !(s.phase is Uninitialized),
    ensures
        wf(apply_effects(s, self_idx, effs, i).0),
        effect_frame(s, apply_effects(s, self_idx, effs, i).0),
    decreases effs.len() - i,
{
    if i < 0 || i >= effs.len() {
    } else {
        lemma_apply_effect_props(s, self_idx, effs[i]);
        let r = apply_effect(s, self_idx, effs[i]);
        if !(r.1 is Some) {
            lemma_apply_effects_props(r.0, self_idx, effs, i + 1);
        }
    }
}

/// Replacing a model preserves the invariant and every structural fact.
pub proof fn lemma_set_model_wf(s: AbsSim, idx: usize, m: ModelKind)
    requires
        wf(s),
        idx < s.mailboxes.len(),
    ensures
        wf(set_model(s, idx, m)),
{
    let s1 = set_model(s, idx, m);
    assert forall|k: int| 0 <= k < s1.queue.len() implies event_wf(s1, #[trigger] s1.queue[k]) by {
        assert(event_wf(s, s.queue[k]));
    }
    assert forall|k: int| 0 <= k < s1.conns.len() implies conn_wf(s1, #[trigger] s1.conns[k]) by {
        assert(conn_wf(s, s.conns[k]));
    }
}

/// Dispatching one removed event preserves the invariant; the reply slot
/// moves only for an external query, and then it takes exactly the reply
/// that the target's query handler computes at the event's due time.
pub proof fn lemma_dispatch_props(s: AbsSim, ev: Event)
    requires
        wf(s),
        kind_wf(s, ev.kind),
        s.clock == ev.due,
        !(s.phase is Uninitialized),
        ev.key < s.next_seq,
        forall|j: int| 0 <= j < s.queue.len() ==> (#[trigger] s.queue[j]).key != ev.key,
    ensures
        ({
            let (s2, e) = dispatch(s, ev);
            &&& wf(s2)
            &&& s2.phase == s.phase
            &&& s2.clock == s.clock
            &&& s2.conns == s.conns
            &&& s2.req_conns == s.req_conns
            &&& s2.mailboxes.len() == s.mailboxes.len()
            &&& s2.captures.len() == s.captures.len()
            &&& s2.next_seq >= s.next_seq
            &&& (s2.next_seq == s.next_seq ==> s2.queue == s.queue)
            &&& (no_ext_query(s.queue) ==> no_ext_query(s2.queue))
            &&& (!(ev.kind matches EventKind::Query { reply_to: ReplyTo::External, .. })
                ==> s2.reply_slot == s.reply_slot)
            &&& (match ev.kind {
                EventKind::Query { target, value, reply_to: ReplyTo::External } => e is None
                    && s2.queue == s.queue && s2.reply_slot == Some(
                    query_step(s.mailboxes[target as int].model, value, ev.due).1,
                ),
                _ => true,
            })
        }),
{
    match ev.kind {
        EventKind::Input { target, port, value, period } => {
            let r = ev_step(s.mailboxes[target as int].model, port, value, ev.due);
            let s1 = set_model(s, target, r.0);
            lemma_set_model_wf(s, target, r.0);
            lemma_apply_effects_props(s1, target, r.1, 0);
            let after = apply_effects(s1, target, r.1, 0);
            if after.1 is None && period > 0 && ev.due + period <= u64::MAX && can_alloc(after.0) {
                assert forall|j: int|
                    0 <= j < after.0.queue.len() implies (#[trigger] after.0.queue[j]).key
                    != ev.key by {
                    if j < s.queue.len() {
                        assert(after.0.queue[j] == s.queue[j]);
                    }
                }
                lemma_enq_wf(
                    after.0,
                    (ev.due + period) as u64,
                    false,
                    ev.key,
                    ev.kind,
                );
            }
        },
        EventKind::Query { target, value, reply_to } => {
            let r = query_step(s.mailboxes[target as int].model, value, ev.due);
            let s1 = set_model(s, target, r.0);
            lemma_set_model_wf(s, target, r.0);
            match reply_to {
                ReplyTo::External => {
                    let s2 = AbsSim { reply_slot: Some(r.1), ..s1 };
                    assert forall|k: int|
                        0 <= k < s2.queue.len() implies event_wf(s2, #[trigger] s2.queue[k]) by {
                        assert(event_wf(s1, s1.queue[k]));
                    }
                    assert forall|k: int|
                        0 <= k < s2.conns.len() implies conn_wf(s2, #[trigger] s2.conns[k]) by {
                        assert(conn_wf(s1, s1.conns[k]));
                    }
                },
                ReplyTo::Model { index, cont } => {
                    if can_alloc(s1) {
                        let kind = EventKind::Reply { target: index, cont, value: r.1 };
                        assert forall|j: int|
                            0 <= j < s1.queue.len() implies (#[trigger] s1.queue[j]).key
                            != s1.next_seq by {
                            assert(event_wf(s1, s1.queue[j]));
                        }
                        lemma_enq_wf(s1, ev.due, true, s1.next_seq, kind);
                    }
                },
            }
        },
        EventKind::Reply { target, cont, value } => {
            let r = reply_step(s.mailboxes[target as int].model, cont, value, ev.due);
            let s1 = set_model(s, target, r.0);
            lemma_set_model_wf(s, target, r.0);
            lemma_apply_effects_props(s1, target, r.1, 0);
        },
    }
}

/// One scheduler step preserves the invariant, never moves the clock
/// backwards (nor past the target), and shrinks the termination metric
/// `(sequence numbers left, queue length)` whenever it does anything.
pub proof fn lemma_step1_props(s: AbsSim, t: u64)
    requires
        wf(s),
    ensures
        ({
            let (s2, e) = step1(s, t);
            &&& wf(s2)
            &&& s2.phase == s.phase
            &&& s2.conns == s.conns
            &&& s2.req_conns == s.req_conns
            &&& s2.mailboxes.len() == s.mailboxes.len()
            &&& s2.captures.len() == s.captures.len()
            &&& s.clock <= s2.clock
            &&& (settled(s, t) ==> s2 == s && e is None)
            &&& (!settled(s, t) ==> s2.clock <= t && (s2.next_seq > s.next_seq || (s2.next_seq
                == s.next_seq && s2.queue.len() < s.queue.len())))
            &&& (no_ext_query(s.queue) ==> no_ext_query(s2.queue) && s2.reply_slot
                == s.reply_slot)
        }),
{
    lemma_pick_from_props(s.queue, t, 0, -1);
    let k = pick(s.queue, t);
    if k != -1 {
        let ev = s.queue[k];
        assert(event_wf(s, ev));
        let s1 = AbsSim { queue: s.queue.remove(k), clock: ev.due, ..s };
        s.queue.remove_ensures(k);
        // Remaining events are still due at or after the new clock: the
        // dispatched event is minimal among everything due by `t`.
        assert forall|j: int|
            0 <= j < s1.queue.len() implies event_wf(s1, #[trigger] s1.queue[j]) by {
            let j0 = if j < k {
                j
            } else {
                j + 1
            };
            assert(s1.queue[j] == s.queue[j0]);
            assert(event_wf(s, s.queue[j0]));
            if s.queue[j0].due <= t {
                assert(!key_lt(s.queue[j0], ev));
            }
        }
        assert forall|i: int, j: int|
            0 <= i < j < s1.queue.len() implies #[trigger] s1.queue[i].seq
            < #[trigger] s1.queue[j].seq by {
            let i0 = if i < k {
                i
            } else {
                i + 1
            };
            let j0 = if j < k {
                j
            } else {
                j + 1
            };
            assert(s1.queue[i] == s.queue[i0]);
            assert(s1.queue[j] == s.queue[j0]);
        }
        assert forall|i: int, j: int|
            0 <= i < j < s1.queue.len() implies #[trigger] s1.queue[i].key
            != #[trigger] s1.queue[j].key by {
            let i0 = if i < k {
                i
            } else {
                i + 1
            };
            let j0 = if j < k {
                j
            } else {
                j + 1
            };
            assert(s1.queue[i] == s.queue[i0]);
            assert(s1.queue[j] == s.queue[j0]);
        }
        assert forall|j: int| 0 <= j < s1.conns.len() implies conn_wf(s1, #[trigger] s1.conns[j]) by {
            assert(conn_wf(s, s.conns[j]));
        }
        assert(!(s.phase is Uninitialized));
        assert forall|j: int|
            0 <= j < s1.queue.len() implies (#[trigger] s1.queue[j]).key != ev.key by {
            let j0 = if j < k {
                j
            } else {
                j + 1
            };
            assert(s1.queue[j] == s.queue[j0]);
        }
        assert(wf(s1));
        lemma_dispatch_props(s1, ev);
        if no_ext_query(s.queue) {
            assert(no_ext_query(s1.queue));
            assert(!(ev.kind matches EventKind::Query { reply_to: ReplyTo::External, .. }));
        }
    }
}

/// Extending a clean run by one step.
pub proof fn lemma_stepn_extend(s: AbsSim, t: u64, n: nat)
    requires
        stepn(s, t, n).1 is None,
    ensures
        stepn(s, t, n + 1) == ({
            let mid = stepn(s, t, n).0;
            let r = step1(mid, t);
            r
        }),
    decreases n,
{
    if n == 0 {
        assert(stepn(s, t, 0) == (s, None::<Error>));
        let r = step1(s, t);
        if r.1 is Some {
            assert(stepn(s, t, 1) == r);
        } else {
            assert(stepn(r.0, t, 0) == (r.0, None::<Error>));
        }
    } else {
        let r1 = step1(s, t);
        lemma_stepn_extend(r1.0, t, (n - 1) as nat);
    }
}


/// The frame composes along successive effect applications.
pub proof fn lemma_frame_trans(s0: AbsSim, s1: AbsSim, s2: AbsSim)
    requires
        effect_frame(s0, s1),
        effect_frame(s1, s2),
    ensures
        effect_frame(s0, s2),
{
    assert forall|j: int| 0 <= j < s0.queue.len() implies s2.queue[j] == s0.queue[j] by {
        assert(s1.queue[j] == s0.queue[j]);
    }
    assert forall|j: int|
        s0.queue.len() <= j < s2.queue.len() implies (#[trigger] s2.queue[j]).key >= s0.next_seq
            && s2.queue[j].seq >= s0.next_seq by {
        if j < s1.queue.len() {
            assert(s2.queue[j] == s1.queue[j]);
        }
    }
}

/// Overwriting a capture slot is invariant- and frame-preserving.
pub proof fn lemma_capture_update(s: AbsSim, slot: usize, value: Msg)
    requires
        wf(s),
        slot < s.captures.len(),
    ensures
        wf(AbsSim { captures: s.captures.update(slot as int, Some(value)), ..s }),
        effect_frame(s, AbsSim { captures: s.captures.update(slot as int, Some(value)), ..s }),
{
    let s1 = AbsSim { captures: s.captures.update(slot as int, Some(value)), ..s };
    assert forall|k: int| 0 <= k < s1.queue.len() implies event_wf(s1, #[trigger] s1.queue[k]) by {
        assert(event_wf(s, s.queue[k]));
    }
    assert forall|k: int| 0 <= k < s1.conns.len() implies conn_wf(s1, #[trigger] s1.conns[k]) by {
        assert(conn_wf(s, s.conns[k]));
    }
}

/// Enqueueing a freshly keyed, non-external event preserves the frame.
pub proof fn lemma_enq_fresh_frame(s: AbsSim, due: u64, urgent: bool, kind: EventKind)
    requires
        can_alloc(s),
        !(kind matches EventKind::Query { reply_to: ReplyTo::External, .. }),
    ensures
        effect_frame(s, enq_fresh(s, due, urgent, kind)),
{
    let s1 = enq_fresh(s, due, urgent, kind);
    assert(s1.queue[s.queue.len() as int].key == s.next_seq);
    if no_ext_query(s.queue) {
        assert forall|i: int|
            0 <= i < s1.queue.len() implies !((#[trigger] s1.queue[i]).kind
                matches EventKind::Query { reply_to: ReplyTo::External, .. }) by {
            if i < s.queue.len() {
                assert(s1.queue[i] == s.queue[i]);
            }
        }
    }
}

/// Changing only the lifecycle phase keeps the invariant.
pub proof fn lemma_wf_phase(s: AbsSim, p: Phase)
    requires
        wf(s),
        !(p is Uninitialized),
    ensures
        wf(AbsSim { phase: p, ..s }),
{
    let s1 = AbsSim { phase: p, ..s };
    assert forall|k: int| 0 <= k < s1.queue.len() implies event_wf(s1, #[trigger] s1.queue[k]) by {
        assert(event_wf(s, s.queue[k]));
    }
    assert forall|k: int| 0 <= k < s1.conns.len() implies conn_wf(s1, #[trigger] s1.conns[k]) by {
        assert(conn_wf(s, s.conns[k]));
    }
}

impl Simulation {
    /// Broadcasts `value` on output `(src, port)`: every connected sink, in
    /// connection order, either captures the value or receives an urgent
    /// delivery at the current instant.
    fn do_emit(&mut self, src: usize, port: u32, value: Msg) -> (r: Result<(), Error>)
        requires
            wf(old(self)@),
            !(old(self)@.phase is Uninitialized),
        ensures
            wf(final(self)@),
            effect_frame(old(self)@, final(self)@),
            match r {
                Ok(()) => apply_sinks(old(self)@, old(self)@.conns, src, port, value, 0) == (
                    final(self)@,
                    None::<Error>,
                ),
                Err(e) => apply_sinks(old(self)@, old(self)@.conns, src, port, value, 0) == (
                    final(self)@,
                    Some(e),
                ),
            },
    {
        let ghost s0 = self@;
        let n = self.conns.len();
        let mut i: usize = 0;
        while i < n
            invariant
                s0 == old(self)@,
                wf(s0),
                !(s0.phase is Uninitialized),
                wf(self@),
                effect_frame(s0, self@),
                n == self.conns.len(),
                i <= n,
                apply_sinks(s0, s0.conns, src, port, value, 0) == apply_sinks(
                    self@,
                    s0.conns,
                    src,
                    port,
                    value,
                    i as int,
                ),
            decreases n - i,
        {
            let ghost pre = self@;
            let c = self.conns[i];
            proof {
                assert(conn_wf(s0, s0.conns[i as int]));
            }
            if c.src == src && c.port == port {
                match c.sink {
                    Sink::Capture { slot } => {
                        self.captures[slot] = Some(value);
                        proof {
                            assert(self@ =~= (AbsSim {
                                captures: pre.captures.update(slot as int, Some(value)),
                                ..pre
                            }));
                            lemma_capture_update(pre, slot, value);
                            lemma_frame_trans(s0, pre, self@);
                        }
                    },
                    Sink::Handler { dest, port: dport } => {
                        if self.next_seq == u64::MAX {
                            proof {
                                assert(apply_sinks(pre, s0.conns, src, port, value, i as int) == (
                                    pre,
                                    Some(Error::SequenceExhausted),
                                ));
                            }
                            return Err(Error::SequenceExhausted);
                        }
                        let kind = EventKind::Input {
                            target: dest.index,
                            port: dport,
                            value,
                            period: 0,
                        };
                        let due = self.clock;
                        let key = self.next_seq;
                        proof {
                            assert forall|j: int|
                                0 <= j < pre.queue.len() implies (#[trigger] pre.queue[j]).key
                                != pre.next_seq by {
                                assert(event_wf(pre, pre.queue[j]));
                            }
                            lemma_enq_wf(pre, due, true, pre.next_seq, kind);
                            lemma_enq_fresh_frame(pre, due, true, kind);
                        }
                        self.enq_exec(due, true, key, kind);
                        proof {
                            lemma_frame_trans(s0, pre, self@);
                        }
                    },
                }
            }
            i = i + 1;
        }
        Ok(())
    }

    /// Applies one effect requested by the model at `self_idx`.
    fn apply_effect_exec(&mut self, self_idx: usize, eff: Effect) -> (r: Result<(), Error>)
        requires
            wf(old(self)@),
            self_idx < old(self)@.mailboxes.len(),
            !(old(self)@.phase is Uninitialized),
        ensures
            wf(final(self)@),
            effect_frame(old(self)@, final(self)@),
            match r {
                Ok(()) => apply_effect(old(self)@, self_idx, eff) == (final(self)@, None::<Error>),
                Err(e) => apply_effect(old(self)@, self_idx, eff) == (final(self)@, Some(e)),
            },
    {
        match eff {
            Effect::Emit { port, value } => self.do_emit(self_idx, port, value),
            Effect::Request { port, value, cont } => {
                let n = self.req_conns.len();
                let mut i: usize = 0;
                while i < n
                    invariant
                        eff == (Effect::Request { port, value, cont }),
                        wf(self@),
                        self@ == old(self)@,
                        !(self@.phase is Uninitialized),
                        self_idx < self@.mailboxes.len(),
                        n == self.req_conns.len(),
                        i <= n,
                        req_dest_from(self@.req_conns, self_idx, port, 0) == req_dest_from(
                            self@.req_conns,
                            self_idx,
                            port,
                            i as int,
                        ),
                    decreases n - i,
                {
                    let rc = self.req_conns[i];
                    if rc.src == self_idx && rc.port == port {
                        proof {
                            assert(req_dest_from(self@.req_conns, self_idx, port, i as int)
                                == i as int);
                        }
                        if rc.dest == self_idx {
                            proof {
                                assert(req_dest_from(self@.req_conns, self_idx, port, 0)
                                    == i as int);
                            }
                            return Err(Error::SelfReferentialQuery);
                        }
                        if self.next_seq == u64::MAX {
                            return Err(Error::SequenceExhausted);
                        }
                        let kind = EventKind::Query {
                            target: rc.dest,
                            value,
                            reply_to: ReplyTo::Model { index: self_idx, cont },
                        };
                        let due = self.clock;
                        let key = self.next_seq;
                        proof {
                            let pre = self@;
                            assert forall|j: int|
                                0 <= j < pre.queue.len() implies (#[trigger] pre.queue[j]).key
                                != pre.next_seq by {
                                assert(event_wf(pre, pre.queue[j]));
                            }
                            lemma_enq_wf(pre, due, true, pre.next_seq, kind);
                            lemma_enq_fresh_frame(pre, due, true, kind);
                        }
                        self.enq_exec(due, true, key, kind);
                        return Ok(());
                    }
                    i = i + 1;
                }
                Err(Error::UnresolvedQuery)
            },
            Effect::Schedule { delay, port, value, period } => {
                if self.clock > u64::MAX - delay {
                    return Ok(());
                }
                if self.next_seq == u64::MAX {
                    return Err(Error::SequenceExhausted);
                }
                let kind = EventKind::Input { target: self_idx, port, value, period };
                let at = self.clock + delay;
                let key = self.next_seq;
                proof {
                    let pre = self@;
                    assert forall|j: int|
                        0 <= j < pre.queue.len() implies (#[trigger] pre.queue[j]).key
                        != pre.next_seq by {
                        assert(event_wf(pre, pre.queue[j]));
                    }
                    lemma_enq_wf(pre, at, false, pre.next_seq, kind);
                    lemma_enq_fresh_frame(pre, at, false, kind);
                }
                self.enq_exec(at, false, key, kind);
                Ok(())
            },
        }
    }

    /// Applies a handler's effects in order, stopping at the first failure.
    fn apply_effects_exec(&mut self, self_idx: usize, effs: &Vec<Effect>) -> (r: Result<(), Error>)
        requires
            wf(old(self)@),
            self_idx < old(self)@.mailboxes.len(),
            !(old(self)@.phase is Uninitialized),
        ensures
            wf(final(self)@),
            effect_frame(old(self)@, final(self)@),
            match r {
                Ok(()) => apply_effects(old(self)@, self_idx, effs@, 0) == (
                    final(self)@,
                    None::<Error>,
                ),
                Err(e) => apply_effects(old(self)@, self_idx, effs@, 0) == (
                    final(self)@,
                    Some(e),
                ),
            },
    {
        let ghost s0 = self@;
        let n = effs.len();
        let mut i: usize = 0;
        while i < n
            invariant
                s0 == old(self)@,
                wf(self@),
                effect_frame(s0, self@),
                !(self@.phase is Uninitialized),
                self_idx < self@.mailboxes.len(),
                n == effs.len(),
                i <= n,
                apply_effects(s0, self_idx, effs@, 0) == apply_effects(
                    self@,
                    self_idx,
                    effs@,
                    i as int,
                ),
            decreases n - i,
        {
            let ghost pre = self@;
            match self.apply_effect_exec(self_idx, effs[i]) {
                Ok(()) => {
                    proof {
                        lemma_frame_trans(s0, pre, self@);
                    }
                },
                Err(e) => {
                    proof {
                        lemma_frame_trans(s0, pre, self@);
                        assert(apply_effects(pre, self_idx, effs@, i as int) == (self@, Some(e)));
                    }
                    return Err(e);
                },
            }
            i = i + 1;
        }
        Ok(())
    }
}


/// What holds of the state right after removing the picked event and moving
/// the clock to its due time.
pub proof fn lemma_popped_state(s: AbsSim, t: u64, k: int)
    requires
        wf(s),
        pick(s.queue, t) == k,
        k != -1,
    ensures
        0 <= k < s.queue.len(),
        s.queue[k].due <= t,
        s.queue[k].due >= s.clock,
        ({
            let ev = s.queue[k];
            let s1 = AbsSim { queue: s.queue.remove(k), clock: ev.due, ..s };
            &&& wf(s1)
            &&& !(s1.phase is Uninitialized)
            &&& kind_wf(s1, ev.kind)
            &&& ev.key < s1.next_seq
            &&& forall|j: int| 0 <= j < s1.queue.len() ==> (#[trigger] s1.queue[j]).key != ev.key
        }),
{
    lemma_pick_from_props(s.queue, t, 0, -1);
    let ev = s.queue[k];
    assert(event_wf(s, ev));
    let s1 = AbsSim { queue: s.queue.remove(k), clock: ev.due, ..s };
    s.queue.remove_ensures(k);
    assert forall|j: int| 0 <= j < s1.queue.len() implies event_wf(s1, #[trigger] s1.queue[j]) by {
        let j0 = if j < k {
            j
        } else {
            j + 1
        };
        assert(s1.queue[j] == s.queue[j0]);
        assert(event_wf(s, s.queue[j0]));
        if s.queue[j0].due <= t {
            assert(!key_lt(s.queue[j0], ev));
        }
    }
    assert forall|i: int, j: int|
        0 <= i < j < s1.queue.len() implies #[trigger] s1.queue[i].seq
        < #[trigger] s1.queue[j].seq by {
        let i0 = if i < k {
            i
        } else {
            i + 1
        };
        let j0 = if j < k {
            j
        } else {
            j + 1
        };
        assert(s1.queue[i] == s.queue[i0]);
        assert(s1.queue[j] == s.queue[j0]);
    }
    assert forall|i: int, j: int|
        0 <= i < j < s1.queue.len() implies #[trigger] s1.queue[i].key
        != #[trigger] s1.queue[j].key by {
        let i0 = if i < k {
            i
        } else {
            i + 1
        };
        let j0 = if j < k {
            j
        } else {
            j + 1
        };
        assert(s1.queue[i] == s.queue[i0]);
        assert(s1.queue[j] == s.queue[j0]);
    }
    assert forall|j: int| 0 <= j < s1.conns.len() implies conn_wf(s1, #[trigger] s1.conns[j]) by {
        assert(conn_wf(s, s.conns[j]));
    }
    assert forall|j: int|
        0 <= j < s1.queue.len() implies (#[trigger] s1.queue[j]).key != ev.key by {
        let j0 = if j < k {
            j
        } else {
            j + 1
        };
        assert(s1.queue[j] == s.queue[j0]);
    }
    assert(wf(s1));
}

impl Simulation {
    /// Performs one scheduler step towards `t`: the least pending event due
    /// at or before `t` is removed and dispatched.  Returns `Ok(false)`
    /// when nothing is due.
    fn dispatch_step(&mut self, t: u64) -> (r: Result<bool, Error>)
        requires
            wf(old(self)@),
        ensures
            wf(final(self)@),
            match r {
                Ok(true) => !settled(old(self)@, t) && step1(old(self)@, t) == (
                    final(self)@,
                    None::<Error>,
                ),
                Ok(false) => final(self)@ == old(self)@ && settled(old(self)@, t),
                Err(e) => step1(old(self)@, t) == (final(self)@, Some(e)),
            },
    {
        let n = self.queue.len();
        let mut found = false;
        let mut best: usize = 0;
        let mut i: usize = 0;
        while i < n
            invariant
                self@ == old(self)@,
                wf(self@),
                n == self.queue.len(),
                i <= n,
                found ==> best < i,
                pick(self@.queue, t) == pick_from(
                    self@.queue,
                    t,
                    i as int,
                    if found {
                        best as int
                    } else {
                        -1
                    },
                ),
            decreases n - i,
        {
            if self.queue[i].due <= t && (!found || key_lt_exec(&self.queue[i], &self.queue[best]))
                {
                best = i;
                found = true;
            }
            i = i + 1;
        }
        if !found {
            return Ok(false);
        }
        let ghost s0 = self@;
        let ghost k = best as int;
        proof {
            lemma_popped_state(s0, t, k);
            lemma_step1_props(s0, t);
        }
        let ev = self.queue.remove(best);
        self.clock = ev.due;
        let ghost s1 = self@;
        proof {
            assert(s1 =~= (AbsSim { queue: s0.queue.remove(k), clock: ev.due, ..s0 }));
        }
        match ev.kind {
            EventKind::Input { target, port, value, period } => {
                proof {
                    assert(target < self@.mailboxes.len());
                }
                let mut m = self.mailboxes[target].model;
                let effs = handle_event(&mut m, port, value, ev.due);
                let mbname = self.mailboxes[target].name;
                self.mailboxes[target] = Mailbox { name: mbname, model: m };
                let ghost s2 = self@;
                proof {
                    assert(s2 =~= set_model(
                        s1,
                        target,
                        ev_step(s1.mailboxes[target as int].model, port, value, ev.due).0,
                    ));
                    lemma_set_model_wf(s1, target, m);
                }
                match self.apply_effects_exec(target, &effs) {
                    Err(e) => {
                        proof {
                            assert(step1(s0, t) == (self@, Some(e)));
                        }
                        return Err(e);
                    },
                    Ok(()) => {},
                }
                if period > 0 {
                    if ev.due <= u64::MAX - period {
                        if self.next_seq == u64::MAX {
                            proof {
                                assert(step1(s0, t) == (self@, Some(Error::SequenceExhausted)));
                            }
                            return Err(Error::SequenceExhausted);
                        }
                        let at = ev.due + period;
                        self.enq_exec(at, false, ev.key, ev.kind);
                    }
                }
                proof {
                    assert(step1(s0, t) == (self@, None::<Error>));
                }
                Ok(true)
            },
            EventKind::Query { target, value, reply_to } => {
                proof {
                    assert(target < self@.mailboxes.len());
                }
                let mut m = self.mailboxes[target].model;
                let reply = handle_query(&mut m, value, ev.due);
                let mbname = self.mailboxes[target].name;
                self.mailboxes[target] = Mailbox { name: mbname, model: m };
                proof {
                    assert(self@ =~= set_model(
                        s1,
                        target,
                        query_step(s1.mailboxes[target as int].model, value, ev.due).0,
                    ));
                }
                match reply_to {
                    ReplyTo::External => {
                        self.reply_slot = Some(reply);
                        proof {
                            let sm = set_model(
                                s1,
                                target,
                                query_step(s1.mailboxes[target as int].model, value, ev.due).0,
                            );
                            assert(self@ =~= (AbsSim {
                                reply_slot: Some(
                                    query_step(s1.mailboxes[target as int].model, value, ev.due).1,
                                ),
                                ..sm
                            }));
                            assert(step1(s0, t) == (self@, None::<Error>));
                        }
                        Ok(true)
                    },
                    ReplyTo::Model { index, cont } => {
                        if self.next_seq == u64::MAX {
                            proof {
                                assert(step1(s0, t) == (self@, Some(Error::SequenceExhausted)));
                            }
                            return Err(Error::SequenceExhausted);
                        }
                        let key = self.next_seq;
                        self.enq_exec(
                            ev.due,
                            true,
                            key,
                            EventKind::Reply { target: index, cont, value: reply },
                        );
                        proof {
                            assert(step1(s0, t) == (self@, None::<Error>));
                        }
                        Ok(true)
                    },
                }
            },
            EventKind::Reply { target, cont, value } => {
                proof {
                    assert(target < self@.mailboxes.len());
                }
                let mut m = self.mailboxes[target].model;
                let effs = handle_reply(&mut m, cont, value, ev.due);
                let mbname = self.mailboxes[target].name;
                self.mailboxes[target] = Mailbox { name: mbname, model: m };
                proof {
                    assert(self@ =~= set_model(
                        s1,
                        target,
                        reply_step(s1.mailboxes[target as int].model, cont, value, ev.due).0,
                    ));
                    lemma_set_model_wf(s1, target, m);
                }
                match self.apply_effects_exec(target, &effs) {
                    Err(e) => {
                        proof {
                            assert(step1(s0, t) == (self@, Some(e)));
                        }
                        return Err(e);
                    },
                    Ok(()) => {},
                }
                proof {
                    assert(step1(s0, t) == (self@, None::<Error>));
                }
                Ok(true)
            },
        }
    }

    /// Dispatches every event due at or before `t`, in event order, until
    /// the scheduler is idle or a dispatch fails.
    fn drain(&mut self, t: u64) -> (r: Result<(), Error>)
        requires
            wf(old(self)@),
        ensures
            wf(final(self)@),
            final(self)@.phase == old(self)@.phase,
            final(self)@.conns == old(self)@.conns,
            final(self)@.req_conns == old(self)@.req_conns,
            final(self)@.mailboxes.len() == old(self)@.mailboxes.len(),
            final(self)@.captures.len() == old(self)@.captures.len(),
            old(self)@.clock <= final(self)@.clock,
            final(self)@.clock == old(self)@.clock || final(self)@.clock <= t,
            match r {
                Ok(()) => runs_to(old(self)@, t, final(self)@) && settled(final(self)@, t),
                Err(e) => runs_to_err(old(self)@, t, final(self)@, e),
            },
    {
        let ghost s0 = self@;
        let ghost mut steps: nat = 0;
        loop
            invariant
                s0 == old(self)@,
                wf(self@),
                stepn(s0, t, steps) == (self@, None::<Error>),
                self@.phase == s0.phase,
                self@.conns == s0.conns,
                self@.req_conns == s0.req_conns,
                self@.mailboxes.len() == s0.mailboxes.len(),
                self@.captures.len() == s0.captures.len(),
                s0.clock <= self@.clock,
                self@.clock == s0.clock || self@.clock <= t,
            decreases u64::MAX - self@.next_seq, self@.queue.len(),
        {
            let ghost pre = self@;
            match self.dispatch_step(t) {
                Ok(false) => {
                    proof {
                        assert(stepn(s0, t, steps) == (self@, None::<Error>));
                        assert(runs_to(s0, t, self@));
                    }
                    return Ok(());
                },
                Ok(true) => {
                    proof {
                        lemma_step1_props(pre, t);
                        lemma_stepn_extend(s0, t, steps);
                        steps = steps + 1;
                        assert(stepn(s0, t, steps) == (self@, None::<Error>));
                    }
                },
                Err(e) => {
                    proof {
                        lemma_step1_props(pre, t);
                        lemma_stepn_extend(s0, t, steps);
                        assert(stepn(s0, t, steps + 1) == (self@, Some(e)));
                        assert(runs_to_err(s0, t, self@, e));
                    }
                    return Err(e);
                },
            }
        }
    }
}


/// Running the init hooks preserves the invariant and the static frame.
pub proof fn lemma_init_run_props(s: AbsSim, n: int, i: int)
    requires
        wf(s),
        !(s.phase is Uninitialized),
        n <= s.mailboxes.len(),
    ensures
        ({
            let (s2, e) = init_run(s, n, i);
            &&& wf(s2)
            &&& s2.phase == s.phase
            &&& s2.clock == s.clock
            &&& s2.conns == s.conns
            &&& s2.req_conns == s.req_conns
            &&& s2.mailboxes.len() == s.mailboxes.len()
            &&& s2.captures.len() == s.captures.len()
        }),
    decreases n - i,
{
    if i < 0 || i >= n || i >= s.mailboxes.len() {
    } else {
        let r = init_step(s.mailboxes[i].model, s.clock);
        let s1 = set_model(s, i as usize, r.0);
        lemma_set_model_wf(s, i as usize, r.0);
        lemma_apply_effects_props(s1, i as usize, r.1, 0);
        let after = apply_effects(s1, i as usize, r.1, 0);
        if !(after.1 is Some) {
            lemma_init_run_props(after.0, n, i + 1);
        }
    }
}

impl Simulation {
    /// Moves the scheduler to `Initialized`, starts the clock at `start`
    /// and runs every model's init hook in registration order.  The init
    /// hooks may self-schedule; their events dispatch at the first
    /// stimulus.
    pub fn initialize(&mut self, start: u64) -> (r: Result<(), Error>)
        requires
            wf(old(self)@),
            old(self)@.phase is Uninitialized,
        ensures
            wf(final(self)@),
            final(self)@.phase is Initialized,
            ({
                let s1 = AbsSim { phase: Phase::Initialized, clock: start, ..old(self)@ };
                let n = s1.mailboxes.len() as int;
                match r {
                    Ok(()) => init_run(s1, n, 0) == (final(self)@, None::<Error>),
                    Err(e) => init_run(s1, n, 0) == (final(self)@, Some(e)),
                }
            }),
    {
        self.phase = Phase::Initialized;
        self.clock = start;
        proof {
            let s0 = old(self)@;
            let s1 = self@;
            assert(s0.queue.len() == 0);
            assert forall|k: int| 0 <= k < s1.conns.len() implies conn_wf(s1, #[trigger] s1.conns[k])
            by {
                assert(conn_wf(s0, s0.conns[k]));
            }
            assert(wf(s1));
        }
        let ghost s1 = self@;
        let n = self.mailboxes.len();
        let mut i: usize = 0;
        while i < n
            invariant
                s1 == (AbsSim { phase: Phase::Initialized, clock: start, ..old(self)@ }),
                wf(self@),
                self@.phase is Initialized,
                self@.clock == start,
                n == self.mailboxes.len(),
                old(self)@.mailboxes.len() == n,
                i <= n,
                init_run(s1, n as int, 0) == init_run(self@, n as int, i as int),
            decreases n - i,
        {
            let ghost pre = self@;
            let mut m = self.mailboxes[i].model;
            let now = self.clock;
            let effs = handle_init(&mut m, now);
            let mbname = self.mailboxes[i].name;
            self.mailboxes[i] = Mailbox { name: mbname, model: m };
            proof {
                assert(self@ =~= set_model(
                    pre,
                    i,
                    init_step(pre.mailboxes[i as int].model, pre.clock).0,
                ));
                lemma_set_model_wf(pre, i, m);
            }
            match self.apply_effects_exec(i, &effs) {
                Err(e) => {
                    proof {
                        assert(init_run(pre, n as int, i as int) == (self@, Some(e)));
                    }
                    return Err(e);
                },
                Ok(()) => {
                    proof {
                        assert(init_run(pre, n as int, i as int) == init_run(
                            self@,
                            n as int,
                            i as int + 1,
                        ));
                    }
                },
            }
            i = i + 1;
        }
        proof {
            assert(init_run(self@, n as int, n as int) == (self@, None::<Error>));
        }
        Ok(())
    }

    /// Injects one event at the current virtual time and runs it, together
    /// with everything it causally triggers, to completion.
    pub fn process_event(&mut self, dest: Address, port: u32, value: Msg) -> (r: Result<(), Error>)
        requires
            wf(old(self)@),
            !(old(self)@.phase is Uninitialized),
            dest.index < old(self)@.mailboxes.len(),
        ensures
            wf(final(self)@),
            final(self)@.clock >= old(self)@.clock,
            !can_alloc(old(self)@) ==> r == Err::<(), Error>(Error::SequenceExhausted)
                && final(self)@ == old(self)@,
            can_alloc(old(self)@) ==> ({
                let s1 = inject_event(stimulate(old(self)@), dest, port, value);
                match r {
                    Ok(()) => runs_to(s1, old(self)@.clock, final(self)@) && settled(
                        final(self)@,
                        old(self)@.clock,
                    ),
                    Err(e) => runs_to_err(s1, old(self)@.clock, final(self)@, e),
                }
            }),
    {
        if self.next_seq == u64::MAX {
            return Err(Error::SequenceExhausted);
        }
        self.phase = Phase::Running;
        proof {
            lemma_wf_phase(old(self)@, Phase::Running);
            assert(self@ =~= stimulate(old(self)@));
        }
        let ghost st = self@;
        let clk = self.clock;
        let key = self.next_seq;
        let kind = EventKind::Input { target: dest.index, port, value, period: 0 };
        proof {
            assert forall|j: int|
                0 <= j < st.queue.len() implies (#[trigger] st.queue[j]).key != st.next_seq by {
                assert(event_wf(st, st.queue[j]));
            }
            lemma_enq_wf(st, clk, false, st.next_seq, kind);
        }
        self.enq_exec(clk, false, key, kind);
        proof {
            assert(self@ == inject_event(stimulate(old(self)@), dest, port, value));
        }
        self.drain(clk)
    }

    /// Advances the virtual clock to `t`, dispatching every event due at
    /// or before `t` in event order.  Fails with `PastScheduling`, leaving
    /// the simulation (and its clock) unchanged, exactly when `t` lies
    /// before the current clock.
    pub fn step_until(&mut self, t: u64) -> (r: Result<(), Error>)
        requires
            wf(old(self)@),
            !(old(self)@.phase is Uninitialized),
        ensures
            wf(final(self)@),
            t < old(self)@.clock ==> r == Err::<(), Error>(Error::PastScheduling) && final(self)@
                == old(self)@,
            t >= old(self)@.clock ==> match r {
                Ok(()) => final(self)@.clock == t && exists|s2: AbsSim|
                    #[trigger] runs_to(stimulate(old(self)@), t, s2) && final(self)@ == (AbsSim {
                        clock: t,
                        ..s2
                    }),
                Err(e) => e != Error::PastScheduling && runs_to_err(
                    stimulate(old(self)@),
                    t,
                    final(self)@,
                    e,
                ),
            },
    {
        if t < self.clock {
            return Err(Error::PastScheduling);
        }
        self.phase = Phase::Running;
        proof {
            lemma_wf_phase(old(self)@, Phase::Running);
            assert(self@ =~= stimulate(old(self)@));
        }
        let ghost st = self@;
        match self.drain(t) {
            Err(e) => {
                proof {
                    lemma_runs_err_not_past(st, t);
                }
                Err(e)
            },
            Ok(()) => {
                let ghost s2 = self@;
                self.clock = t;
                proof {
                    lemma_pick_from_props(s2.queue, t, 0, -1);
                    let sf = self@;
                    assert(sf =~= (AbsSim { clock: t, ..s2 }));
                    assert(s2.clock <= t);
                    assert forall|k: int|
                        0 <= k < sf.queue.len() implies event_wf(sf, #[trigger] sf.queue[k]) by {
                        assert(event_wf(s2, s2.queue[k]));
                        assert(s2.queue[k].due > t);
                    }
                    assert forall|k: int|
                        0 <= k < sf.conns.len() implies conn_wf(sf, #[trigger] sf.conns[k]) by {
                        assert(conn_wf(s2, s2.conns[k]));
                    }
                    assert(wf(sf));
                    assert(runs_to(st, t, s2));
                }
                Ok(())
            },
        }
    }
}

/// A failing run never fails with `PastScheduling`: the interpreter's
/// failures are those of dispatch, which never schedules into the past.
pub proof fn lemma_runs_err_not_past(s: AbsSim, t: u64)
    ensures
        forall|s2: AbsSim, e: Error|
            #[trigger] runs_to_err(s, t, s2, e) ==> e != Error::PastScheduling,
{
    assert forall|s2: AbsSim, e: Error|
        #[trigger] runs_to_err(s, t, s2, e) implies e != Error::PastScheduling by {
        let n = choose|n: nat| stepn(s, t, n) == (s2, Some(e));
        lemma_stepn_err_kinds(s, t, n);
    }
}

/// The errors a run can surface.
pub proof fn lemma_stepn_err_kinds(s: AbsSim, t: u64, n: nat)
    ensures
        stepn(s, t, n).1 is Some ==> stepn(s, t, n).1 != Some(Error::PastScheduling) && stepn(
            s,
            t,
            n,
        ).1 != Some(Error::DuplicateAddress) && stepn(s, t, n).1 != Some(
            Error::LatePortConnection,
        ),
    decreases n,
{
    if n > 0 {
        lemma_step1_err_kinds(s, t);
        let r = step1(s, t);
        if !(r.1 is Some) {
            lemma_stepn_err_kinds(r.0, t, (n - 1) as nat);
        }
    }
}

/// The errors one step can surface.
pub proof fn lemma_step1_err_kinds(s: AbsSim, t: u64)
    ensures
        step1(s, t).1 is Some ==> step1(s, t).1 != Some(Error::PastScheduling) && step1(s, t).1
            != Some(Error::DuplicateAddress) && step1(s, t).1 != Some(Error::LatePortConnection),
{
    let k = pick(s.queue, t);
    if k != -1 {
        let ev = s.queue[k];
        let s1 = AbsSim { queue: s.queue.remove(k), clock: ev.due, ..s };
        lemma_dispatch_err_kinds(s1, ev);
    }
}

/// The errors dispatch can surface.
pub proof fn lemma_dispatch_err_kinds(s: AbsSim, ev: Event)
    ensures
        dispatch(s, ev).1 is Some ==> dispatch(s, ev).1 != Some(Error::PastScheduling) && dispatch(
            s,
            ev,
        ).1 != Some(Error::DuplicateAddress) && dispatch(s, ev).1 != Some(
            Error::LatePortConnection,
        ),
{
    match ev.kind {
        EventKind::Input { target, port, value, period } => {
            let r = ev_step(s.mailboxes[target as int].model, port, value, ev.due);
            let s1 = set_model(s, target, r.0);
            lemma_apply_effects_err_kinds(s1, target, r.1, 0);
        },
        EventKind::Query { .. } => {
        },
        EventKind::Reply { target, cont, value } => {
            let r = reply_step(s.mailboxes[target as int].model, cont, value, ev.due);
            let s1 = set_model(s, target, r.0);
            lemma_apply_effects_err_kinds(s1, target, r.1, 0);
        },
    }
}

/// The errors effect application can surface.
pub proof fn lemma_apply_effects_err_kinds(s: AbsSim, self_idx: usize, effs: Seq<Effect>, i: int)
    ensures
        ({
            let e = apply_effects(s, self_idx, effs, i).1;
            e is Some ==> e != Some(Error::PastScheduling) && e != Some(Error::DuplicateAddress)
                && e != Some(Error::LatePortConnection)
        }),
    decreases effs.len() - i,
{
    if i < 0 || i >= effs.len() {
    } else {
        lemma_apply_effect_err_kinds(s, self_idx, effs[i]);
        let r = apply_effect(s, self_idx, effs[i]);
        if !(r.1 is Some) {
            lemma_apply_effects_err_kinds(r.0, self_idx, effs, i + 1);
        }
    }
}

/// The errors one effect can surface.
pub proof fn lemma_apply_effect_err_kinds(s: AbsSim, self_idx: usize, eff: Effect)
    ensures
        ({
            let e = apply_effect(s, self_idx, eff).1;
            e is Some ==> e != Some(Error::PastScheduling) && e != Some(Error::DuplicateAddress)
                && e != Some(Error::LatePortConnection)
        }),
{
    match eff {
        Effect::Emit { port, value } => {
            lemma_apply_sinks_err_kinds(s, s.conns, self_idx, port, value, 0);
        },
        _ => {
        },
    }
}

/// The errors broadcast application can surface.
pub proof fn lemma_apply_sinks_err_kinds(
    s: AbsSim,
    conns: Seq<Connection>,
    src: usize,
    port: u32,
    value: Msg,
    i: int,
)
    ensures
        ({
            let e = apply_sinks(s, conns, src, port, value, i).1;
            e is Some ==> e == Some(Error::SequenceExhausted)
        }),
    decreases conns.len() - i,
{
    if i < 0 || i >= conns.len() {
    } else {
        let c = conns[i];
        if c.src == src && c.port == port {
            match c.sink {
                Sink::Capture { slot } => {
                    lemma_apply_sinks_err_kinds(
                        AbsSim { captures: s.captures.update(slot as int, Some(value)), ..s },
                        conns,
                        src,
                        port,
                        value,
                        i + 1,
                    );
                },
                Sink::Handler { dest, port: dport } => {
                    if can_alloc(s) {
                        lemma_apply_sinks_err_kinds(
                            enq_fresh(
                                s,
                                s.clock,
                                true,
                                EventKind::Input {
                                    target: dest.index,
                                    port: dport,
                                    value,
                                    period: 0,
                                },
                            ),
                            conns,
                            src,
                            port,
                            value,
                            i + 1,
                        );
                    }
                },
            }
        } else {
            lemma_apply_sinks_err_kinds(s, conns, src, port, value, i + 1);
        }
    }
}


/// From a settled simulation, an injected external query resolves in one
/// step: the destination's query handler answers from the current clock,
/// the reply lands in the reply slot, and nothing else runs.
pub proof fn lemma_clean_query(s: AbsSim, dest: Address, value: Msg)
    requires
        wf(s),
        can_alloc(s),
        settled(s, s.clock),
        !(s.phase is Uninitialized),
        dest.index < s.mailboxes.len(),
    ensures
        ({
            let s1 = inject_query(stimulate(s), dest, value);
            let q = query_step(s.mailboxes[dest.index as int].model, value, s.clock);
            let s2 = AbsSim {
                reply_slot: Some(q.1),
                ..set_model(
                    AbsSim { queue: s.queue, clock: s.clock, ..s1 },
                    dest.index,
                    q.0,
                )
            };
            &&& runs_to(s1, s.clock, s2)
            &&& settled(s2, s.clock)
            &&& s2.reply_slot == Some(q.1)
        }),
{
    lemma_pick_from_props(s.queue, s.clock, 0, -1);
    let st = stimulate(s);
    let stc = AbsSim { reply_slot: None, ..st };
    let s1 = inject_query(st, dest, value);
    let kind = EventKind::Query { target: dest.index, value, reply_to: ReplyTo::External };
    assert(s1 == enq(stc, s.clock, true, s.next_seq, kind));
    let n0 = s.queue.len() as int;
    assert(s1.queue.len() == n0 + 1);
    assert(s1.queue[n0] == (Event {
        due: s.clock,
        seq: s.next_seq,
        urgent: true,
        key: s.next_seq,
        kind,
    }));
    lemma_pick_from_props(s1.queue, s.clock, 0, -1);
    let k = pick(s1.queue, s.clock);
    assert(s1.queue[n0].due <= s.clock);
    assert(k != -1);
    if k < n0 {
        assert(s1.queue[k] == s.queue[k]);
        assert(s.queue[k].due > s.clock);
    }
    assert(k == n0);
    let ev = s1.queue[k];
    let s1p = AbsSim { queue: s1.queue.remove(k), clock: ev.due, ..s1 };
    assert(s1.queue.remove(n0) =~= s.queue);
    let q = query_step(s.mailboxes[dest.index as int].model, value, s.clock);
    let s2 = AbsSim {
        reply_slot: Some(q.1),
        ..set_model(AbsSim { queue: s.queue, clock: s.clock, ..s1 }, dest.index, q.0)
    };
    assert(step1(s1, s.clock) == (s2, None::<Error>)) by {
        assert(dispatch(s1p, ev) == (s2, None::<Error>)) by {
            assert(s1p.mailboxes == s.mailboxes);
            assert(set_model(s1p, dest.index, q.0) =~= set_model(
                AbsSim { queue: s.queue, clock: s.clock, ..s1 },
                dest.index,
                q.0,
            ));
        }
    }
    assert(settled(s2, s.clock)) by {
        assert(s2.queue == s.queue);
    }
    assert(stepn(s1, s.clock, 1) == (s2, None::<Error>)) by {
        assert(stepn(s2, s.clock, 0) == (s2, None::<Error>));
    }
    assert(runs_to(s1, s.clock, s2));
}


impl Simulation {
    /// Injects a query at the current virtual time, resolves it together
    /// with everything it causally triggers, and returns the reply.  On a
    /// settled simulation the reply is exactly what the destination's query
    /// handler computes at the current clock.
    pub fn process_query(&mut self, dest: Address, value: Msg) -> (r: Result<Msg, Error>)
        requires
            wf(old(self)@),
            !(old(self)@.phase is Uninitialized),
            dest.index < old(self)@.mailboxes.len(),
        ensures
            wf(final(self)@),
            !can_alloc(old(self)@) ==> r == Err::<Msg, Error>(Error::SequenceExhausted)
                && final(self)@ == old(self)@,
            can_alloc(old(self)@) ==> ({
                let s1 = inject_query(stimulate(old(self)@), dest, value);
                match r {
                    Ok(v) => runs_to(s1, old(self)@.clock, final(self)@)
                        && final(self)@.reply_slot == Some(v),
                    Err(e) => (e == Error::UnresolvedQuery && runs_to(
                        s1,
                        old(self)@.clock,
                        final(self)@,
                    ) && final(self)@.reply_slot is None) || runs_to_err(
                        s1,
                        old(self)@.clock,
                        final(self)@,
                        e,
                    ),
                }
            }),
            can_alloc(old(self)@) && settled(old(self)@, old(self)@.clock) ==> r == Ok::<
                Msg,
                Error,
            >(query_step(old(self)@.mailboxes[dest.index as int].model, value, old(self)@.clock).1),
    {
        if self.next_seq == u64::MAX {
            return Err(Error::SequenceExhausted);
        }
        self.phase = Phase::Running;
        self.reply_slot = None;
        proof {
            let s0 = old(self)@;
            let stc = self@;
            assert forall|k: int|
                0 <= k < stc.queue.len() implies event_wf(stc, #[trigger] stc.queue[k]) by {
                assert(event_wf(s0, s0.queue[k]));
            }
            assert forall|k: int|
                0 <= k < stc.conns.len() implies conn_wf(stc, #[trigger] stc.conns[k]) by {
                assert(conn_wf(s0, s0.conns[k]));
            }
            assert(wf(stc));
        }
        let ghost stc = self@;
        let clk = self.clock;
        let key = self.next_seq;
        let kind = EventKind::Query { target: dest.index, value, reply_to: ReplyTo::External };
        proof {
            assert forall|j: int|
                0 <= j < stc.queue.len() implies (#[trigger] stc.queue[j]).key != stc.next_seq by {
                assert(event_wf(stc, stc.queue[j]));
            }
            lemma_enq_wf(stc, clk, true, stc.next_seq, kind);
        }
        self.enq_exec(clk, true, key, kind);
        let ghost s1 = self@;
        proof {
            assert(s1 == inject_query(stimulate(old(self)@), dest, value));
            if settled(old(self)@, old(self)@.clock) {
                lemma_clean_query(old(self)@, dest, value);
            }
        }
        match self.drain(clk) {
            Err(e) => {
                proof {
                    if can_alloc(old(self)@) && settled(old(self)@, old(self)@.clock) {
                        let q = query_step(
                            old(self)@.mailboxes[dest.index as int].model,
                            value,
                            old(self)@.clock,
                        );
                        let s2 = AbsSim {
                            reply_slot: Some(q.1),
                            ..set_model(
                                AbsSim { queue: old(self)@.queue, clock: old(self)@.clock, ..s1 },
                                dest.index,
                                q.0,
                            )
                        };
                        crate::laws::lemma_run_excludes_failure(s1, clk, s2);
                    }
                }
                Err(e)
            },
            Ok(()) => {
                proof {
                    if can_alloc(old(self)@) && settled(old(self)@, old(self)@.clock) {
                        let q = query_step(
                            old(self)@.mailboxes[dest.index as int].model,
                            value,
                            old(self)@.clock,
                        );
                        let s2 = AbsSim {
                            reply_slot: Some(q.1),
                            ..set_model(
                                AbsSim { queue: old(self)@.queue, clock: old(self)@.clock, ..s1 },
                                dest.index,
                                q.0,
                            )
                        };
                        crate::laws::lemma_run_deterministic(s1, clk, self@, s2);
                    }
                }
                match self.reply_slot {
                    Some(v) => Ok(v),
                    None => Err(Error::UnresolvedQuery),
                }
            },
        }
    }
}

} // verus!
