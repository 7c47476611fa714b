//! The kernel's ordering and determinism laws, stated and proved against
//! the spec-level interpreter of [`crate::sim`].
//!
//! Every stimulus of [`crate::sim::Simulation`] ensures that its final state
//! is an outcome of `stepn` from its initial state; the lemmas here show
//! those outcomes are unique, ordered FIFO at equal due times, causally
//! ordered across request/reply pairs, and broadcast in connection order.

use vstd::prelude::*;

use crate::event::{key_lt, Error, Event, EventKind, ReplyTo, Sink};
use crate::models::query_step;
use crate::msg::Msg;
use crate::sim::{
    apply_sinks, can_alloc, enq_fresh, event_wf, lemma_apply_sinks_props, lemma_pick_from_props,
    lemma_popped_state, pick, runs_to, runs_to_err, settled, step1, stepn, wf, AbsSim,
};

verus! {

/// A settled state stays settled: stepping it changes nothing.
pub proof fn lemma_settled_stepn(s: AbsSim, t: u64, n: nat)
    requires
        settled(s, t),
    ensures
        stepn(s, t, n) == (s, None::<Error>),
    decreases n,
{
    if n > 0 {
        lemma_settled_stepn(s, t, (n - 1) as nat);
    }
}

/// A run that has settled returns the same outcome however much longer it
/// is allowed to go on.
pub proof fn lemma_stepn_stable(s: AbsSim, t: u64, n: nat, m: nat)
    requires
        stepn(s, t, n).1 is None,
        settled(stepn(s, t, n).0, t),
        n <= m,
    ensures
        stepn(s, t, m) == stepn(s, t, n),
    decreases n,
{
    if n == 0 {
        lemma_settled_stepn(s, t, m);
    } else {
        let r = step1(s, t);
        lemma_stepn_stable(r.0, t, (n - 1) as nat, (m - 1) as nat);
    }
}

/// A run that has failed returns the same failure however much longer it
/// is allowed to go on.
pub proof fn lemma_stepn_err_stable(s: AbsSim, t: u64, n: nat, m: nat)
    requires
        stepn(s, t, n).1 is Some,
        stepn(s, t, m).1 is Some,
    ensures
        stepn(s, t, m) == stepn(s, t, n),
    decreases n,
{
    let r = step1(s, t);
    if !(r.1 is Some) {
        lemma_stepn_err_stable(r.0, t, (n - 1) as nat, (m - 1) as nat);
    }
}

/// Determinism: from one state, driven to one target time, any two runs
/// that come to rest come to rest in the same state.  Together with the
/// stimuli's contracts — each ensures its final state satisfies `runs_to`
/// from a state determined by its arguments — replaying a fixed sequence
/// of stimuli against the same initial models always yields the same
/// states, and so the same captured outputs and replies.
pub proof fn lemma_run_deterministic(s: AbsSim, t: u64, a: AbsSim, b: AbsSim)
    requires
        runs_to(s, t, a),
        runs_to(s, t, b),
    ensures
        a == b,
{
    let na = choose|n: nat| stepn(s, t, n) == (a, None::<Error>) && settled(a, t);
    let nb = choose|n: nat| stepn(s, t, n) == (b, None::<Error>) && settled(b, t);
    if na <= nb {
        lemma_stepn_stable(s, t, na, nb);
    } else {
        lemma_stepn_stable(s, t, nb, na);
    }
}

/// Determinism of failures: from one state, any two failing runs fail with
/// the same error in the same state.
pub proof fn lemma_failure_deterministic(
    s: AbsSim,
    t: u64,
    a: AbsSim,
    b: AbsSim,
    ea: Error,
    eb: Error,
)
    requires
        runs_to_err(s, t, a, ea),
        runs_to_err(s, t, b, eb),
    ensures
        a == b,
        ea == eb,
{
    let na = choose|n: nat| stepn(s, t, n) == (a, Some(ea));
    let nb = choose|n: nat| stepn(s, t, n) == (b, Some(eb));
    lemma_stepn_err_stable(s, t, na, nb);
}

/// A run cannot both come to rest and fail: whether a stimulus succeeds
/// is determined by the initial state alone.
pub proof fn lemma_run_excludes_failure(s: AbsSim, t: u64, a: AbsSim)
    requires
        runs_to(s, t, a),
    ensures
        forall|b: AbsSim, e: Error| !#[trigger] runs_to_err(s, t, b, e),
{
    let na = choose|n: nat| stepn(s, t, n) == (a, None::<Error>) && settled(a, t);
    assert forall|b: AbsSim, e: Error| !#[trigger] runs_to_err(s, t, b, e) by {
        if runs_to_err(s, t, b, e) {
            let nb = choose|n: nat| stepn(s, t, n) == (b, Some(e));
            if na <= nb {
                lemma_stepn_stable(s, t, na, nb);
            } else {
                lemma_stepn_err_persists(s, t, nb, na);
            }
        }
    }
}

/// Once a run has failed it stays failed.
pub proof fn lemma_stepn_err_persists(s: AbsSim, t: u64, n: nat, m: nat)
    requires
        stepn(s, t, n).1 is Some,
        n <= m,
    ensures
        stepn(s, t, m) == stepn(s, t, n),
    decreases n,
{
    let r = step1(s, t);
    if r.1 is Some {
    } else {
        lemma_stepn_err_persists(r.0, t, (n - 1) as nat, (m - 1) as nat);
    }
}

/// FIFO tie-break: of two pending events due at the same instant, in the
/// same urgency class, the one inserted first is never overtaken — the
/// scheduler cannot dispatch the later one while the earlier one waits.
pub proof fn lemma_fifo_tie_break(s: AbsSim, t: u64, i: int, j: int)
    requires
        wf(s),
        0 <= i < s.queue.len(),
        0 <= j < s.queue.len(),
        i != j,
        s.queue[i].due == s.queue[j].due,
        s.queue[i].due <= t,
        s.queue[i].urgent == s.queue[j].urgent,
        s.queue[i].seq < s.queue[j].seq,
    ensures
        pick(s.queue, t) != j,
{
    lemma_pick_from_props(s.queue, t, 0, -1);
    let r = pick(s.queue, t);
    if r == j {
        assert(!key_lt(s.queue[i], s.queue[j]));
        assert(key_lt(s.queue[i], s.queue[j]));
    }
}

/// Urgency precedence: a pending urgent event (one belonging to the causal
/// cascade of an event already dispatched) is never overtaken by a
/// non-urgent event due at the same instant — so a dispatched event
/// resolves fully before the next scheduled one begins.
pub proof fn lemma_cascade_precedence(s: AbsSim, t: u64, i: int, j: int)
    requires
        wf(s),
        0 <= i < s.queue.len(),
        0 <= j < s.queue.len(),
        i != j,
        s.queue[i].due == s.queue[j].due,
        s.queue[i].due <= t,
        s.queue[i].urgent,
        !s.queue[j].urgent,
    ensures
        pick(s.queue, t) != j,
{
    lemma_pick_from_props(s.queue, t, 0, -1);
    let r = pick(s.queue, t);
    if r == j {
        assert(!key_lt(s.queue[i], s.queue[j]));
        assert(key_lt(s.queue[i], s.queue[j]));
    }
}

/// Request/reply causality: dispatching a model-issued query enqueues, for
/// the requester, exactly the reply its destination's handler computes at
/// the query's due time — a time no earlier than the clock when the query
/// was issued — and that resumption carries a later sequence number at the
/// same instant, so the requester resumes only after the destination's
/// handler has returned.
pub proof fn lemma_request_reply_causality(s: AbsSim, t: u64)
    requires
        wf(s),
        !settled(s, t),
        ({
            let k = pick(s.queue, t);
            s.queue[k].kind matches EventKind::Query { reply_to: ReplyTo::Model { .. }, .. }
        }),
        step1(s, t).1 is None,
    ensures
        ({
            let k = pick(s.queue, t);
            let ev = s.queue[k];
            match ev.kind {
                EventKind::Query { target, value, reply_to: ReplyTo::Model { index, cont } } => {
                    let s2 = step1(s, t).0;
                    &&& s2.queue.len() > 0
                    &&& s2.queue.last() == (Event {
                        due: ev.due,
                        seq: s.next_seq,
                        urgent: true,
                        key: s.next_seq,
                        kind: EventKind::Reply {
                            target: index,
                            cont,
                            value: query_step(s.mailboxes[target as int].model, value, ev.due).1,
                        },
                    })
                    &&& ev.due >= s.clock
                    &&& s.next_seq > ev.seq
                },
                _ => true,
            }
        }),
{
    let k = pick(s.queue, t);
    lemma_popped_state(s, t, k);
    let ev = s.queue[k];
    assert(event_wf(s, ev));
}

/// The handler sinks wired on `(src, port)` from entry `i` on, in
/// connection order.
pub open spec fn handler_targets(conns: Seq<crate::sim::Connection>, src: usize, port: u32, i: int)
    -> Seq<(usize, u32)>
    decreases conns.len() - i,
{
    if i < 0 || i >= conns.len() {
        Seq::empty()
    } else {
        let rest = handler_targets(conns, src, port, i + 1);
        if conns[i].src == src && conns[i].port == port {
            match conns[i].sink {
                Sink::Handler { dest, port: dport } => seq![(dest.index, dport)] + rest,
                Sink::Capture { .. } => rest,
            }
        } else {
            rest
        }
    }
}

/// Broadcast fan-out: a broadcast that completes delivers to every
/// connected sink.  Every capture sink wired on the port holds the value;
/// for the handler sinks, one delivery per sink is pending at the current
/// instant, laid out after the existing queue in connection order with
/// consecutive sequence numbers — so they dispatch in connection order.
pub proof fn lemma_broadcast_fanout(
    s: AbsSim,
    conns: Seq<crate::sim::Connection>,
    src: usize,
    port: u32,
    value: Msg,
    i: int,
)
    requires
        wf(s),
        !(s.phase is Uninitialized),
        conns == s.conns,
        0 <= i,
    ensures
        ({
            let (s2, e) = apply_sinks(s, conns, src, port, value, i);
            e is None ==> {
                let ht = handler_targets(conns, src, port, i);
                &&& forall|c: int|
                    i <= c < conns.len() && (#[trigger] conns[c]).src == src && conns[c].port
                        == port ==> match conns[c].sink {
                        Sink::Capture { slot } => s2.captures[slot as int] == Some(value),
                        Sink::Handler { .. } => true,
                    }
                &&& forall|slot: int|
                    0 <= slot < s.captures.len() ==> #[trigger] s2.captures[slot]
                        == s.captures[slot] || s2.captures[slot] == Some(value)
                &&& s2.next_seq == s.next_seq + ht.len()
                &&& s2.queue.len() == s.queue.len() + ht.len()
                &&& forall|k: int|
                    0 <= k < ht.len() ==> #[trigger] s2.queue[s.queue.len() + k] == (Event {
                        due: s.clock,
                        seq: (s.next_seq + k) as u64,
                        urgent: true,
                        key: (s.next_seq + k) as u64,
                        kind: EventKind::Input {
                            target: ht[k].0,
                            port: ht[k].1,
                            value,
                            period: 0,
                        },
                    })
            }
        }),
    decreases conns.len() - i,
{
    lemma_apply_sinks_props(s, conns, src, port, value, i);
    if i >= conns.len() {
    } else {
        let c = conns[i];
        if c.src == src && c.port == port {
            match c.sink {
                Sink::Capture { slot } => {
                    assert(crate::sim::conn_wf(s, c));
                    let s1 = AbsSim {
                        captures: s.captures.update(slot as int, Some(value)),
                        ..s
                    };
                    crate::sim::lemma_capture_update(s, slot, value);
                    lemma_broadcast_fanout(s1, conns, src, port, value, i + 1);
                },
                Sink::Handler { dest, port: dport } => {
                    if can_alloc(s) {
                        assert(crate::sim::conn_wf(s, c));
                        let kind = EventKind::Input {
                            target: dest.index,
                            port: dport,
                            value,
                            period: 0,
                        };
                        assert forall|j: int|
                            0 <= j < s.queue.len() implies (#[trigger] s.queue[j]).key
                            != s.next_seq by {
                            assert(event_wf(s, s.queue[j]));
                        }
                        crate::sim::lemma_enq_wf(s, s.clock, true, s.next_seq, kind);
                        let s1 = enq_fresh(s, s.clock, true, kind);
                        lemma_broadcast_fanout(s1, conns, src, port, value, i + 1);
                        lemma_apply_sinks_props(s1, conns, src, port, value, i + 1);
                        let (s2, e) = apply_sinks(s, conns, src, port, value, i);
                        if e is None {
                            let ht = handler_targets(conns, src, port, i);
                            let ht1 = handler_targets(conns, src, port, i + 1);
                            assert(ht == seq![(dest.index, dport)] + ht1);
                            assert forall|k: int|
                                0 <= k < ht.len() implies #[trigger] s2.queue[s.queue.len() + k]
                                == (Event {
                                due: s.clock,
                                seq: (s.next_seq + k) as u64,
                                urgent: true,
                                key: (s.next_seq + k) as u64,
                                kind: EventKind::Input {
                                    target: ht[k].0,
                                    port: ht[k].1,
                                    value,
                                    period: 0,
                                },
                            }) by {
                                if k == 0 {
                                    assert(s2.queue[s1.queue.len() - 1 + 0] == s1.queue[
                                    s1.queue.len() - 1]);
                                    assert(ht[0] == (dest.index, dport));
                                } else {
                                    assert(s2.queue[s1.queue.len() + (k - 1)] == (Event {
                                        due: s1.clock,
                                        seq: (s1.next_seq + (k - 1)) as u64,
                                        urgent: true,
                                        key: (s1.next_seq + (k - 1)) as u64,
                                        kind: EventKind::Input {
                                            target: ht1[k - 1].0,
                                            port: ht1[k - 1].1,
                                            value,
                                            period: 0,
                                        },
                                    }));
                                    assert(ht[k] == ht1[k - 1]);
                                }
                            }
                        }
                    }
                },
            }
        } else {
            lemma_broadcast_fanout(s, conns, src, port, value, i + 1);
        }
    }
}

} // verus!
