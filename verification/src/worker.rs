//! The per-connection worker state machine.
//!
//! A worker owns one logical connection for a round: it repeatedly issues the
//! templated request, measures latency, tallies failures, reconnects
//! transparently, and stops at the round deadline. Everything the worker
//! *decides* is here, as a verified transition system over events; the
//! surrounding I/O (connecting, sending, racing the connection driver and the
//! deadline) merely reports which event happened.

use vstd::prelude::*;
use crate::results::{
    map_count, sat_add, sat_add_spec, tally_view, empty_model, lemma_tally_count_bound,
    lemma_tally_count_nonneg, ErrorTally, ResultModel, WorkerResult,
};

verus! {

/// The worker's position in its lifecycle:
/// `Connecting -> Serving <-> Reconnecting -> Terminated`.
#[derive(Clone, Copy, Debug, PartialEq, Eq, Structural)]
pub enum WorkerPhase {
    Connecting,
    Serving,
    Reconnecting,
    Terminated,
}

/// One outcome reported to the state machine by the I/O layer.
#[derive(Clone, Debug)]
pub enum WorkerEvent {
    /// The single initial connect attempt succeeded before the deadline.
    ConnectSucceeded,
    /// The single initial connect attempt failed or the deadline fired first.
    ConnectFailed,
    /// A request was sent and its response body fully drained: its latency
    /// (send to fully drained) and the bytes drained from the body, which
    /// accrue to the active connection's byte counter.
    RequestSucceeded { latency: u64, bytes: u64 },
    /// A request attempt failed (send error, body-read error, or the
    /// connection driver finished, meaning the connection closed or failed).
    RequestFailed { message: String },
    /// The round deadline fired while a request was in flight; the attempt is
    /// not counted in any way.
    DeadlineExceeded,
    /// A reconnect attempt succeeded before the deadline.
    ReconnectSucceeded,
    /// The deadline fired before any reconnect attempt succeeded.
    ReconnectTimedOut,
}

/// The mathematical state of a worker.
#[verifier::ext_equal]
pub ghost struct WorkerModel {
    pub phase: WorkerPhase,
    /// Whether the initial connect ever succeeded; a worker that never
    /// connected finalizes to the entirely empty result.
    pub connected_once: bool,
    /// Latency of each fully completed request, in completion order.
    pub request_times: Seq<u64>,
    /// Bytes received on each superseded connection.
    pub buffer_sizes: Seq<u64>,
    /// Bytes received so far on the currently active connection.
    pub current_bytes: u64,
    /// Occurrences of each distinct failure message.
    pub errors: Map<Seq<char>, u64>,
}

/// The state of a worker that has not done anything yet.
pub open spec fn fresh_model() -> WorkerModel {
    WorkerModel {
        phase: WorkerPhase::Connecting,
        connected_once: false,
        request_times: Seq::empty(),
        buffer_sizes: Seq::empty(),
        current_bytes: 0u64,
        errors: Map::empty(),
    }
}

/// Which events can be reported in which phase; nothing can follow
/// termination.
pub open spec fn event_allowed(phase: WorkerPhase, e: WorkerEvent) -> bool {
    match e {
        WorkerEvent::ConnectSucceeded => phase is Connecting,
        WorkerEvent::ConnectFailed => phase is Connecting,
        WorkerEvent::RequestSucceeded { .. } => phase is Serving,
        WorkerEvent::RequestFailed { .. } => phase is Serving,
        WorkerEvent::DeadlineExceeded => phase is Serving,
        WorkerEvent::ReconnectSucceeded => phase is Reconnecting,
        WorkerEvent::ReconnectTimedOut => phase is Reconnecting,
    }
}

/// The transition relation, as a function: what each event does to the state.
pub open spec fn step_model(m: WorkerModel, e: WorkerEvent) -> WorkerModel {
    match e {
        WorkerEvent::ConnectSucceeded => WorkerModel {
            phase: WorkerPhase::Serving,
            connected_once: true,
            ..m
        },
        WorkerEvent::ConnectFailed => WorkerModel { phase: WorkerPhase::Terminated, ..m },
        WorkerEvent::RequestSucceeded { latency, bytes } => WorkerModel {
            request_times: m.request_times.push(latency),
            current_bytes: sat_add_spec(m.current_bytes as int, bytes as int) as u64,
            ..m
        },
        WorkerEvent::RequestFailed { message } => WorkerModel {
            phase: WorkerPhase::Reconnecting,
            errors: m.errors.insert(
                message@,
                sat_add_spec(map_count(m.errors, message@), 1) as u64,
            ),
            ..m
        },
        WorkerEvent::DeadlineExceeded => WorkerModel { phase: WorkerPhase::Terminated, ..m },
        WorkerEvent::ReconnectSucceeded => WorkerModel {
            phase: WorkerPhase::Serving,
            buffer_sizes: m.buffer_sizes.push(m.current_bytes),
            current_bytes: 0u64,
            ..m
        },
        WorkerEvent::ReconnectTimedOut => WorkerModel { phase: WorkerPhase::Terminated, ..m },
    }
}

/// What a terminated worker hands back: a worker that never connected returns
/// the entirely empty result; otherwise one wall-time entry, the measured
/// latencies, the bytes of every connection it used (the active connection's
/// counter included), and the error tally.
pub open spec fn finalize_model(m: WorkerModel, total_time: u64) -> ResultModel {
    if !m.connected_once {
        empty_model()
    } else {
        ResultModel {
            total_times: seq![total_time],
            request_times: m.request_times,
            buffer_sizes: m.buffer_sizes.push(m.current_bytes),
            errors: m.errors,
        }
    }
}

/// The executable worker state.
pub struct Worker {
    pub phase: WorkerPhase,
    pub connected_once: bool,
    pub request_times: Vec<u64>,
    pub buffer_sizes: Vec<u64>,
    pub current_bytes: u64,
    pub errors: ErrorTally,
}

impl View for Worker {
    type V = WorkerModel;

    open spec fn view(&self) -> WorkerModel {
        WorkerModel {
            phase: self.phase,
            connected_once: self.connected_once,
            request_times: self.request_times@,
            buffer_sizes: self.buffer_sizes@,
            current_bytes: self.current_bytes,
            errors: tally_view(self.errors),
        }
    }
}

impl Worker {
    pub open spec fn wf(&self) -> bool {
        self.errors.wf()
    }

    /// A worker about to make its initial connect attempt.
    pub fn new() -> (w: Worker)
        ensures
            w.wf(),
            w@ == fresh_model(),
    {
        let w = Worker {
            phase: WorkerPhase::Connecting,
            connected_once: false,
            request_times: Vec::new(),
            buffer_sizes: Vec::new(),
            current_bytes: 0,
            errors: ErrorTally::new(),
        };
        proof {
            assert(tally_view(w.errors) =~= Map::<Seq<char>, u64>::empty());
            assert(w@ =~= fresh_model());
        }
        w
    }

    /// Apply one reported event. This is the whole of the worker's decision
    /// logic: everything else only produces events.
    pub fn step(&mut self, event: WorkerEvent)
        requires
            old(self).wf(),
            event_allowed(old(self)@.phase, event),
        ensures
            final(self).wf(),
            final(self)@ == step_model(old(self)@, event),
    {
        let ghost m0 = old(self)@;
        let ghost e0 = event;
        match event {
            WorkerEvent::ConnectSucceeded => {
                self.phase = WorkerPhase::Serving;
                self.connected_once = true;
            },
            WorkerEvent::ConnectFailed => {
                self.phase = WorkerPhase::Terminated;
            },
            WorkerEvent::RequestSucceeded { latency, bytes } => {
                self.request_times.push(latency);
                self.current_bytes = sat_add(self.current_bytes, bytes);
            },
            WorkerEvent::RequestFailed { message } => {
                let ghost k = message@;
                proof {
                    lemma_tally_count_bound(self.errors.entries@, k);
                }
                self.errors.add_error(message);
                self.phase = WorkerPhase::Reconnecting;
                proof {
                    assert forall|k2: Seq<char>|
                        tally_view(self.errors).contains_key(k2) <==> step_model(
                            m0,
                            e0,
                        ).errors.contains_key(k2) by {
                        lemma_tally_count_nonneg(old(self).errors.entries@, k2);
                    }
                    assert forall|k2: Seq<char>|
                        tally_view(self.errors).contains_key(k2) implies tally_view(self.errors)[k2]
                        == step_model(m0, e0).errors[k2] by {
                        lemma_tally_count_nonneg(old(self).errors.entries@, k2);
                    }
                    assert(tally_view(self.errors) =~= step_model(m0, e0).errors);
                }
            },
            WorkerEvent::DeadlineExceeded => {
                self.phase = WorkerPhase::Terminated;
            },
            WorkerEvent::ReconnectSucceeded => {
                self.buffer_sizes.push(self.current_bytes);
                self.current_bytes = 0;
                self.phase = WorkerPhase::Serving;
            },
            WorkerEvent::ReconnectTimedOut => {
                self.phase = WorkerPhase::Terminated;
            },
        }
        proof {
            assert(self@ =~= step_model(m0, e0));
        }
    }

    /// Hand back the worker's result, with `total_time` the wall time since
    /// the worker started (in nanoseconds). A worker that never connected
    /// returns the entirely empty result: no partial credit for a worker that
    /// never served.
    pub fn finalize(self, total_time: u64) -> (r: WorkerResult)
        requires
            self.wf(),
            self@.phase is Terminated,
        ensures
            r.wf(),
            r@ == finalize_model(self@, total_time),
    {
        if !self.connected_once {
            let r = WorkerResult::default();
            proof {
                assert(r@ =~= finalize_model(self@, total_time));
            }
            r
        } else {
            let mut buffer_sizes = self.buffer_sizes;
            buffer_sizes.push(self.current_bytes);
            let mut total_times: Vec<u64> = Vec::new();
            total_times.push(total_time);
            let r = WorkerResult {
                total_times,
                request_times: self.request_times,
                buffer_sizes,
                error_map: self.errors,
            };
            proof {
                assert(r@.total_times =~= seq![total_time]);
                assert(r@ =~= finalize_model(self@, total_time));
            }
            r
        }
    }
}

/// A whole trace of events is allowed when each event is allowed in the phase
/// the preceding events lead to.
pub open spec fn trace_allowed(m: WorkerModel, es: Seq<WorkerEvent>) -> bool
    decreases es.len(),
{
    es.len() == 0 || (event_allowed(m.phase, es.first()) && trace_allowed(
        step_model(m, es.first()),
        es.drop_first(),
    ))
}

/// The state a trace of events leads to.
pub open spec fn run_model(m: WorkerModel, es: Seq<WorkerEvent>) -> WorkerModel
    decreases es.len(),
{
    if es.len() == 0 {
        m
    } else {
        run_model(step_model(m, es.first()), es.drop_first())
    }
}

/// The latencies of the successful requests in a trace, in order.
pub open spec fn success_latencies(es: Seq<WorkerEvent>) -> Seq<u64>
    decreases es.len(),
{
    if es.len() == 0 {
        Seq::empty()
    } else {
        (match es.first() {
            WorkerEvent::RequestSucceeded { latency, .. } => seq![latency],
            _ => Seq::empty(),
        }) + success_latencies(es.drop_first())
    }
}

/// How many failed request attempts in a trace carry the message `k`.
pub open spec fn failure_count(es: Seq<WorkerEvent>, k: Seq<char>) -> nat
    decreases es.len(),
{
    if es.len() == 0 {
        0
    } else {
        (match es.first() {
            WorkerEvent::RequestFailed { message } => if message@ == k {
                1nat
            } else {
                0nat
            },
            _ => 0nat,
        }) + failure_count(es.drop_first(), k)
    }
}

/// The events that drive a worker to termination.
pub open spec fn is_terminal_event(e: WorkerEvent) -> bool {
    ||| e is ConnectFailed
    ||| e is DeadlineExceeded
    ||| e is ReconnectTimedOut
}

/// Running a trace and then one more event is stepping the trace's final
/// state.
pub proof fn lemma_run_snoc(m: WorkerModel, es: Seq<WorkerEvent>, e: WorkerEvent)
    ensures
        run_model(m, es.push(e)) == step_model(run_model(m, es), e),
        trace_allowed(m, es.push(e)) <==> trace_allowed(m, es) && event_allowed(
            run_model(m, es).phase,
            e,
        ),
    decreases es.len(),
{
    reveal_with_fuel(run_model, 3);
    reveal_with_fuel(trace_allowed, 3);
    if es.len() == 0 {
        assert(es.push(e).drop_first() =~= Seq::<WorkerEvent>::empty());
        assert(es.push(e).first() == e);
    } else {
        assert(es.push(e).first() == es.first());
        assert(es.push(e).drop_first() =~= es.drop_first().push(e));
        lemma_run_snoc(step_model(m, es.first()), es.drop_first(), e);
    }
}

/// Over any allowed trace, the latency sequence grows by exactly the
/// latencies of the successful requests, in order — one entry per fully
/// completed request and nothing else.
pub proof fn lemma_run_request_times(m: WorkerModel, es: Seq<WorkerEvent>)
    requires
        trace_allowed(m, es),
    ensures
        run_model(m, es).request_times == m.request_times + success_latencies(es),
    decreases es.len(),
{
    if es.len() == 0 {
        assert(m.request_times + Seq::<u64>::empty() =~= m.request_times);
    } else {
        let m1 = step_model(m, es.first());
        lemma_run_request_times(m1, es.drop_first());
        match es.first() {
            WorkerEvent::RequestSucceeded { latency, .. } => {
                assert(m1.request_times =~= m.request_times + seq![latency]);
            },
            _ => {
                assert(m1.request_times == m.request_times);
            },
        }
        assert(m1.request_times + success_latencies(es.drop_first()) =~= m.request_times
            + success_latencies(es));
    }
}

/// Over any allowed trace, every message's error count grows by exactly the
/// number of failed attempts that carried it (saturating at `u64::MAX`).
pub proof fn lemma_run_error_counts(m: WorkerModel, es: Seq<WorkerEvent>, k: Seq<char>)
    requires
        trace_allowed(m, es),
    ensures
        map_count(run_model(m, es).errors, k) == sat_add_spec(
            map_count(m.errors, k),
            failure_count(es, k) as int,
        ),
    decreases es.len(),
{
    if es.len() == 0 {
    } else {
        let m1 = step_model(m, es.first());
        lemma_run_error_counts(m1, es.drop_first(), k);
    }
}

/// A worker does not terminate as long as every failure is answered by a
/// successful reconnect: a trace without a terminal event never leaves the
/// worker terminated.
pub proof fn lemma_run_keeps_going(m: WorkerModel, es: Seq<WorkerEvent>)
    requires
        trace_allowed(m, es),
        !(m.phase is Terminated),
        forall|i: int| 0 <= i < es.len() ==> !is_terminal_event(#[trigger] es[i]),
    ensures
        !(run_model(m, es).phase is Terminated),
    decreases es.len(),
{
    if es.len() > 0 {
        let m1 = step_model(m, es.first());
        assert(!is_terminal_event(es[0]));
        assert(forall|i: int|
            0 <= i < es.drop_first().len() ==> !is_terminal_event(#[trigger] es.drop_first()[i]));
        lemma_run_keeps_going(m1, es.drop_first());
    }
}

/// A worker whose single initial connect attempt fails (or times out against
/// the deadline) terminates with the entirely empty result: no wall-time
/// entry, no latency, no bytes, no errors.
pub proof fn lemma_failed_connect_yields_empty_result(total_time: u64)
    ensures
        finalize_model(step_model(fresh_model(), WorkerEvent::ConnectFailed), total_time)
            == empty_model(),
        step_model(fresh_model(), WorkerEvent::ConnectFailed).phase is Terminated,
{
}

/// The deadline interrupting an in-flight request adds nothing to the
/// measurements: a worker that completed the requests of `es` and is then
/// stopped by the deadline reports exactly the latencies of `es` — never an
/// entry for the interrupted attempt.
pub proof fn lemma_deadline_not_counted(m: WorkerModel, es: Seq<WorkerEvent>)
    requires
        trace_allowed(m, es.push(WorkerEvent::DeadlineExceeded)),
    ensures
        run_model(m, es.push(WorkerEvent::DeadlineExceeded)).request_times == m.request_times
            + success_latencies(es),
        run_model(m, es.push(WorkerEvent::DeadlineExceeded)).phase is Terminated,
{
    lemma_run_snoc(m, es, WorkerEvent::DeadlineExceeded);
    lemma_run_request_times(m, es);
}

impl Worker {
    /// Apply a whole sequence of reported events in order.
    pub fn apply_events(&mut self, events: Vec<WorkerEvent>)
        requires
            old(self).wf(),
            trace_allowed(old(self)@, events@),
        ensures
            final(self).wf(),
            final(self)@ == run_model(old(self)@, events@),
    {
        let ghost all = events@;
        let mut rest = events;
        let ghost m0 = old(self)@;
        let mut i: usize = 0;
        let len = rest.len();
        while i < len
            invariant
                self.wf(),
                len == all.len(),
                i <= len,
                rest@ == all.skip(i as int),
                self@ == run_model(m0, all.take(i as int)),
                trace_allowed(self@, rest@),
            decreases len - i,
        {
            let e = rest.remove(0);
            proof {
                assert(all.skip(i as int).first() == all[i as int]);
                assert(all.skip(i as int).drop_first() =~= all.skip(i as int + 1));
                assert(all.take(i as int + 1) =~= all.take(i as int).push(all[i as int]));
                lemma_run_snoc(m0, all.take(i as int), all[i as int]);
            }
            self.step(e);
            i += 1;
        }
        proof {
            assert(all.take(len as int) =~= all);
        }
    }
}

} // verus!

