use vstd::prelude::*;
use crate::queue::{AdmissionQueue, Envelope, Rejected, SubmitError};
use crate::request::{fault_of, Request, ValidationFault};
use crate::response::{Completion, CompletionView, Response, ResponseView, Usage};

verus! {

/// The in-progress state of one admitted request.
#[derive(Debug)]
pub struct Generation {
    pub ticket: u64,
    pub request: Request,
    /// Everything generated so far.
    pub content: String,
}

/// Mathematical form of a `Generation`.
pub struct GenerationView {
    pub ticket: u64,
    pub request: Request,
    pub content: Seq<char>,
}

impl View for Generation {
    type V = GenerationView;

    open spec fn view(&self) -> GenerationView {
        GenerationView { ticket: self.ticket, request: self.request, content: self.content@ }
    }
}

/// What the executor reports for one active request after a step.
#[derive(Debug)]
pub enum Outcome {
    /// A further piece of output.
    Token(String),
    /// Generation ended normally.
    Finished(Usage),
    /// Generation failed.
    Fault(String, Usage),
    /// The executor's own machinery failed.
    Internal(String, Usage),
}

/// One executor result, addressed by ticket.
#[derive(Debug)]
pub struct StepEvent {
    pub ticket: u64,
    pub outcome: Outcome,
}

/// A response to hand to the caller that owns `ticket`.
#[derive(Debug)]
pub struct Delivery {
    pub ticket: u64,
    pub response: Response,
}

impl View for Delivery {
    type V = (u64, ResponseView);

    open spec fn view(&self) -> (u64, ResponseView) {
        (self.ticket, self.response@)
    }
}

/// Why a scheduler could not be built.
#[derive(Clone, Copy, Debug, PartialEq, Eq, Structural)]
pub enum ConfigError {
    /// The concurrency limit must be at least one.
    ZeroConcurrency,
}

/// The responses delivered so far, per ticket.
pub type Log = Map<u64, Seq<ResponseView>>;

/// A log in which only the last response may be terminal.
pub open spec fn log_ok(s: Seq<ResponseView>) -> bool {
    forall|i: int| 0 <= i < s.len() && #[trigger] s[i].is_terminal() ==> i == s.len() - 1
}

/// A log holding no terminal response.
pub open spec fn all_chunks(s: Seq<ResponseView>) -> bool {
    forall|i: int| 0 <= i < s.len() ==> !(#[trigger] s[i].is_terminal())
}

/// The log after `ds` have been delivered, in order.
pub open spec fn record(h: Log, ds: Seq<(u64, ResponseView)>) -> Log
    decreases ds.len(),
{
    if ds.len() == 0 {
        h
    } else {
        let h0 = record(h, ds.drop_last());
        let d = ds.last();
        h0.insert(d.0, h0[d.0].push(d.1))
    }
}

/// The generation states created when `es` are admitted, in order.
pub open spec fn admitted(es: Seq<Envelope>, cs: bool) -> Seq<GenerationView>
    decreases es.len(),
{
    if es.len() == 0 {
        Seq::empty()
    } else {
        let e = es.last();
        let rest = admitted(es.drop_last(), cs);
        if fault_of(e.request, cs) is None {
            rest.push(GenerationView { ticket: e.ticket, request: e.request, content: Seq::empty() })
        } else {
            rest
        }
    }
}

/// The validation errors delivered when `es` are admitted, in order.
pub open spec fn rejections(es: Seq<Envelope>, cs: bool) -> Seq<(u64, ResponseView)>
    decreases es.len(),
{
    if es.len() == 0 {
        Seq::empty()
    } else {
        let e = es.last();
        let rest = rejections(es.drop_last(), cs);
        match fault_of(e.request, cs) {
            Some(f) => rest.push((e.ticket, ResponseView::ValidationError(f))),
            None => rest,
        }
    }
}

/// The log once `es` are admitted: a fresh entry per ticket, holding its validation error if any.
pub open spec fn opened(h: Log, es: Seq<Envelope>, cs: bool) -> Log
    decreases es.len(),
{
    if es.len() == 0 {
        h
    } else {
        let e = es.last();
        let h0 = opened(h, es.drop_last(), cs);
        match fault_of(e.request, cs) {
            Some(f) => h0.insert(e.ticket, seq![ResponseView::ValidationError(f)]),
            None => h0.insert(e.ticket, Seq::empty()),
        }
    }
}

/// Where `t` stands among the active generations, if it does.
pub open spec fn find(active: Seq<GenerationView>, t: u64) -> Option<int> {
    if exists|i: int| 0 <= i < active.len() && active[i].ticket == t {
        Some(choose|i: int| 0 <= i < active.len() && active[i].ticket == t)
    } else {
        None
    }
}

/// The terminal response for a generation that produced `content` and ended with `o`.
pub open spec fn terminal_view(content: Seq<char>, o: Outcome) -> ResponseView {
    match o {
        Outcome::Token(_) => ResponseView::Chunk(content),
        Outcome::Finished(u) => ResponseView::Done(CompletionView { content, usage: u }),
        Outcome::Fault(m, u) => ResponseView::ModelError(m@, CompletionView { content, usage: u }),
        Outcome::Internal(m, u) => ResponseView::InternalError(
            m@,
            CompletionView { content, usage: u },
        ),
    }
}

/// Builds the terminal response for a generation that produced `content` and ended with `o`.
fn conclude(content: String, o: &Outcome) -> (r: Response)
    requires
        !(*o is Token),
    ensures
        r@ == terminal_view(content@, *o),
        r@.is_terminal(),
{
    match o {
        Outcome::Token(_) => Response::Chunk(content),
        Outcome::Finished(u) => Response::Done(Completion { content, usage: *u }),
        Outcome::Fault(m, u) => Response::ModelError(m.clone(), Completion { content, usage: *u }),
        Outcome::Internal(m, u) => Response::InternalError(
            m.clone(),
            Completion { content, usage: *u },
        ),
    }
}

/// Relies on String::push_str: `s` afterwards holds its old text followed by `t`.
#[verifier::external_body]
fn append(s: &mut String, t: &str)
    ensures
        final(s)@ == old(s)@ + t@,
{
    s.push_str(t)
}

/// The result of routing one event: the new active set and what is delivered.
pub open spec fn apply(active: Seq<GenerationView>, ev: StepEvent) -> (
    Seq<GenerationView>,
    Seq<(u64, ResponseView)>,
) {
    match find(active, ev.ticket) {
        None => (active, Seq::empty()),
        Some(i) => {
            let g = active[i];
            let t = ev.ticket;
            match ev.outcome {
                Outcome::Token(s) => (
                    active.update(
                        i,
                        GenerationView { ticket: g.ticket, request: g.request, content: g.content + s@ },
                    ),
                    if g.request.streaming {
                        seq![(t, ResponseView::Chunk(s@))]
                    } else {
                        Seq::empty()
                    },
                ),
                _ => (active.remove(i), seq![(t, terminal_view(g.content, ev.outcome))]),
            }
        },
    }
}

/// The result of routing `evs` in order.
pub open spec fn route_all(active: Seq<GenerationView>, evs: Seq<StepEvent>) -> (
    Seq<GenerationView>,
    Seq<(u64, ResponseView)>,
)
    decreases evs.len(),
{
    if evs.len() == 0 {
        (active, Seq::empty())
    } else {
        let (a, d) = route_all(active, evs.drop_last());
        let (a2, d2) = apply(a, evs.last());
        (a2, d + d2)
    }
}

/// How admission changes a scheduler: a prefix of the queue is taken, its valid
/// requests become active in order, its invalid ones are answered, and it stops
/// only when the queue is empty or every slot is taken by the time a valid
/// request comes up.
pub open spec fn admit_post(s0: Scheduler, s1: Scheduler, out: Seq<(u64, ResponseView)>) -> bool {
    let cs = s0.constraints_supported_spec();
    let k = s0.pending().len() - s1.pending().len();
    let taken = s0.pending().take(k);
    &&& s1.pending().len() <= s0.pending().len()
    &&& s1.pending() == s0.pending().skip(k)
    &&& s1.active_view() == s0.active_view() + admitted(taken, cs)
    &&& out == rejections(taken, cs)
    &&& s1.log() == opened(s0.log(), taken, cs)
    &&& s1.pending().len() == 0 || (s1.active_view().len() == s1.limit_spec() && fault_of(
        s1.pending()[0].request,
        cs,
    ) is None)
    &&& s1.limit_spec() == s0.limit_spec()
    &&& s1.constraints_supported_spec() == cs
    &&& s1.queue_capacity_spec() == s0.queue_capacity_spec()
    &&& s1.closed_spec() == s0.closed_spec()
    &&& s1.next_ticket_spec() == s0.next_ticket_spec()
}

/// Recording deliveries in two runs is recording them in one.
proof fn lemma_record_concat(
    h: Log,
    d1: Seq<(u64, ResponseView)>,
    d2: Seq<(u64, ResponseView)>,
)
    ensures
        record(record(h, d1), d2) == record(h, d1 + d2),
    decreases d2.len(),
{
    if d2.len() == 0 {
        assert(d1 + d2 =~= d1);
    } else {
        lemma_record_concat(h, d1, d2.drop_last());
        assert((d1 + d2).drop_last() =~= d1 + d2.drop_last());
    }
}

/// How routing a batch of results `evs` changes a scheduler.
pub open spec fn route_post(
    s0: Scheduler,
    s1: Scheduler,
    evs: Seq<StepEvent>,
    out: Seq<(u64, ResponseView)>,
) -> bool {
    &&& s1.active_view() == route_all(s0.active_view(), evs).0
    &&& out == route_all(s0.active_view(), evs).1
    &&& s1.log() == record(s0.log(), out)
    &&& s1.same_queue(s0)
}

/// How a submission changes a scheduler, and when it is refused.
pub open spec fn submit_post(s0: Scheduler, s1: Scheduler, request: Request, r: Result<u64, Rejected>) -> bool {
    &&& s1.unchanged_but_queue(s0)
    &&& s1.closed_spec() == s0.closed_spec()
    &&& r is Ok <==> !s0.closed_spec() && s0.pending().len() < s0.queue_capacity_spec()
        && s0.next_ticket_spec() < u64::MAX
    &&& s0.closed_spec() ==> r is Err && r->Err_0.error == SubmitError::QueueClosed
    &&& !s0.closed_spec() && s0.pending().len() == s0.queue_capacity_spec() ==> r is Err
        && r->Err_0.error == SubmitError::QueueFull
    &&& !s0.closed_spec() && s0.pending().len() < s0.queue_capacity_spec() && s0.next_ticket_spec()
        == u64::MAX ==> r is Err && r->Err_0.error == SubmitError::TicketsExhausted
    &&& r is Err ==> r->Err_0.request == request && s1.pending() == s0.pending()
        && s1.next_ticket_spec() == s0.next_ticket_spec()
    &&& r is Ok ==> {
        &&& r->Ok_0 == s0.next_ticket_spec()
        &&& s1.next_ticket_spec() == r->Ok_0 + 1
        &&& s1.pending() == s0.pending().push(Envelope { ticket: r->Ok_0, request })
    }
}

/// How closing changes a scheduler: it is closed and nothing else moves.
pub open spec fn close_post(s0: Scheduler, s1: Scheduler) -> bool {
    &&& s1.unchanged_but_queue(s0)
    &&& s1.closed_spec()
    &&& s1.pending() == s0.pending()
    &&& s1.next_ticket_spec() == s0.next_ticket_spec()
}

/// The step that the driving loop takes next.
#[derive(Clone, Copy, Debug, PartialEq, Eq, Structural)]
pub enum LoopAction {
    /// Call `admit_queued`.
    Admit,
    /// Hand the active batch to the executor and `route` what it returns.
    Execute,
    /// Suspend until a submission or a close.
    Wait,
    /// The queue is closed and drained: stop.
    Exit,
}

/// The loop's next step for a scheduler with `pending` queued and `active`
/// active requests.
pub open spec fn next_action_of(pending: nat, active: nat, limit: nat, closed: bool) -> LoopAction {
    if pending > 0 && active < limit {
        LoopAction::Admit
    } else if active > 0 {
        LoopAction::Execute
    } else if pending > 0 {
        LoopAction::Admit
    } else if closed {
        LoopAction::Exit
    } else {
        LoopAction::Wait
    }
}

/// The admission queue, the bounded set of active generations, and the log of
/// what each request has been sent.
pub struct Scheduler {
    queue: AdmissionQueue,
    active: Vec<Generation>,
    limit: usize,
    constraints_supported: bool,
    log: Ghost<Log>,
}

impl Scheduler {
    pub closed spec fn pending(&self) -> Seq<Envelope> {
        self.queue.pending()
    }

    pub closed spec fn active_view(&self) -> Seq<GenerationView> {
        self.active@.map_values(|g: Generation| g@)
    }

    pub closed spec fn log(&self) -> Log {
        self.log@
    }

    pub closed spec fn limit_spec(&self) -> nat {
        self.limit as nat
    }

    pub closed spec fn constraints_supported_spec(&self) -> bool {
        self.constraints_supported
    }

    pub closed spec fn closed_spec(&self) -> bool {
        self.queue.closed_spec()
    }

    pub closed spec fn queue_capacity_spec(&self) -> nat {
        self.queue.capacity_spec()
    }

    pub closed spec fn next_ticket_spec(&self) -> u64 {
        self.queue.next_ticket_spec()
    }

    /// No ticket at or above this bound has been admitted yet.
    pub open spec fn fresh_bound(&self) -> u64 {
        if self.pending().len() == 0 {
            self.next_ticket_spec()
        } else {
            self.pending()[0].ticket
        }
    }

    /// The scheduler's invariant.
    pub open spec fn wf(&self) -> bool {
        &&& self.queue_wf()
        &&& forall|i: int, j: int|
            0 <= i < j < self.pending().len() ==> #[trigger] self.pending()[i].ticket
                < #[trigger] self.pending()[j].ticket
        &&& self.limit_spec() >= 1
        &&& self.active_view().len() <= self.limit_spec()
        &&& forall|i: int, j: int|
            0 <= i < self.active_view().len() && 0 <= j < self.active_view().len() && i != j
                ==> #[trigger] self.active_view()[i].ticket != #[trigger] self.active_view()[j].ticket
        &&& forall|i: int|
            0 <= i < self.active_view().len() ==> {
                let g = #[trigger] self.active_view()[i];
                &&& self.log().contains_key(g.ticket)
                &&& all_chunks(self.log()[g.ticket])
                &&& !g.request.streaming ==> self.log()[g.ticket].len() == 0
            }
        &&& forall|t: u64| #[trigger] self.log().contains_key(t) ==> t < self.fresh_bound()
        &&& forall|t: u64| #[trigger] self.log().contains_key(t) ==> log_ok(self.log()[t])
        &&& forall|t: u64| #[trigger]
            self.log().contains_key(t) ==> self.answered(t) || self.is_active(t)
    }

    /// Ticket `t` has an active generation.
    pub open spec fn is_active(&self, t: u64) -> bool {
        exists|i: int| 0 <= i < self.active_view().len() && self.active_view()[i].ticket == t
    }

    /// Ticket `t` has received its terminal response.
    pub open spec fn answered(&self, t: u64) -> bool {
        self.log()[t].len() > 0 && self.log()[t].last().is_terminal()
    }

    pub closed spec fn queue_wf(&self) -> bool {
        self.queue.wf()
    }

    /// A scheduler admitting at most `limit` requests at once, with a queue of
    /// `queue_capacity` entries.
    pub fn new(limit: usize, queue_capacity: usize, constraints_supported: bool) -> (r: Result<
        Scheduler,
        ConfigError,
    >)
        ensures
            limit == 0 <==> r is Err,
            r is Err ==> r->Err_0 == ConfigError::ZeroConcurrency,
            r is Ok ==> {
                let s = r->Ok_0;
                &&& s.wf()
                &&& s.limit_spec() == limit
                &&& s.queue_capacity_spec() == queue_capacity
                &&& s.constraints_supported_spec() == constraints_supported
                &&& !s.closed_spec()
                &&& s.pending().len() == 0
                &&& s.active_view().len() == 0
                &&& s.log() == Log::empty()
                &&& s.next_ticket_spec() == 0
            },
    {
        if limit == 0 {
            return Err(ConfigError::ZeroConcurrency);
        }
        let s = Scheduler {
            queue: AdmissionQueue::new(queue_capacity),
            active: Vec::new(),
            limit,
            constraints_supported,
            log: Ghost(Log::empty()),
        };
        assert(s.active_view() =~= Seq::empty());
        Ok(s)
    }
    /// Queues a request; see `AdmissionQueue::submit`.
    pub fn submit(&mut self, request: Request) -> (r: Result<u64, Rejected>)
        requires
            old(self).wf(),
        ensures
            final(self).wf(),
            submit_post(*old(self), *final(self), request, r),
    {
        let r = self.queue.submit(request);
        assert(self.active_view() == old(self).active_view());
        assert(self.fresh_bound() == old(self).fresh_bound());
        assert(self.log() == old(self).log());
        r
    }

    /// Closes the admission queue. Queued and active requests still run to completion.
    pub fn close(&mut self)
        requires
            old(self).wf(),
        ensures
            final(self).wf(),
            close_post(*old(self), *final(self)),
    {
        self.queue.close();
        assert(self.active_view() == old(self).active_view());
        assert(self.fresh_bound() == old(self).fresh_bound());
        assert(self.log() == old(self).log());
    }

    /// Admits queued requests in submission order. A request that fails
    /// validation is answered with its `ValidationError` at once and takes no
    /// slot; a valid one gets a generation state while fewer than the limit are
    /// active. Stops at the first valid request that finds every slot taken.
    pub fn admit_queued(&mut self) -> (r: Vec<Delivery>)
        requires
            old(self).wf(),
        ensures
            final(self).wf(),
            admit_post(*old(self), *final(self), r@.map_values(|d: Delivery| d@)),
    {
        let mut out: Vec<Delivery> = Vec::new();
        let ghost cs = self.constraints_supported;
        let ghost p0 = old(self).pending();
        let ghost mut k: int = 0;
        proof {
            assert(p0.take(0) =~= Seq::<Envelope>::empty());
            assert(p0.skip(0) =~= p0);
            assert(self.active_view() + admitted(p0.take(0), cs) =~= self.active_view());
            assert(out@.map_values(|d: Delivery| d@) =~= rejections(p0.take(0), cs));
        }
        loop
            invariant
                self.wf(),
                cs == self.constraints_supported,
                p0 == old(self).pending(),
                0 <= k <= p0.len(),
                self.pending() == p0.skip(k),
                self.active_view() == old(self).active_view() + admitted(p0.take(k), cs),
                out@.map_values(|d: Delivery| d@) == rejections(p0.take(k), cs),
                self.log() == opened(old(self).log(), p0.take(k), cs),
                self.limit == old(self).limit,
                self.queue_capacity_spec() == old(self).queue_capacity_spec(),
                self.closed_spec() == old(self).closed_spec(),
                self.next_ticket_spec() == old(self).next_ticket_spec(),
            ensures
                self.pending().len() == 0 || (self.active_view().len() == self.limit_spec()
                    && fault_of(self.pending()[0].request, cs) is None),
            decreases self.pending().len(),
        {
            let go = match self.queue.front() {
                None => false,
                Some(e) => self.active.len() < self.limit || e.request.validate(
                    self.constraints_supported,
                ).is_some(),
            };
            if !go {
                break ;
            }
            let ghost a0 = self.active_view();
            let ghost h_prev = self.log@;
            assert(forall|t: u64| #[trigger]
                h_prev.contains_key(t) ==> (h_prev[t].len() > 0 && h_prev[t].last().is_terminal())
                    || exists|i: int| 0 <= i < a0.len() && a0[i].ticket == t);
            let ghost bound0 = self.fresh_bound();
            let e = match self.queue.pop_front() {
                Some(e) => e,
                None => {
                    break ;
                },
            };
            assert(e.ticket == bound0);
            assert(self.fresh_bound() > e.ticket) by {
                if self.pending().len() > 0 {
                    assert(self.pending()[0] == p0.skip(k)[1]);
                }
            }
            assert(!self.log().contains_key(e.ticket));
            let ghost ticket = e.ticket;
            let ghost request = e.request;
            let ghost fault = fault_of(e.request, cs);
            let v = e.request.validate(self.constraints_supported);
            match v {
                Some(f) => {
                    let ghost o = out@.map_values(|d: Delivery| d@);
                    out.push(Delivery { ticket: e.ticket, response: Response::ValidationError(f) });
                    assert(out@.map_values(|d: Delivery| d@) =~= o.push(
                        (ticket, ResponseView::ValidationError(f)),
                    ));
                    self.log = Ghost(self.log@.insert(ticket, seq![ResponseView::ValidationError(f)]));
                    assert(self.active_view() == a0);
                },
                None => {
                    self.active.push(
                        Generation { ticket: e.ticket, request: e.request, content: String::new() },
                    );
                    self.log = Ghost(self.log@.insert(ticket, Seq::empty()));
                    assert(self.active_view() =~= a0.push(
                        GenerationView { ticket, request, content: Seq::empty() },
                    ));
                },
            }
            proof {
                assert(p0.take(k + 1).drop_last() =~= p0.take(k));
                assert(p0.take(k + 1).last() == p0[k]);
                assert(p0.skip(k).drop_first() =~= p0.skip(k + 1));
                assert(self.pending() =~= p0.skip(k + 1));
                k = k + 1;
                assert forall|t: u64| #[trigger]
                    self.log().contains_key(t) implies self.answered(t) || self.is_active(t) by {
                    let a1 = self.active_view();
                    if t == ticket {
                        if fault is None {
                            assert(a1[a0.len() as int].ticket == t);
                        }
                    } else if !self.answered(t) {
                        let w = choose|i: int| 0 <= i < a0.len() && a0[i].ticket == t;
                        assert(a1[w] == a0[w]);
                    }
                }
            }
        }
        assert(self.pending() =~= p0.skip(k));
        out
    }

    /// The index of the active generation holding ticket `t`.
    fn position(&self, t: u64) -> (r: Option<usize>)
        requires
            self.wf(),
        ensures
            r is None ==> find(self.active_view(), t) is None,
            r is Some ==> find(self.active_view(), t) == Some(r->Some_0 as int),
    {
        let mut i: usize = 0;
        while i < self.active.len()
            invariant
                self.wf(),
                i <= self.active@.len(),
                forall|j: int| 0 <= j < i ==> (#[trigger] self.active_view()[j]).ticket != t,
            decreases self.active@.len() - i,
        {
            assert(self.active_view()[i as int] == self.active@[i as int]@);
            if self.active[i].ticket == t {
                let ghost a = self.active_view();
                assert(exists|j: int| 0 <= j < a.len() && a[j].ticket == t);
                let ghost c = choose|j: int| 0 <= j < a.len() && a[j].ticket == t;
                assert(c == i);
                return Some(i);
            }
            i = i + 1;
        }
        None
    }

    /// Routes one executor result to its request. A result for a ticket that
    /// is not active is dropped.
    fn route_one(&mut self, ev: &StepEvent, out: &mut Vec<Delivery>)
        requires
            old(self).wf(),
        ensures
            final(self).wf(),
            final(self).active_view() == apply(old(self).active_view(), *ev).0,
            final(out)@.map_values(|d: Delivery| d@) == old(out)@.map_values(|d: Delivery| d@)
                + apply(old(self).active_view(), *ev).1,
            final(self).log() == record(old(self).log(), apply(old(self).active_view(), *ev).1),
            final(self).same_queue(*old(self)),
    {
        let ghost a0 = self.active_view();
        let ghost o0 = out@.map_values(|d: Delivery| d@);
        let ghost h0 = self.log@;
        assert forall|t: u64| #[trigger] h0.contains_key(t) implies (h0[t].len() > 0
            && h0[t].last().is_terminal()) || exists|i: int| 0 <= i < a0.len() && a0[i].ticket == t by {
            assert(self.log().contains_key(t));
            if !self.answered(t) {
                let w = choose|i: int|
                    0 <= i < self.active_view().len() && self.active_view()[i].ticket == t;
                assert(a0[w].ticket == t);
            }
        }
        let pos = self.position(ev.ticket);
        let i = match pos {
            None => {
                assert(out@.map_values(|d: Delivery| d@) =~= o0 + Seq::empty());
                return ;
            },
            Some(i) => i,
        };
        let t = ev.ticket;
        assert(a0[i as int] == self.active@[i as int]@);
        match &ev.outcome {
            Outcome::Token(piece) => {
                let mut g = self.active.remove(i);
                append(&mut g.content, piece.as_str());
                let streaming = g.request.streaming;
                let ghost gv = g@;
                self.active.insert(i, g);
                assert(self.active_view() =~= a0.update(i as int, gv));
                if streaming {
                    out.push(Delivery { ticket: t, response: Response::Chunk(piece.clone()) });
                    let ghost d = (t, ResponseView::Chunk(piece@));
                    assert(out@.map_values(|d: Delivery| d@) =~= o0 + seq![d]);
                    self.log = Ghost(h0.insert(t, h0[t].push(d.1)));
                    assert(seq![d].drop_last() =~= Seq::<(u64, ResponseView)>::empty());
                    assert(record(h0, Seq::empty()) == h0);
                    assert(record(h0, seq![d]) == self.log());
                    assert(apply(a0, *ev).1 == seq![d]);
                } else {
                    assert(apply(a0, *ev).1 == Seq::<(u64, ResponseView)>::empty());
                    assert(record(h0, Seq::empty()) == self.log());
                    assert(out@.map_values(|d: Delivery| d@) =~= o0 + Seq::empty());
                }
                proof {
                    let a1 = self.active_view();
                    assert forall|j: int| 0 <= j < a1.len() implies {
                        let g = #[trigger] a1[j];
                        &&& self.log().contains_key(g.ticket)
                        &&& all_chunks(self.log()[g.ticket])
                        &&& !g.request.streaming ==> self.log()[g.ticket].len() == 0
                    } by {
                        assert(a1[j].ticket == a0[j].ticket);
                    }
                    assert forall|j: int, l: int|
                        0 <= j < a1.len() && 0 <= l < a1.len() && j != l implies #[trigger] a1[j].ticket
                        != #[trigger] a1[l].ticket by {
                        assert(a1[j].ticket == a0[j].ticket);
                        assert(a1[l].ticket == a0[l].ticket);
                    }
                    assert forall|u: u64| #[trigger]
                        self.log().contains_key(u) implies self.answered(u) || self.is_active(u) by {
                        if !self.answered(u) {
                            let w = choose|j: int| 0 <= j < a0.len() && a0[j].ticket == u;
                            assert(a1[w].ticket == a0[w].ticket);
                        }
                    }
                }
            },
            _ => {
                let g = self.active.remove(i);
                let ghost gc = g.content@;
                let response = conclude(g.content, &ev.outcome);
                let ghost rv = response@;
                out.push(Delivery { ticket: t, response });
                let ghost d = (t, rv);
                assert(out@.map_values(|d: Delivery| d@) =~= o0 + seq![d]);
                self.log = Ghost(h0.insert(t, h0[t].push(rv)));
                assert(seq![d].drop_last() =~= Seq::<(u64, ResponseView)>::empty());
                assert(record(h0, Seq::empty()) == h0);
                    assert(record(h0, seq![d]) == self.log());
                assert(apply(a0, *ev).1 == seq![d]);
                assert(self.active_view() =~= a0.remove(i as int));
                proof {
                    let a1 = self.active_view();
                    assert forall|j: int| 0 <= j < a1.len() implies {
                        let g = #[trigger] a1[j];
                        &&& self.log().contains_key(g.ticket)
                        &&& all_chunks(self.log()[g.ticket])
                        &&& !g.request.streaming ==> self.log()[g.ticket].len() == 0
                    } by {
                        if j < i {
                            assert(a1[j] == a0[j]);
                        } else {
                            assert(a1[j] == a0[j + 1]);
                        }
                    }
                    assert forall|j: int, l: int|
                        0 <= j < a1.len() && 0 <= l < a1.len() && j != l implies #[trigger] a1[j].ticket
                        != #[trigger] a1[l].ticket by {
                        let jj = if j < i { j } else { j + 1 };
                        let ll = if l < i { l } else { l + 1 };
                        assert(a1[j] == a0[jj]);
                        assert(a1[l] == a0[ll]);
                    }
                    assert(log_ok(self.log()[t]));
                    assert forall|u: u64| #[trigger]
                        self.log().contains_key(u) implies self.answered(u) || self.is_active(u) by {
                        if u != t && !self.answered(u) {
                            let w = choose|j: int| 0 <= j < a0.len() && a0[j].ticket == u;
                            assert(w != i);
                            let ww = if w < i { w } else { w - 1 };
                            assert(a1[ww] == a0[w]);
                        }
                    }
                }
            },
        }
    }

    /// Routes a batch of executor results in the order given. Each result for
    /// an active request is turned into at most one response for it; a terminal
    /// one ends that request and frees its slot. Results for other tickets are
    /// dropped.
    pub fn route(&mut self, events: &Vec<StepEvent>) -> (r: Vec<Delivery>)
        requires
            old(self).wf(),
        ensures
            final(self).wf(),
            route_post(*old(self), *final(self), events@, r@.map_values(|d: Delivery| d@)),
    {
        let mut out: Vec<Delivery> = Vec::new();
        let mut i: usize = 0;
        proof {
            assert(events@.take(0) =~= Seq::<StepEvent>::empty());
            assert(out@.map_values(|d: Delivery| d@) =~= Seq::<(u64, ResponseView)>::empty());
        }
        while i < events.len()
            invariant
                self.wf(),
                i <= events@.len(),
                self.active_view() == route_all(old(self).active_view(), events@.take(i as int)).0,
                out@.map_values(|d: Delivery| d@) == route_all(
                    old(self).active_view(),
                    events@.take(i as int),
                ).1,
                self.log() == record(old(self).log(), out@.map_values(|d: Delivery| d@)),
                self.same_queue(*old(self)),
            decreases events@.len() - i,
        {
            let ghost o = out@.map_values(|d: Delivery| d@);
            let ghost a = self.active_view();
            self.route_one(&events[i], &mut out);
            proof {
                assert(events@.take(i + 1).drop_last() =~= events@.take(i as int));
                assert(events@.take(i + 1).last() == events@[i as int]);
                lemma_record_concat(old(self).log(), o, apply(a, events@[i as int]).1);
            }
            i = i + 1;
        }
        assert(events@.take(i as int) =~= events@);
        out
    }

    /// The batch handed to the executor: every active generation, in admission order.
    pub fn active(&self) -> (r: &Vec<Generation>)
        ensures
            r@.map_values(|g: Generation| g@) == self.active_view(),
    {
        &self.active
    }

    pub fn active_count(&self) -> (r: usize)
        ensures
            r == self.active_view().len(),
    {
        self.active.len()
    }

    pub fn pending_count(&self) -> (r: usize)
        ensures
            r == self.pending().len(),
    {
        self.queue.len()
    }

    pub fn limit(&self) -> (r: usize)
        ensures
            r == self.limit_spec(),
    {
        self.limit
    }

    pub fn is_closed(&self) -> (r: bool)
        ensures
            r == self.closed_spec(),
    {
        self.queue.is_closed()
    }

    /// Nothing is queued and nothing is active: the loop may wait for a submission.
    pub fn is_idle(&self) -> (r: bool)
        ensures
            r == (self.pending().len() == 0 && self.active_view().len() == 0),
    {
        self.queue.len() == 0 && self.active.len() == 0
    }

    /// Closed and idle: every admitted request has been answered and the loop ends.
    pub fn is_drained(&self) -> (r: bool)
        ensures
            r == (self.closed_spec() && self.pending().len() == 0 && self.active_view().len()
                == 0),
    {
        self.queue.is_closed() && self.is_idle()
    }

    /// What the driving loop does next: admit while requests are queued and a
    /// slot is free, run the executor while any request is active, end once the
    /// queue is closed and everything has been answered, and otherwise wait for
    /// a submission.
    pub fn next_action(&self) -> (r: LoopAction)
        ensures
            r == next_action_of(self.pending().len(), self.active_view().len(), self.limit_spec(), self.closed_spec()),
    {
        if self.queue.len() > 0 && self.active.len() < self.limit {
            LoopAction::Admit
        } else if self.active.len() > 0 {
            LoopAction::Execute
        } else if self.queue.len() > 0 {
            LoopAction::Admit
        } else if self.queue.is_closed() {
            LoopAction::Exit
        } else {
            LoopAction::Wait
        }
    }

    /// The queue and the configuration are as in `o`.
    pub open spec fn same_queue(&self, o: Scheduler) -> bool {
        &&& self.pending() == o.pending()
        &&& self.limit_spec() == o.limit_spec()
        &&& self.constraints_supported_spec() == o.constraints_supported_spec()
        &&& self.queue_capacity_spec() == o.queue_capacity_spec()
        &&& self.closed_spec() == o.closed_spec()
        &&& self.next_ticket_spec() == o.next_ticket_spec()
    }

    /// Everything but the queue's contents and state is as in `o`.
    pub open spec fn unchanged_but_queue(&self, o: Scheduler) -> bool {
        &&& self.active_view() == o.active_view()
        &&& self.log() == o.log()
        &&& self.limit_spec() == o.limit_spec()
        &&& self.constraints_supported_spec() == o.constraints_supported_spec()
        &&& self.queue_capacity_spec() == o.queue_capacity_spec()
    }
}

} // verus!
