use vstd::prelude::*;
use crate::queue::{Envelope, Rejected};
use crate::request::{fault_of, Request};
use crate::response::{CompletionView, ResponseView, Usage};
use crate::scheduler::{
    admit_post, admitted, rejections, all_chunks, close_post, find, log_ok, route_all, submit_post, terminal_view,
    GenerationView, LoopAction, next_action_of, Outcome, Scheduler, StepEvent,
};

verus! {

/// The generation state created for a valid envelope.
pub open spec fn fresh(e: Envelope) -> GenerationView {
    GenerationView { ticket: e.ticket, request: e.request, content: Seq::empty() }
}

proof fn lemma_admitted_all_valid(es: Seq<Envelope>, cs: bool)
    requires
        forall|i: int| 0 <= i < es.len() ==> fault_of(#[trigger] es[i].request, cs) is None,
    ensures
        admitted(es, cs) == es.map_values(|e: Envelope| fresh(e)),
    decreases es.len(),
{
    if es.len() > 0 {
        let d = es.drop_last();
        assert forall|i: int| 0 <= i < d.len() implies fault_of(#[trigger] d[i].request, cs)
            is None by {
            assert(d[i] == es[i]);
        }
        lemma_admitted_all_valid(d, cs);
        assert(es.map_values(|e: Envelope| fresh(e)) =~= d.map_values(|e: Envelope| fresh(e)).push(
            fresh(es.last()),
        ));
    } else {
        assert(es.map_values(|e: Envelope| fresh(e)) =~= Seq::<GenerationView>::empty());
    }
}

proof fn lemma_admitted_prefix(es: Seq<Envelope>, cs: bool, k: int, m: int)
    requires
        0 <= k <= m <= es.len(),
    ensures
        admitted(es.take(k), cs).len() <= admitted(es.take(m), cs).len(),
        admitted(es.take(m), cs).take(admitted(es.take(k), cs).len() as int) == admitted(
            es.take(k),
            cs,
        ),
    decreases m - k,
{
    if m == k {
        assert(admitted(es.take(m), cs).take(admitted(es.take(k), cs).len() as int) =~= admitted(
            es.take(k),
            cs,
        ));
    } else {
        lemma_admitted_prefix(es, cs, k, m - 1);
        assert(es.take(m).drop_last() =~= es.take(m - 1));
        let p = admitted(es.take(m - 1), cs);
        let q = admitted(es.take(m), cs);
        let n = admitted(es.take(k), cs).len() as int;
        assert(q.take(n) =~= p.take(n));
    }
}

/// No more requests are active at once than the concurrency limit allows.
pub proof fn law_concurrency_bound(s: Scheduler)
    requires
        s.wf(),
    ensures
        s.active_view().len() <= s.limit_spec(),
{
}

/// Every request receives at most one terminal response, and it is the last
/// thing it receives: chunks only come before it. A request that is still
/// active has received no terminal response, and, unless it streams, nothing;
/// one that is no longer active has received exactly one.
pub proof fn law_single_terminal(s: Scheduler, t: u64)
    requires
        s.wf(),
        s.log().contains_key(t),
    ensures
        forall|i: int, j: int|
            0 <= i < s.log()[t].len() && 0 <= j < s.log()[t].len() && (
            #[trigger] s.log()[t][i]).is_terminal() && (#[trigger] s.log()[t][j]).is_terminal()
                ==> i == j,
        forall|i: int, j: int|
            0 <= i < j < s.log()[t].len() && (#[trigger] s.log()[t][i]).is_terminal() ==> !(
            #[trigger] s.log()[t][j]).is_terminal(),
        forall|i: int|
            0 <= i < s.active_view().len() && (#[trigger] s.active_view()[i]).ticket == t
                ==> all_chunks(s.log()[t]) && (!s.active_view()[i].request.streaming ==> s.log()[t].len()
                == 0),
        !s.is_active(t) ==> s.log()[t].len() > 0 && s.log()[t].last().is_terminal(),
{
    assert(log_ok(s.log()[t]));
}

/// First in, first out: when the first `k` queued requests are valid and `k`
/// slots are free, admission makes all `k` of them active, in submission order,
/// and every request still queued was submitted after them.
pub proof fn law_fifo_admission(s0: Scheduler, s1: Scheduler, out: Seq<(u64, ResponseView)>, k: int)
    requires
        s0.wf(),
        s1.wf(),
        admit_post(s0, s1, out),
        0 <= k <= s0.pending().len(),
        s0.active_view().len() + k <= s0.limit_spec(),
        forall|i: int|
            0 <= i < k ==> fault_of(#[trigger] s0.pending()[i].request, s0.constraints_supported_spec())
                is None,
    ensures
        forall|i: int|
            0 <= i < k ==> s1.active_view()[s0.active_view().len() + i] == fresh(
                #[trigger] s0.pending()[i],
            ),
        forall|i: int, j: int|
            0 <= i < k && 0 <= j < s1.pending().len() ==> #[trigger] s0.pending()[i].ticket
                < #[trigger] s1.pending()[j].ticket,
{
    let cs = s0.constraints_supported_spec();
    let p = s0.pending();
    let m = p.len() - s1.pending().len();
    let n0 = s0.active_view().len();
    if m < k {
        let tm = p.take(m);
        assert forall|i: int| 0 <= i < tm.len() implies fault_of(#[trigger] tm[i].request, cs)
            is None by {
            assert(tm[i] == p[i]);
        }
        lemma_admitted_all_valid(tm, cs);
        assert(s1.pending()[0] == p[m]);
        assert(s1.active_view().len() == n0 + m);
        assert(false);
    }
    let tk = p.take(k);
    assert forall|i: int| 0 <= i < tk.len() implies fault_of(#[trigger] tk[i].request, cs)
        is None by {
        assert(tk[i] == p[i]);
    }
    lemma_admitted_all_valid(tk, cs);
    lemma_admitted_prefix(p, cs, k, m);
    let am = admitted(p.take(m), cs);
    assert forall|i: int| 0 <= i < k implies s1.active_view()[n0 + i] == fresh(
        #[trigger] s0.pending()[i],
    ) by {
        assert(s1.active_view()[n0 + i] == am[i]);
        assert(am.take(k)[i] == am[i]);
        assert(tk[i] == p[i]);
    }
    assert forall|i: int, j: int|
        0 <= i < k && 0 <= j < s1.pending().len() implies #[trigger] s0.pending()[i].ticket
        < #[trigger] s1.pending()[j].ticket by {
        assert(s1.pending()[j] == p[m + j]);
    }
}

/// A request submitted while a slot is free and nothing is queued is admitted
/// by the next admission: it never waits behind the concurrency limit. An
/// invalid one is answered with its validation error instead.
pub proof fn law_prompt_admission(
    s0: Scheduler,
    s1: Scheduler,
    request: Request,
    r: Result<u64, Rejected>,
    s2: Scheduler,
    out: Seq<(u64, ResponseView)>,
)
    requires
        s0.wf(),
        s1.wf(),
        !s0.closed_spec(),
        s0.pending().len() == 0,
        s0.active_view().len() < s0.limit_spec(),
        s0.queue_capacity_spec() >= 1,
        s0.next_ticket_spec() < u64::MAX,
        submit_post(s0, s1, request, r),
        admit_post(s1, s2, out),
    ensures
        r is Ok,
        s2.pending().len() == 0,
        fault_of(request, s0.constraints_supported_spec()) is None ==> s2.active_view()
            == s0.active_view().push(fresh(Envelope { ticket: r->Ok_0, request })),
        fault_of(request, s0.constraints_supported_spec()) matches Some(f) ==> s2.active_view()
            == s0.active_view() && out == seq![(r->Ok_0, ResponseView::ValidationError(f))],
{
    let cs = s0.constraints_supported_spec();
    let e = Envelope { ticket: r->Ok_0, request };
    let p = s1.pending();
    assert(s0.pending() =~= Seq::<Envelope>::empty());
    assert(p =~= seq![e]);
    if s2.pending().len() == 1 {
        assert(p.take(0) =~= Seq::<Envelope>::empty());
        assert(s2.active_view() =~= s1.active_view());
        assert(false);
    }
    assert(p.take(1) =~= p);
    assert(p.drop_last() =~= Seq::<Envelope>::empty());
    assert(admitted(Seq::<Envelope>::empty(), cs) =~= Seq::<GenerationView>::empty());
    assert(rejections(Seq::<Envelope>::empty(), cs) =~= Seq::<(u64, ResponseView)>::empty());
    if fault_of(request, cs) is None {
        assert(s2.active_view() =~= s0.active_view().push(fresh(e)));
    } else {
        assert(s2.active_view() =~= s0.active_view());
    }
}

/// Closing twice leaves the scheduler as closing once does, with everything
/// that was queued or active kept; routing afterwards answers the active
/// requests exactly as it would have before the close, and the loop ends only
/// once nothing is queued or active.
pub proof fn law_close_idempotent(s0: Scheduler, s1: Scheduler, s2: Scheduler, evs: Seq<StepEvent>)
    requires
        close_post(s0, s1),
        close_post(s1, s2),
    ensures
        s2.closed_spec(),
        s2.pending() == s1.pending() && s1.pending() == s0.pending(),
        s2.active_view() == s1.active_view() && s1.active_view() == s0.active_view(),
        s2.log() == s1.log() && s1.log() == s0.log(),
        s2.next_ticket_spec() == s1.next_ticket_spec(),
        s2.limit_spec() == s0.limit_spec(),
        route_all(s2.active_view(), evs) == route_all(s0.active_view(), evs),
        next_action_of(s2.pending().len(), s2.active_view().len(), s2.limit_spec(), s2.closed_spec())
            == LoopAction::Exit <==> s2.pending().len() == 0 && s2.active_view().len() == 0,
{
}

/// A fault of one active request leaves every other one untouched: when the
/// executor reports a fault for `a` and then a normal finish for `b`, `a` gets
/// its error with its partial output and `b` still gets its `Done`.
pub proof fn law_fault_isolation(s: Scheduler, ia: int, ib: int, fa: Outcome, ub: Usage)
    requires
        s.wf(),
        0 <= ia < s.active_view().len(),
        0 <= ib < s.active_view().len(),
        ia != ib,
        fa is Fault || fa is Internal,
    ensures
        ({
            let act = s.active_view();
            let a = act[ia].ticket;
            let b = act[ib].ticket;
            let evs = seq![
                StepEvent { ticket: a, outcome: fa },
                StepEvent { ticket: b, outcome: Outcome::Finished(ub) },
            ];
            route_all(act, evs).1 == seq![
                (a, terminal_view(act[ia].content, fa)),
                (b, ResponseView::Done(CompletionView { content: act[ib].content, usage: ub })),
            ]
        }),
{
    let act = s.active_view();
    let a = act[ia].ticket;
    let b = act[ib].ticket;
    let e1 = StepEvent { ticket: a, outcome: fa };
    let e2 = StepEvent { ticket: b, outcome: Outcome::Finished(ub) };
    let evs = seq![e1, e2];
    assert(evs.drop_last() =~= seq![e1]);
    assert(seq![e1].drop_last() =~= Seq::<StepEvent>::empty());
    assert(find(act, a) == Some(ia)) by {
        assert(act[ia].ticket == a);
    }
    let rest = act.remove(ia);
    let jb = if ib < ia { ib } else { ib - 1 };
    assert(rest[jb] == act[ib]);
    assert(find(rest, b) == Some(jb)) by {
        assert(rest[jb].ticket == b);
        assert forall|j: int| 0 <= j < rest.len() && rest[j].ticket == b implies j == jb by {
            let jj = if j < ia { j } else { j + 1 };
            assert(rest[j] == act[jj]);
        }
    }
    assert(route_all(act, Seq::<StepEvent>::empty()) == (act, Seq::<(u64, ResponseView)>::empty()));
    assert(route_all(act, seq![e1]).0 == rest);
    assert(route_all(act, evs).1 =~= seq![
        (a, terminal_view(act[ia].content, fa)),
        (b, ResponseView::Done(CompletionView { content: act[ib].content, usage: ub })),
    ]);
}

} // verus!
