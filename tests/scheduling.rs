use serving_core::queue::{AdmissionQueue, SubmitError};
use serving_core::request::{Constraint, Message, Messages, Request, SamplingParams, ValidationFault};
use serving_core::response::{Response, Usage};
use serving_core::scheduler::{ConfigError, Delivery, LoopAction, Outcome, Scheduler, StepEvent};

fn chat(id: u64, text: &str, streaming: bool) -> Request {
    Request {
        id,
        messages: Messages::Chat(vec![Message { role: "user".to_string(), content: text.to_string() }]),
        sampling_params: SamplingParams {
            temperature_milli: None,
            top_p_milli: None,
            top_k: None,
            max_tokens: None,
        },
        constraint: Constraint::Unconstrained,
        streaming,
        return_logprobs: false,
        adapters: None,
    }
}

fn usage() -> Usage {
    Usage { prompt_tokens: 20, completion_tokens: 3, prompt_micros: 500_000, completion_micros: 1_500_000 }
}

fn token(ticket: u64, s: &str) -> StepEvent {
    StepEvent { ticket, outcome: Outcome::Token(s.to_string()) }
}

fn finished(ticket: u64) -> StepEvent {
    StepEvent { ticket, outcome: Outcome::Finished(usage()) }
}

fn active_tickets(s: &Scheduler) -> Vec<u64> {
    s.active().iter().map(|g| g.ticket).collect()
}

fn submit_ok(s: &mut Scheduler, r: Request) -> u64 {
    match s.submit(r) {
        Ok(t) => t,
        Err(_) => panic!("submission refused"),
    }
}

#[test]
fn single_request_gets_one_done() {
    let mut s = Scheduler::new(5, 16, false).unwrap();
    let t = submit_ok(&mut s, chat(0, "write a poem", false));
    assert!(s.admit_queued().is_empty());
    assert_eq!(active_tickets(&s), vec![t]);
    let out = s.route(&vec![token(t, "Roses "), token(t, "are red"), finished(t)]);
    assert_eq!(out.len(), 1);
    match &out[0].response {
        Response::Done(c) => {
            assert_eq!(c.content, "Roses are red");
            assert!(!c.content.is_empty());
            assert_eq!(c.usage.avg_prompt_tok_per_sec(), 40);
            assert_eq!(c.usage.avg_compl_tok_per_sec(), 2);
        }
        _ => panic!("expected Done"),
    }
    assert_eq!(out[0].ticket, t);
    assert_eq!(s.active_count(), 0);
    assert!(s.is_idle());
}

#[test]
fn limit_one_serialises_two_requests() {
    let mut s = Scheduler::new(1, 16, false).unwrap();
    let a = submit_ok(&mut s, chat(1, "first", false));
    let b = submit_ok(&mut s, chat(2, "second", false));
    s.admit_queued();
    assert_eq!(active_tickets(&s), vec![a]);
    assert_eq!(s.pending_count(), 1);
    let out = s.route(&vec![token(a, "x")]);
    assert!(out.is_empty());
    s.admit_queued();
    assert_eq!(active_tickets(&s), vec![a]);
    let out = s.route(&vec![finished(a)]);
    assert_eq!(out.len(), 1);
    assert!(out[0].response.is_terminal());
    assert_eq!(active_tickets(&s), Vec::<u64>::new());
    s.admit_queued();
    assert_eq!(active_tickets(&s), vec![b]);
}

#[test]
fn unsupported_constraint_is_rejected_at_admission() {
    let mut s = Scheduler::new(2, 16, false).unwrap();
    let mut r = chat(3, "json please", true);
    r.constraint = Constraint::Grammar("root ::= \"x\"".to_string());
    let t = submit_ok(&mut s, r);
    let out = s.admit_queued();
    assert_eq!(out.len(), 1);
    assert_eq!(out[0].ticket, t);
    assert!(matches!(out[0].response, Response::ValidationError(ValidationFault::UnsupportedConstraint)));
    assert_eq!(s.active_count(), 0);
    assert!(s.active().is_empty());
    assert_eq!(s.next_action(), LoopAction::Wait);
}

#[test]
fn constraint_accepted_when_supported() {
    let mut s = Scheduler::new(2, 16, true).unwrap();
    let mut r = chat(3, "digits", false);
    r.constraint = Constraint::Regex("[0-9]+".to_string());
    let t = submit_ok(&mut s, r);
    assert!(s.admit_queued().is_empty());
    assert_eq!(active_tickets(&s), vec![t]);
}

#[test]
fn empty_messages_are_rejected() {
    let mut s = Scheduler::new(2, 16, true).unwrap();
    let mut r = chat(4, "", false);
    r.messages = Messages::Chat(Vec::new());
    let t1 = submit_ok(&mut s, r);
    let mut r2 = chat(5, "", false);
    r2.messages = Messages::Completion(String::new());
    let t2 = submit_ok(&mut s, r2);
    let out = s.admit_queued();
    assert_eq!(out.len(), 2);
    assert_eq!((out[0].ticket, out[1].ticket), (t1, t2));
    for d in &out {
        assert!(matches!(d.response, Response::ValidationError(ValidationFault::EmptyMessages)));
    }
}

#[test]
fn fault_after_three_chunks_keeps_partial_output() {
    let mut s = Scheduler::new(5, 16, false).unwrap();
    let t = submit_ok(&mut s, chat(6, "stream it", true));
    s.admit_queued();
    let events = vec![
        token(t, "a"),
        token(t, "b"),
        token(t, "c"),
        StepEvent { ticket: t, outcome: Outcome::Fault("device lost".to_string(), usage()) },
    ];
    let out = s.route(&events);
    assert_eq!(out.len(), 4);
    let pieces: Vec<String> = out[..3]
        .iter()
        .map(|d| match &d.response {
            Response::Chunk(p) => p.clone(),
            _ => panic!("expected Chunk"),
        })
        .collect();
    assert_eq!(pieces, vec!["a", "b", "c"]);
    match &out[3].response {
        Response::ModelError(m, c) => {
            assert_eq!(m, "device lost");
            assert_eq!(c.content, "abc");
        }
        _ => panic!("expected ModelError"),
    }
    assert_eq!(s.active_count(), 0);
}

#[test]
fn fault_on_one_request_does_not_stop_another() {
    let mut s = Scheduler::new(2, 16, false).unwrap();
    let a = submit_ok(&mut s, chat(7, "a", false));
    let b = submit_ok(&mut s, chat(8, "b", false));
    s.admit_queued();
    let out = s.route(&vec![
        token(a, "partial"),
        token(b, "whole"),
        StepEvent { ticket: a, outcome: Outcome::Internal("bookkeeping".to_string(), usage()) },
        finished(b),
    ]);
    assert_eq!(out.len(), 2);
    match &out[0].response {
        Response::InternalError(m, c) => {
            assert_eq!(out[0].ticket, a);
            assert_eq!(m, "bookkeeping");
            assert_eq!(c.content, "partial");
        }
        _ => panic!("expected InternalError"),
    }
    match &out[1].response {
        Response::Done(c) => {
            assert_eq!(out[1].ticket, b);
            assert_eq!(c.content, "whole");
        }
        _ => panic!("expected Done"),
    }
}

#[test]
fn nothing_follows_a_terminal_response() {
    let mut s = Scheduler::new(2, 16, false).unwrap();
    let a = submit_ok(&mut s, chat(9, "a", true));
    s.admit_queued();
    let out = s.route(&vec![token(a, "x"), finished(a), token(a, "late"), finished(a)]);
    assert_eq!(out.len(), 2);
    assert!(matches!(out[0].response, Response::Chunk(_)));
    assert!(matches!(out[1].response, Response::Done(_)));
    assert!(s.route(&vec![finished(a)]).is_empty());
}

#[test]
fn concurrency_never_exceeds_limit() {
    let mut s = Scheduler::new(3, 100, false).unwrap();
    let mut tickets = Vec::new();
    for i in 0..10u64 {
        tickets.push(submit_ok(&mut s, chat(i, "burst", false)));
    }
    s.admit_queued();
    assert_eq!(active_tickets(&s), tickets[..3].to_vec());
    assert_eq!(s.pending_count(), 7);
    let done: Vec<StepEvent> = vec![finished(tickets[1])];
    s.route(&done);
    s.admit_queued();
    assert_eq!(s.active_count(), 3);
    assert_eq!(active_tickets(&s), vec![tickets[0], tickets[2], tickets[3]]);
}

#[test]
fn fifo_order_of_admission() {
    let mut s = Scheduler::new(4, 100, false).unwrap();
    let ts: Vec<u64> = (0..4u64).map(|i| submit_ok(&mut s, chat(i, "q", false))).collect();
    let late = submit_ok(&mut s, chat(9, "late", false));
    assert_eq!(ts, vec![0, 1, 2, 3]);
    s.admit_queued();
    assert_eq!(active_tickets(&s), ts);
    assert_eq!(s.pending_count(), 1);
    assert!(late > ts[3]);
}

#[test]
fn prompt_admission_with_free_slot() {
    let mut s = Scheduler::new(2, 1, false).unwrap();
    let t = submit_ok(&mut s, chat(1, "now", false));
    assert_eq!(s.next_action(), LoopAction::Admit);
    s.admit_queued();
    assert_eq!(active_tickets(&s), vec![t]);
    assert_eq!(s.pending_count(), 0);
    assert_eq!(s.next_action(), LoopAction::Execute);
}

#[test]
fn close_twice_keeps_work_and_refuses_new() {
    let mut s = Scheduler::new(1, 8, false).unwrap();
    let a = submit_ok(&mut s, chat(1, "a", false));
    let b = submit_ok(&mut s, chat(2, "b", false));
    s.admit_queued();
    s.close();
    s.close();
    assert!(s.is_closed());
    assert_eq!(active_tickets(&s), vec![a]);
    assert_eq!(s.pending_count(), 1);
    match s.submit(chat(3, "c", false)) {
        Err(rej) => {
            assert_eq!(rej.error, SubmitError::QueueClosed);
            assert_eq!(rej.request.id, 3);
        }
        Ok(_) => panic!("submission after close"),
    }
    assert_eq!(s.route(&vec![finished(a)]).len(), 1);
    s.admit_queued();
    assert_eq!(active_tickets(&s), vec![b]);
    assert_eq!(s.route(&vec![finished(b)]).len(), 1);
    assert!(s.is_drained());
    assert_eq!(s.next_action(), LoopAction::Exit);
}

#[test]
fn full_queue_pushes_back() {
    let mut s = Scheduler::new(1, 2, false).unwrap();
    submit_ok(&mut s, chat(1, "a", false));
    submit_ok(&mut s, chat(2, "b", false));
    match s.submit(chat(3, "c", false)) {
        Err(rej) => {
            assert_eq!(rej.error, SubmitError::QueueFull);
            assert_eq!(rej.request.id, 3);
        }
        Ok(_) => panic!("queue over capacity"),
    }
    s.admit_queued();
    assert_eq!(submit_ok(&mut s, chat(3, "c", false)), 2);
}

#[test]
fn zero_limit_is_refused() {
    assert!(matches!(Scheduler::new(0, 8, false), Err(ConfigError::ZeroConcurrency)));
}

#[test]
fn queue_is_fifo() {
    let mut q = AdmissionQueue::new(3);
    assert_eq!(q.submit(chat(10, "a", false)).ok(), Some(0));
    assert_eq!(q.submit(chat(11, "b", false)).ok(), Some(1));
    q.close();
    assert!(q.submit(chat(12, "c", false)).is_err());
    assert_eq!(q.len(), 2);
    assert_eq!(q.front().map(|e| e.request.id), Some(10));
    assert_eq!(q.pop_front().map(|e| e.ticket), Some(0));
    assert_eq!(q.pop_front().map(|e| e.ticket), Some(1));
    assert!(q.pop_front().is_none());
    assert_eq!(q.capacity(), 3);
}

#[test]
fn throughput_rates() {
    let u = Usage { prompt_tokens: 7, completion_tokens: 100, prompt_micros: 0, completion_micros: 3_000_000 };
    assert_eq!(u.avg_prompt_tok_per_sec(), 0);
    assert_eq!(u.avg_compl_tok_per_sec(), 33);
    let big = Usage { prompt_tokens: u64::MAX, completion_tokens: 1, prompt_micros: 1, completion_micros: 1 };
    assert_eq!(big.avg_prompt_tok_per_sec(), u64::MAX as u128 * 1_000_000);
    assert_eq!(big.avg_compl_tok_per_sec(), 1_000_000);
}

#[test]
fn validation_reasons() {
    assert_eq!(ValidationFault::EmptyMessages.describe(), "the request has no messages");
    assert_eq!(
        ValidationFault::UnsupportedConstraint.describe(),
        "the requested constraint is not supported"
    );
    assert_eq!(chat(1, "hi", false).validate(false), None);
    let mut r = chat(1, "hi", false);
    r.constraint = Constraint::Regex("a".to_string());
    assert_eq!(r.validate(false), Some(ValidationFault::UnsupportedConstraint));
    assert_eq!(r.validate(true), None);
}

#[test]
fn stale_results_are_dropped() {
    let mut s = Scheduler::new(1, 4, false).unwrap();
    let out: Vec<Delivery> = s.route(&vec![finished(42)]);
    assert!(out.is_empty());
    assert_eq!(s.limit(), 1);
}
