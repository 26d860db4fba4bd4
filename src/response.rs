use vstd::prelude::*;
use crate::request::ValidationFault;

verus! {

/// Token counts and timings of one generation, as reported by the executor.
#[derive(Clone, Copy, Debug, PartialEq, Eq, Structural)]
pub struct Usage {
    pub prompt_tokens: u64,
    pub completion_tokens: u64,
    pub prompt_micros: u64,
    pub completion_micros: u64,
}

pub const MICROS_PER_SEC: u128 = 1_000_000;

/// Tokens per second over a span measured in microseconds, rounded down; zero for an empty span.
pub open spec fn rate(tokens: u64, micros: u64) -> int {
    if micros == 0 {
        0
    } else {
        (tokens as int * MICROS_PER_SEC as int) / (micros as int)
    }
}

fn per_second(tokens: u64, micros: u64) -> (r: u128)
    ensures
        r as int == rate(tokens, micros),
{
    if micros == 0 {
        0
    } else {
        let scaled: u128 = tokens as u128 * MICROS_PER_SEC;
        assert(scaled as int == tokens as int * MICROS_PER_SEC as int) by (nonlinear_arith)
            requires
                tokens as int <= u64::MAX as int,
                scaled as int == tokens as int * 1_000_000int;
        scaled / micros as u128
    }
}

impl Usage {
    /// Average prompt throughput, in tokens per second.
    pub fn avg_prompt_tok_per_sec(&self) -> (r: u128)
        ensures
            r as int == rate(self.prompt_tokens, self.prompt_micros),
    {
        per_second(self.prompt_tokens, self.prompt_micros)
    }

    /// Average completion throughput, in tokens per second.
    pub fn avg_compl_tok_per_sec(&self) -> (r: u128)
        ensures
            r as int == rate(self.completion_tokens, self.completion_micros),
    {
        per_second(self.completion_tokens, self.completion_micros)
    }
}

/// Generated text together with its usage statistics.
#[derive(Debug)]
pub struct Completion {
    pub content: String,
    pub usage: Usage,
}

/// What the caller of one request receives.
#[derive(Debug)]
pub enum Response {
    /// A piece of streamed output; never terminal.
    Chunk(String),
    /// Successful end of generation.
    Done(Completion),
    /// The request was malformed; nothing was generated.
    ValidationError(ValidationFault),
    /// Generation failed; carries what had been generated so far.
    ModelError(String, Completion),
    /// The engine failed for a reason not due to the request; carries the partial output.
    InternalError(String, Completion),
}

/// Mathematical form of a `Completion`.
pub struct CompletionView {
    pub content: Seq<char>,
    pub usage: Usage,
}

/// Mathematical form of a `Response`.
pub enum ResponseView {
    Chunk(Seq<char>),
    Done(CompletionView),
    ValidationError(ValidationFault),
    ModelError(Seq<char>, CompletionView),
    InternalError(Seq<char>, CompletionView),
}

impl View for Completion {
    type V = CompletionView;

    open spec fn view(&self) -> CompletionView {
        CompletionView { content: self.content@, usage: self.usage }
    }
}

impl View for Response {
    type V = ResponseView;

    open spec fn view(&self) -> ResponseView {
        match self {
            Response::Chunk(s) => ResponseView::Chunk(s@),
            Response::Done(c) => ResponseView::Done(c@),
            Response::ValidationError(f) => ResponseView::ValidationError(*f),
            Response::ModelError(m, c) => ResponseView::ModelError(m@, c@),
            Response::InternalError(m, c) => ResponseView::InternalError(m@, c@),
        }
    }
}

impl ResponseView {
    /// A terminal response ends the life of its request.
    pub open spec fn is_terminal(self) -> bool {
        !(self is Chunk)
    }
}

impl Response {
    /// Whether this response ends the life of its request.
    pub fn is_terminal(&self) -> (r: bool)
        ensures
            r == self@.is_terminal(),
    {
        match self {
            Response::Chunk(_) => false,
            _ => true,
        }
    }
}

} // verus!
