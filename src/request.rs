use vstd::prelude::*;

verus! {

/// One chat turn: who spoke and what was said.
#[derive(Debug)]
pub struct Message {
    pub role: String,
    pub content: String,
}

/// The prompt of a request: a chat transcript or raw completion text.
#[derive(Debug)]
pub enum Messages {
    Chat(Vec<Message>),
    Completion(String),
}

/// A structural constraint on the generated text.
#[derive(Debug)]
pub enum Constraint {
    Unconstrained,
    Regex(String),
    Grammar(String),
}

/// Sampling configuration, handed to the executor untouched.
/// Fractional settings are given in thousandths.
#[derive(Clone, Copy, Debug, PartialEq, Eq)]
pub struct SamplingParams {
    pub temperature_milli: Option<u32>,
    pub top_p_milli: Option<u32>,
    pub top_k: Option<u32>,
    pub max_tokens: Option<u32>,
}

/// An immutable description of one generation job.
#[derive(Debug)]
pub struct Request {
    pub id: u64,
    pub messages: Messages,
    pub sampling_params: SamplingParams,
    pub constraint: Constraint,
    pub streaming: bool,
    pub return_logprobs: bool,
    pub adapters: Option<Vec<String>>,
}

/// Why a request was refused before any generation began.
#[derive(Clone, Copy, Debug, PartialEq, Eq, Structural)]
pub enum ValidationFault {
    EmptyMessages,
    UnsupportedConstraint,
}

/// The prompt holds nothing to generate from.
pub open spec fn messages_empty(m: Messages) -> bool {
    match m {
        Messages::Chat(v) => v@.len() == 0,
        Messages::Completion(s) => s@.len() == 0,
    }
}

/// The request asks for a constraint that the executor cannot apply.
pub open spec fn constraint_unsupported(c: Constraint, constraints_supported: bool) -> bool {
    !constraints_supported && !(c is Unconstrained)
}

/// The fault, if any, for which a request is refused; an empty prompt is reported first.
pub open spec fn fault_of(r: Request, constraints_supported: bool) -> Option<ValidationFault> {
    if messages_empty(r.messages) {
        Some(ValidationFault::EmptyMessages)
    } else if constraint_unsupported(r.constraint, constraints_supported) {
        Some(ValidationFault::UnsupportedConstraint)
    } else {
        None
    }
}

impl ValidationFault {
    /// A short human-readable reason.
    pub fn describe(&self) -> (r: String)
        ensures
            *self is EmptyMessages ==> r@ == "the request has no messages"@,
            *self is UnsupportedConstraint ==> r@ == "the requested constraint is not supported"@,
    {
        proof {
            reveal_strlit("the request has no messages");
            reveal_strlit("the requested constraint is not supported");
        }
        match self {
            ValidationFault::EmptyMessages => "the request has no messages".to_string(),
            ValidationFault::UnsupportedConstraint => "the requested constraint is not supported".to_string(),
        }
    }
}

impl Request {
    /// Checks the request against what the executor supports.
    pub fn validate(&self, constraints_supported: bool) -> (r: Option<ValidationFault>)
        ensures
            r == fault_of(*self, constraints_supported),
    {
        let empty = match &self.messages {
            Messages::Chat(v) => v.len() == 0,
            Messages::Completion(s) => s.as_str().is_empty(),
        };
        if empty {
            Some(ValidationFault::EmptyMessages)
        } else {
            let unsupported = match &self.constraint {
                Constraint::Unconstrained => false,
                _ => !constraints_supported,
            };
            if unsupported {
                Some(ValidationFault::UnsupportedConstraint)
            } else {
                None
            }
        }
    }
}

} // verus!
