//! The log of executed invocations and its chat-style transcript.
use crate::invocation::{canonical, opt_str_view, Invocation, InvocationView};
use vstd::prelude::*;

verus! {

/// One executed invocation with its outcome.
pub struct Execution {
    pub invocation: Invocation,
    pub result: Option<String>,
    pub error: Option<String>,
}

/// The abstract content of an [`Execution`].
pub struct ExecutionView {
    pub invocation: InvocationView,
    pub result: Option<Seq<char>>,
    pub error: Option<Seq<char>>,
}

impl View for Execution {
    type V = ExecutionView;

    open spec fn view(&self) -> ExecutionView {
        ExecutionView {
            invocation: self.invocation@,
            result: opt_str_view(self.result),
            error: opt_str_view(self.error),
        }
    }
}

impl Execution {
    /// A record of `invocation` with its outcome.
    pub fn new(invocation: Invocation, result: Option<String>, error: Option<String>) -> (r: Self)
        ensures
            r@ == (ExecutionView {
                invocation: invocation@,
                result: opt_str_view(result),
                error: opt_str_view(error),
            }),
    {
        Execution { invocation, result, error }
    }
}

/// The views of a list of records.
pub open spec fn history_view(h: Seq<Execution>) -> Seq<ExecutionView> {
    h.map_values(|e: Execution| e@)
}

/// Who speaks a transcript message.
#[derive(Clone, Copy, Debug, PartialEq, Eq, Structural)]
pub enum ChatRole {
    /// The model, issuing a command.
    Assistant,
    /// The environment, reporting an outcome.
    User,
}

/// One message of a transcript.
pub struct Message {
    pub role: ChatRole,
    pub content: String,
}

/// The text that reports an outcome: the error, marked as such, or the result.
pub open spec fn outcome_text(e: ExecutionView) -> Seq<char> {
    match e.error {
        Some(err) => seq!['E', 'R', 'R', 'O', 'R', ':', ' '] + err,
        None => match e.result {
            Some(r) => r,
            None => Seq::empty(),
        },
    }
}

/// Index of the first record that a transcript of at most `max` records shows.
pub open spec fn transcript_start(len: nat, max: nat) -> nat {
    if len > max {
        (len - max) as nat
    } else {
        0
    }
}

fn outcome_string(e: &Execution) -> (r: String)
    ensures
        r@ == outcome_text(e@),
{
    match &e.error {
        Some(err) => {
            proof {
                reveal_strlit("ERROR: ");
            }
            let mut r = String::from_str("ERROR: ");
            r.append(err.as_str());
            r
        },
        None => match &e.result {
            Some(res) => res.as_str().to_owned(),
            None => String::new(),
        },
    }
}

/// The last `max` records as a transcript: for each, the command as the
/// model's message, then its outcome as the environment's reply.
pub fn to_chat_history(history: &Vec<Execution>, max: usize) -> (r: Vec<Message>)
    ensures
        ({
            let start = transcript_start(history@.len(), max as nat);
            &&& r@.len() == 2 * (history@.len() - start)
            &&& forall|j: int|
                0 <= j < history@.len() - start ==> {
                    &&& (#[trigger] r@[2 * j]).role == ChatRole::Assistant
                    &&& r@[2 * j].content@ == canonical(history@[start + j]@.invocation)
                    &&& r@[2 * j + 1].role == ChatRole::User
                    &&& r@[2 * j + 1].content@ == outcome_text(history@[start + j]@)
                }
        }),
{
    let start = if history.len() > max {
        history.len() - max
    } else {
        0
    };
    let mut out: Vec<Message> = Vec::new();
    let mut i = start;
    while i < history.len()
        invariant
            start == transcript_start(history@.len(), max as nat),
            start <= i <= history@.len(),
            out@.len() == 2 * (i - start),
            forall|j: int|
                0 <= j < i - start ==> {
                    &&& (#[trigger] out@[2 * j]).role == ChatRole::Assistant
                    &&& out@[2 * j].content@ == canonical(history@[start + j]@.invocation)
                    &&& out@[2 * j + 1].role == ChatRole::User
                    &&& out@[2 * j + 1].content@ == outcome_text(history@[start + j]@)
                },
        decreases history@.len() - i,
    {
        let command = history[i].invocation.to_structured_string().to_owned();
        out.push(Message { role: ChatRole::Assistant, content: command });
        out.push(Message { role: ChatRole::User, content: outcome_string(&history[i]) });
        proof {
            assert forall|j: int| 0 <= j < i + 1 - start implies {
                &&& (#[trigger] out@[2 * j]).role == ChatRole::Assistant
                &&& out@[2 * j].content@ == canonical(history@[start + j]@.invocation)
                &&& out@[2 * j + 1].role == ChatRole::User
                &&& out@[2 * j + 1].content@ == outcome_text(history@[start + j]@)
            } by {
                if j == i - start {
                    assert(start + j == i);
                }
            }
        }
        i = i + 1;
    }
    out
}

} // verus!
