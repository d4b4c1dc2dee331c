//! The two-step prompt submission: what is posted, and how each answer is
//! turned into the next step or the result.

use vstd::prelude::*;

verus! {

/// One event posted to the server's publish endpoint: its type and its one
/// property.
#[derive(Debug, Clone)]
pub struct PublishEvent {
    pub event_type: String,
    pub property: String,
    pub value: String,
}

/// Why a prompt was not submitted.
#[derive(Debug, Clone)]
pub enum SendError {
    /// Appending the text failed; nothing was submitted.
    Append(String),
    /// The text was appended, but submitting it failed.
    Submit(String),
}

/// What the caller does next while sending a prompt.
#[derive(Debug)]
pub enum SendStep {
    /// Post this event.
    Post(PublishEvent),
    /// Sending is over.
    Done(Result<(), SendError>),
}

/// The event that appends `text` to the server's prompt.
pub fn append_prompt_event(text: &str) -> (r: PublishEvent)
    ensures
        r.event_type@ == "tui.prompt.append"@,
        r.property@ == "text"@,
        r.value@ == text@,
{
    PublishEvent {
        event_type: String::from_str("tui.prompt.append"),
        property: String::from_str("text"),
        value: String::from_str(text),
    }
}

/// The event that submits the server's prompt.
pub fn submit_event() -> (r: PublishEvent)
    ensures
        r.event_type@ == "tui.command.execute"@,
        r.property@ == "command"@,
        r.value@ == "prompt.submit"@,
{
    PublishEvent {
        event_type: String::from_str("tui.command.execute"),
        property: String::from_str("command"),
        value: String::from_str("prompt.submit"),
    }
}

/// The first step of sending `text`: append it.
pub fn send_start(text: &str) -> (r: SendStep)
    ensures
        r matches SendStep::Post(e) && e.event_type@ == "tui.prompt.append"@ && e.property@
            == "text"@ && e.value@ == text@,
{
    SendStep::Post(append_prompt_event(text))
}

/// The step after the append answered: submit on success; on failure stop,
/// and the submit is never posted.
pub fn after_append(answer: Result<(), String>) -> (r: SendStep)
    ensures
        match answer {
            Ok(()) => r matches SendStep::Post(e) && e.event_type@ == "tui.command.execute"@
                && e.property@ == "command"@ && e.value@ == "prompt.submit"@,
            Err(m) => r == SendStep::Done(Err(SendError::Append(m))),
        },
{
    match answer {
        Ok(()) => SendStep::Post(submit_event()),
        Err(m) => SendStep::Done(Err(SendError::Append(m))),
    }
}

/// The result once the submit answered; a failure here means the text was
/// appended but not submitted.
pub fn after_submit(answer: Result<(), String>) -> (r: Result<(), SendError>)
    ensures
        match answer {
            Ok(()) => r is Ok,
            Err(m) => r == Err::<(), SendError>(SendError::Submit(m)),
        },
{
    match answer {
        Ok(()) => Ok(()),
        Err(m) => Err(SendError::Submit(m)),
    }
}

} // verus!
