//! How the outcome of each step of a command becomes the status and error message of
//! its response, and whether the command's event goes out.
use vstd::prelude::*;

use crate::fresh::{is_v4_text, random_uuid};
use crate::namespace::{OperationStatus, SubscribeCommand, UnsubscribeCommand};
use crate::subscriptions::{after_subscribe, after_unsubscribe, id_set, Subscriptions};
use crate::text::push_chars;

verus! {

/// The status of a response, its error message, and whether the command's event is sent.
pub struct Outcome {
    pub status: OperationStatus,
    pub error_msg: Option<String>,
    pub emit: bool,
}

/// Whether `o` reports success, with no message, and sends the event when `emit`.
pub open spec fn succeeded(o: Outcome, emit: bool) -> bool {
    o.status == OperationStatus::Success && o.error_msg is None && o.emit == emit
}

/// Whether `o` reports failure with message `m` and sends no event.
pub open spec fn failed(o: Outcome, m: Seq<char>) -> bool {
    &&& o.status == OperationStatus::Failure
    &&& o.error_msg matches Some(e) && e@ == m
    &&& !o.emit
}

fn prefixed(prefix: &str, e: &String) -> (s: String)
    ensures
        s@ == prefix@ + e@,
{
    let mut s = prefix.to_owned();
    let v = crate::text::chars_of(e.as_str());
    push_chars(&mut s, v.as_slice());
    s
}

/// An add command: planning the inserts (`planned`), then applying them (`applied`,
/// looked at only when planning succeeded). A command without a parent adds its items
/// under the root folder; either way, success sends the command's tree-change event.
pub fn add_outcome(planned: &Result<(), String>, applied: &Result<(), String>) -> (o: Outcome)
    ensures
        match planned {
            Err(e) => failed(o, "Inserting error: "@ + e@),
            Ok(_) => match applied {
                Err(e) => failed(o, "Applying batch error: "@ + e@),
                Ok(_) => succeeded(o, true),
            },
        },
{
    match planned {
        Err(e) => Outcome {
            status: OperationStatus::Failure,
            error_msg: Some(prefixed("Inserting error: ", e)),
            emit: false,
        },
        Ok(_) => match applied {
            Err(e) => Outcome {
                status: OperationStatus::Failure,
                error_msg: Some(prefixed("Applying batch error: ", e)),
                emit: false,
            },
            Ok(_) => Outcome { status: OperationStatus::Success, error_msg: None, emit: true },
        },
    }
}

/// A list, set, get or delete command: its one step's error is the response's message
/// as it is; on success the command's events (value changes, tree change) go out.
pub fn step_outcome(done: &Result<(), String>) -> (o: Outcome)
    ensures
        match done {
            Err(e) => failed(o, e@),
            Ok(_) => succeeded(o, true),
        },
{
    match done {
        Err(e) => Outcome { status: OperationStatus::Failure, error_msg: Some(e.clone()), emit: false },
        Ok(_) => Outcome { status: OperationStatus::Success, error_msg: None, emit: true },
    }
}

/// A bulk add command: whether it carried a schema, planning the inserts (`planned`),
/// then applying them (`applied`); each is looked at only when the steps before it
/// succeeded.
pub fn bulk_outcome(has_schema: bool, planned: &Result<(), String>, applied: &Result<(), String>) -> (o: Outcome)
    ensures
        !has_schema ==> failed(o, "No schema provided"@),
        has_schema ==> match planned {
            Err(e) => failed(o, "Bulk insert error: "@ + e@),
            Ok(_) => match applied {
                Err(e) => failed(o, "On apply batch: "@ + e@),
                Ok(_) => succeeded(o, true),
            },
        },
{
    if !has_schema {
        return Outcome {
            status: OperationStatus::Failure,
            error_msg: Some("No schema provided".to_owned()),
            emit: false,
        };
    }
    match planned {
        Err(e) => Outcome {
            status: OperationStatus::Failure,
            error_msg: Some(prefixed("Bulk insert error: ", e)),
            emit: false,
        },
        Ok(_) => match applied {
            Err(e) => Outcome {
                status: OperationStatus::Failure,
                error_msg: Some(prefixed("On apply batch: ", e)),
                emit: false,
            },
            Ok(_) => Outcome { status: OperationStatus::Success, error_msg: None, emit: true },
        },
    }
}

/// The answer to a frame that held no command: a failure with a fresh random command id
/// and the message "No valid command received".
pub fn invalid_command() -> (r: (String, Outcome))
    ensures
        is_v4_text(r.0@),
        failed(r.1, "No valid command received"@),
{
    let id = random_uuid();
    (
        id,
        Outcome {
            status: OperationStatus::Failure,
            error_msg: Some("No valid command received".to_owned()),
            emit: false,
        },
    )
}


/// A command that the store answers: its kind.
#[derive(Clone, Copy, Debug, PartialEq, Eq, Structural)]
pub enum CommandKind {
    Add,
    List,
    SetValues,
    Get,
    Del,
    AddBulk,
}

/// The kind of a response.
#[derive(Clone, Copy, Debug, PartialEq, Eq, Structural)]
pub enum ResponseKind {
    Add,
    List,
    SetValues,
    Get,
    Del,
    Inv,
    AddBulk,
    Sub,
    Unsub,
}

/// A command as the executor receives it: one the store answers (its kind and command
/// id), a subscribe or unsubscribe command, or a frame that held no command.
pub enum CommandHead {
    Store(CommandKind, String),
    Sub(SubscribeCommand),
    Unsub(UnsubscribeCommand),
    Invalid,
}

/// The head of a response: its kind, the command id it echoes, its status and its error
/// message.
pub struct Answer {
    pub kind: ResponseKind,
    pub cmd_id: String,
    pub status: OperationStatus,
    pub error_msg: Option<String>,
}

/// The response kind that answers a command of kind `k`.
pub open spec fn response_kind_of(k: CommandKind) -> ResponseKind {
    match k {
        CommandKind::Add => ResponseKind::Add,
        CommandKind::List => ResponseKind::List,
        CommandKind::SetValues => ResponseKind::SetValues,
        CommandKind::Get => ResponseKind::Get,
        CommandKind::Del => ResponseKind::Del,
        CommandKind::AddBulk => ResponseKind::AddBulk,
    }
}

/// The answer to command `cmd_id` of kind `kind` once the store ran it with outcome `o`:
/// the response of the same kind, echoing the command id, with the outcome's status and
/// message.
pub fn answer(kind: CommandKind, cmd_id: String, o: &Outcome) -> (a: Answer)
    ensures
        a.kind == response_kind_of(kind),
        a.cmd_id == cmd_id,
        a.status == o.status,
        a.error_msg == o.error_msg,
{
    let rk = match kind {
        CommandKind::Add => ResponseKind::Add,
        CommandKind::List => ResponseKind::List,
        CommandKind::SetValues => ResponseKind::SetValues,
        CommandKind::Get => ResponseKind::Get,
        CommandKind::Del => ResponseKind::Del,
        CommandKind::AddBulk => ResponseKind::AddBulk,
    };
    let error_msg = match &o.error_msg {
        Some(m) => Some(m.clone()),
        None => None,
    };
    Answer { kind: rk, cmd_id, status: o.status, error_msg }
}

/// What the executor does with a command before the store is touched: it answers it
/// itself, or hands it to the store.
pub enum Dispatch {
    Answered(Answer),
    ToStore(CommandKind, String),
}

/// Whether `a` is a success of kind `kind` echoing `cmd_id`, with no message.
pub open spec fn answered_ok(a: Answer, kind: ResponseKind, cmd_id: String) -> bool {
    &&& a.kind == kind
    &&& a.cmd_id == cmd_id
    &&& a.status == OperationStatus::Success
    &&& a.error_msg is None
}

/// Whether `a` is the answer to a frame that held no command: kind `Inv`, a fresh random
/// command id, failure, and "No valid command received".
pub open spec fn invalid_answer(a: Answer) -> bool {
    &&& a.kind == ResponseKind::Inv
    &&& is_v4_text(a.cmd_id@)
    &&& a.status == OperationStatus::Failure
    &&& a.error_msg matches Some(m) && m@ == "No valid command received"@
}

/// Runs the part of a command that needs no store: subscribe and unsubscribe change the
/// connection's subscriptions and succeed; a frame that held no command gets the
/// invalid-command answer with a fresh id and "No valid command received"; every other
/// command goes to the store. Only subscribe and unsubscribe touch the subscriptions.
pub fn dispatch(cmd: CommandHead, subs: &mut Subscriptions) -> (d: Dispatch)
    ensures
        match cmd {
            CommandHead::Store(k, id) => d == Dispatch::ToStore(k, id) && final(subs)@ == old(subs)@,
            CommandHead::Sub(c) => final(subs)@ == after_subscribe(old(subs)@, c.events@, id_set(c.var_ids@))
                && (d matches Dispatch::Answered(a) && answered_ok(a, ResponseKind::Sub, c.cmd_id)),
            CommandHead::Unsub(c) => final(subs)@ == after_unsubscribe(old(subs)@, c.events@, id_set(c.var_ids@))
                && (d matches Dispatch::Answered(a) && answered_ok(a, ResponseKind::Unsub, c.cmd_id)),
            CommandHead::Invalid => final(subs)@ == old(subs)@ && (d matches Dispatch::Answered(a)
                && invalid_answer(a)),
        },
{
    match cmd {
        CommandHead::Store(k, id) => Dispatch::ToStore(k, id),
        CommandHead::Sub(c) => {
            subs.subscribe(&c);
            Dispatch::Answered(
                Answer { kind: ResponseKind::Sub, cmd_id: c.cmd_id, status: OperationStatus::Success, error_msg: None },
            )
        },
        CommandHead::Unsub(c) => {
            subs.unsubscribe(&c);
            Dispatch::Answered(
                Answer { kind: ResponseKind::Unsub, cmd_id: c.cmd_id, status: OperationStatus::Success, error_msg: None },
            )
        },
        CommandHead::Invalid => {
            let (id, o) = invalid_command();
            Dispatch::Answered(Answer { kind: ResponseKind::Inv, cmd_id: id, status: o.status, error_msg: o.error_msg })
        },
    }
}

} // verus!
