//! Dock badge and session-attention notification text, and the read marks that keep a
//! notification from repeating.
use vstd::prelude::*;
use crate::json::{field, u64_of, Json};
use crate::text::{owned, push_str, str_eq};

verus! {

/// The dock badge for `count` waiting sessions: none when there are none.
pub fn dock_badge_value(count: i64) -> (r: Option<i64>)
    ensures
        r == if count > 0 {
            Some(count)
        } else {
            None::<i64>
        },
{
    if count > 0 {
        Some(count)
    } else {
        None
    }
}

/// What a notification says of a session in state `reason`.
pub open spec fn attention_suffix(reason: Seq<char>) -> Option<Seq<char>> {
    if reason == "idle"@ {
        Some("idle, needs you"@)
    } else if reason == "waiting_for_input"@ {
        Some("waiting for your input"@)
    } else if reason == "waiting_for_approval"@ {
        Some("waiting for your approval"@)
    } else if reason == "failure"@ {
        Some("failed"@)
    } else if reason == "interrupted"@ {
        Some("interrupted and needs recovery"@)
    } else if reason == "completed"@ {
        Some("completed"@)
    } else {
        None
    }
}

/// The notification body: the task's name (else its slug, else "session"), a dash, and
/// what the session is waiting on. `task_name` is the name read from the task's file
/// when it could be read.
pub open spec fn attention_body_spec(slug: Option<Seq<char>>, task_name: Option<Seq<char>>, reason: Seq<char>) -> Result<
    Seq<char>,
    Seq<char>,
> {
    match attention_suffix(reason) {
        None => Err("unsupported attention reason: "@ + reason),
        Some(suffix) => {
            let label = match (slug, task_name) {
                (Some(_), Some(name)) => name,
                (Some(s), None) => s,
                (None, _) => "session"@,
            };
            Ok(label + " — "@ + suffix)
        },
    }
}

pub open spec fn opt_view(s: Option<String>) -> Option<Seq<char>> {
    match s {
        Some(t) => Some(t@),
        None => None,
    }
}

pub fn session_attention_body(slug: Option<String>, task_name: Option<String>, reason: &str) -> (r: Result<String, String>)
    ensures
        match r {
            Ok(b) => attention_body_spec(opt_view(slug), opt_view(task_name), reason@) == Ok::<Seq<char>, Seq<char>>(
                b@,
            ),
            Err(e) => attention_body_spec(opt_view(slug), opt_view(task_name), reason@) == Err::<
                Seq<char>,
                Seq<char>,
            >(e@),
        },
{
    let suffix = if str_eq(reason, "idle") {
        "idle, needs you"
    } else if str_eq(reason, "waiting_for_input") {
        "waiting for your input"
    } else if str_eq(reason, "waiting_for_approval") {
        "waiting for your approval"
    } else if str_eq(reason, "failure") {
        "failed"
    } else if str_eq(reason, "interrupted") {
        "interrupted and needs recovery"
    } else if str_eq(reason, "completed") {
        "completed"
    } else {
        let mut e = owned("unsupported attention reason: ");
        push_str(&mut e, reason);
        return Err(e);
    };
    let mut label = match (slug, task_name) {
        (Some(_), Some(name)) => name,
        (Some(s), None) => s,
        (None, _) => owned("session"),
    };
    push_str(&mut label, " — ");
    push_str(&mut label, suffix);
    Ok(label)
}

/// The completion a session reports: `semantic.phase_completed_at`.
pub open spec fn completion_checkpoint_spec(value: Json) -> Option<u64> {
    match field(value, "semantic"@) {
        Some(s) => u64_of(field(s, "phase_completed_at"@)),
        None => None,
    }
}

pub fn completion_checkpoint(value: &Json) -> (r: Option<u64>)
    ensures
        r == completion_checkpoint_spec(*value),
{
    match value.get("semantic") {
        Some(s) => match s.get("phase_completed_at") {
            Some(c) => c.as_u64(),
            None => None,
        },
        None => None,
    }
}

/// A notification checkpoint is newer than the read mark `field` holds (or there is no
/// read mark yet).
pub open spec fn advances_spec(value: Json, field_name: Seq<char>, checkpoint: Option<u64>) -> bool {
    match checkpoint {
        None => false,
        Some(c) => match u64_of(field(value, field_name)) {
            None => true,
            Some(prior) => c > prior,
        },
    }
}

pub fn checkpoint_advances(value: &Json, field_name: &str, checkpoint: Option<u64>) -> (r: bool)
    ensures
        r == advances_spec(*value, field_name@, checkpoint),
{
    match checkpoint {
        None => false,
        Some(c) => match value.get(field_name) {
            Some(p) => match p.as_u64() {
                Some(prior) => c > prior,
                None => true,
            },
            None => true,
        },
    }
}

/// The read mark to store for a checkpoint: never earlier than the one stored.
pub fn stamped_checkpoint(value: &Json, field_name: &str, checkpoint: u64) -> (r: u64)
    ensures
        r == match u64_of(field(*value, field_name@)) {
            Some(prior) => if prior > checkpoint {
                prior
            } else {
                checkpoint
            },
            None => checkpoint,
        },
        r >= checkpoint,
        u64_of(field(*value, field_name@)) matches Some(prior) ==> r >= prior,
{
    let prior = match value.get(field_name) {
        Some(p) => match p.as_u64() {
            Some(x) => x,
            None => 0,
        },
        None => 0,
    };
    if prior > checkpoint {
        prior
    } else {
        checkpoint
    }
}

} // verus!
