//! Validation errors for the Forge pipeline.

use vstd::prelude::*;
use crate::text::{dec, join, join_all, owned, push_str, push_dec};
use crate::graph::sort::views;

verus! {

/// A single, human-readable validation problem found in a `board.toml`.
///
/// Validation collects these into a `Vec` so every problem can be reported at
/// once, instead of forcing the user to fix issues one compile-cycle at a
/// time.
#[derive(Debug, Clone, PartialEq, Eq)]
pub struct ValidationError {
    /// Actionable description of what is wrong and how to fix it.
    pub message: String,
}

/// The messages of a list of validation errors.
pub open spec fn messages(es: Seq<ValidationError>) -> Seq<Seq<char>> {
    es.map_values(|e: ValidationError| e.message@)
}

/// Pushing an error pushes its message.
pub proof fn lemma_messages_push(es: Seq<ValidationError>, e: ValidationError)
    ensures
        messages(es.push(e)) == messages(es).push(e.message@),
        messages(es).len() == es.len(),
{
    assert(messages(es.push(e)) =~= messages(es).push(e.message@));
}

impl ValidationError {
    /// Construct a validation error from a message.
    pub fn new(message: &str) -> (r: Self)
        ensures
            r.message@ == message@,
    {
        ValidationError { message: message.to_owned() }
    }

    /// Construct a validation error that takes ownership of a message.
    pub fn from_string(message: String) -> (r: Self)
        ensures
            r.message@ == message@,
    {
        ValidationError { message }
    }

    /// The error's message (what `Display` prints).
    pub fn to_string(&self) -> (r: String)
        ensures
            r@ == self.message@,
    {
        self.message.clone()
    }
}

/// The heading line naming the number of errors.
pub open spec fn validation_header(count: nat) -> Seq<char> {
    "configuration is invalid ("@ + dec(count) + " "@ + (if count == 1 {
        "error"@
    } else {
        "errors"@
    }) + "):"@
}

/// The numbered lines for the first `k` messages.
pub open spec fn validation_items(ms: Seq<Seq<char>>, k: int) -> Seq<char>
    decreases k,
{
    if k <= 0 {
        Seq::empty()
    } else {
        validation_items(ms, k - 1) + "\n  "@ + dec(k as nat) + ". "@ + ms[k - 1]
    }
}

/// Render a list of validation errors as a numbered, human-readable block.
pub fn render_validation(errors: &Vec<ValidationError>) -> (r: String)
    ensures
        r@ == validation_header(errors@.len()) + validation_items(
            messages(errors@),
            errors@.len() as int,
        ),
{
    let count = errors.len();
    let mut out = String::new();
    push_str(&mut out, "configuration is invalid (");
    push_dec(&mut out, count as u64);
    push_str(&mut out, " ");
    if count == 1 {
        push_str(&mut out, "error");
    } else {
        push_str(&mut out, "errors");
    }
    push_str(&mut out, "):");
    let ghost head = out@;
    for i in 0..count
        invariant
            count == errors@.len(),
            head == validation_header(count as nat),
            out@ == head + validation_items(messages(errors@), i as int),
    {
        push_str(&mut out, "\n  ");
        push_dec(&mut out, (i + 1) as u64);
        push_str(&mut out, ". ");
        push_str(&mut out, errors[i].message.as_str());
        proof {
            assert(out@ =~= head + validation_items(messages(errors@), i + 1));
        }
    }
    out
}

/// The message describing a dependency cycle found while layering.
pub open spec fn cycle_error_msg(cycle: Seq<Seq<char>>) -> Seq<char> {
    "Circular dependency detected in initialization order: "@ + join(cycle, " -> "@)
}

/// Build a validation error describing a dependency cycle.
pub fn cycle_error(cycle: &Vec<String>) -> (r: ValidationError)
    ensures
        r.message@ == cycle_error_msg(views(cycle@)),
{
    let mut m = owned("Circular dependency detected in initialization order: ");
    let joined = join_all(cycle, " -> ");
    assert(cycle@.map_values(|p: String| p@) =~= views(cycle@));
    push_str(&mut m, joined.as_str());
    ValidationError::from_string(m)
}

} // verus!
