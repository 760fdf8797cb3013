//! Structured-logging core: masking of sensitive fields, rendering of entries
//! as text or JSON lines, the file sink's rotation decisions and the batching
//! worker's state machine, each stated and proved against a mathematical model.
use vstd::prelude::*;
use crate::text::push_all;

pub mod json;
pub mod text;
pub mod types;
pub mod masking;
pub mod format;
pub mod logger;
pub mod sink;
pub mod batch;

verus! {

/// The line printed for a plain diagnostic message: `[LOG] ` and the message.
pub fn log(message: String) -> (r: String)
    ensures
        r@ == seq!['[', 'L', 'O', 'G', ']', ' '] + message@,
{
    proof { reveal_strlit("[LOG] "); }
    let mut out = String::from_str("[LOG] ");
    push_all(&mut out, message.as_str());
    assert("[LOG] "@ =~= seq!['[', 'L', 'O', 'G', ']', ' ']);
    out
}

} // verus!
