//! What progress bars say.

use vstd::prelude::*;

use crate::text::{decimal, push_decimal};

verus! {

/// The layout of a progress bar that is labelled `label`. The parts in braces
/// are filled in when it is drawn.
pub fn bar_template(label: &str) -> (template: String)
    ensures
        template@ == label@
            + " [{bar:40}] {bytes}/{total_bytes} ({percent}%) ETA {eta} {msg}"@,
{
    let mut template: String = String::new();
    template.append(label);
    template.append(" [{bar:40}] {bytes}/{total_bytes} ({percent}%) ETA {eta} {msg}");
    template
}

/// What is said during a scan that has found `found` headers.
pub fn candidates_message(found: usize) -> (message: String)
    ensures
        message@ == decimal(found as nat) + " candidates"@,
{
    let mut message: String = String::new();
    push_decimal(&mut message, found as u64);
    message.append(" candidates");
    message
}

} // verus!
