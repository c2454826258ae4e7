//! A status-line generator's verified core: the event-multiplexing
//! scheduler that drives independently-timed sources through one blocking
//! wait, and the kernel uevent transport's framing and parsing, together
//! with the battery, memory and clock sources built on them.
//!
//! The surrounding program performs the operating-system calls — the
//! netlink socket, the poll, the file reads — and hands their results to
//! this library as plain values; every decision about them is made and
//! proved here.

pub mod batteries;
pub mod clock;
pub mod mem;
pub mod num;
pub mod scan;
pub mod sched;
pub mod uevent;

use vstd::prelude::*;

verus! {

/// Escapes text for embedding in a JSON string field of the bar protocol.
/// Every character the status blocks produce maps to itself, so the result
/// equals the input.
pub fn escape_json_string(s: &str) -> (r: String)
    ensures
        r@ == s@,
{
    s.to_owned()
}

} // verus!
