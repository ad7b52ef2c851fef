//! What the capture loop does with what it gets from the interface.

use vstd::prelude::*;

use crate::parser::{parse_packet, parsed, RawPacket};
use crate::text::{contains, lowered, occurs, occurs_at, to_ascii_lowercase};

verus! {

/// What came from the interface.
pub enum Captured<'a> {
    Frame(&'a [u8]),
    TimedOut,
    Failed,
}

/// What to do about it.
#[derive(Clone, Copy, Debug)]
pub enum CaptureStep {
    /// Hand the packet on.
    Send(RawPacket),
    /// Go on with the next one.
    Skip,
    /// Stop to capture.
    Stop,
}

/// What to do about what came from the interface.
pub open spec fn step_for(captured: Captured<'_>) -> CaptureStep {
    match captured {
        Captured::Frame(bytes) => match parsed(bytes@) {
            Some(packet) => CaptureStep::Send(packet),
            None => CaptureStep::Skip,
        },
        Captured::TimedOut => CaptureStep::Skip,
        Captured::Failed => CaptureStep::Stop,
    }
}

/// What to do about what came from the interface: a frame that holds no known packet is
/// passed over, a failure ends the capture.
pub fn capture_step(captured: Captured<'_>) -> (step: CaptureStep)
    ensures
        step == step_for(captured),
{
    match captured {
        Captured::Frame(bytes) => match parse_packet(bytes) {
            Some(packet) => CaptureStep::Send(packet),
            None => CaptureStep::Skip,
        },
        Captured::TimedOut => CaptureStep::Skip,
        Captured::Failed => CaptureStep::Stop,
    }
}

/// What the user is told if the interface cannot be opened: a hint if it is for want of
/// permission, else the error.
pub open spec fn open_failure_text(iface: Seq<char>, error: Seq<char>) -> Seq<char> {
    if occurs(lowered(error), "permission"@) {
        "Error: packet capture requires root privileges. Run with sudo."@
    } else {
        "Error: failed to open capture interface "@ + iface + ": "@ + error
    }
}

/// What the user is told if the interface cannot be opened.
pub fn open_failure(iface: &str, error: &str) -> (message: String)
    ensures
        message@ == open_failure_text(iface@, error@),
{
    if contains(to_ascii_lowercase(error).as_str(), "permission") {
        "Error: packet capture requires root privileges. Run with sudo.".to_owned()
    } else {
        let mut message: String = "Error: failed to open capture interface ".to_owned();
        message.append(iface);
        message.append(": ");
        message.append(error);
        message
    }
}

/// Every packet that a frame holds is handed on, whatever it is; only a failure ends the
/// capture.
pub proof fn lemma_every_packet_is_handed_on(captured: Captured<'_>, packet: RawPacket)
    ensures
        step_for(captured) == CaptureStep::Send(packet) <==> (captured matches Captured::Frame(
            bytes,
        ) && parsed(bytes@) == Some(packet)),
        step_for(captured) is Stop <==> captured is Failed,
{
}

/// Whatever the interface, an error that speaks of a permission, in any case of letters,
/// gives the same hint; any other error is passed on behind the name of the interface.
pub proof fn lemma_open_failure_explains(iface: Seq<char>, other: Seq<char>, error: Seq<char>)
    ensures
        occurs(lowered(error), "permission"@) ==> open_failure_text(iface, error)
            == open_failure_text(other, "permission"@),
        !occurs(lowered(error), "permission"@) ==> (iface + ": "@ + error).is_suffix_of(
            open_failure_text(iface, error),
        ),
{
    let p = "permission"@;
    reveal_strlit("permission");
    assert(lowered(p) =~= p);
    assert(p.subrange(0, p.len() as int) =~= p);
    assert(occurs_at(lowered(p), p, 0));
    let start = "Error: failed to open capture interface "@;
    assert((start + iface + ": "@ + error).skip(start.len() as int) =~= iface + ": "@ + error);
    assert(start + iface + ": "@ + error =~= start + (iface + ": "@ + error));
}

} // verus!
