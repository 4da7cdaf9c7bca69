//! Pausing and resuming processes by signals.

use nix::sys::signal::kill;
use nix::sys::signal::Signal;
use nix::unistd::Pid;
use vstd::prelude::*;
use vstd::string::*;

use crate::error::worded;
use crate::error::TaskError;
use crate::text::starts_with;

verus! {

/// The signals that pause and resume a process.
#[derive(Clone, Copy, Debug, PartialEq, Eq, Structural)]
pub enum ControlSignal {
    /// Asks the process to pause by itself.
    Interrupt,
    /// Stops the process.
    Stop,
    /// Lets a stopped process continue.
    Continue,
}

/// Trusted: `nix::sys::signal::kill` sends a signal to a process. Whether that succeeds is up to
/// the system, so nothing is said of the result; an error is handed on in words.
#[verifier::external_body]
fn send_signal(pid: u32, signal: ControlSignal) -> (r: Result<(), String>) {
    let signal = match signal {
        ControlSignal::Interrupt => Signal::SIGINT,
        ControlSignal::Stop => Signal::SIGSTOP,
        ControlSignal::Continue => Signal::SIGCONT,
    };
    kill(Pid::from_raw(pid as i32), signal).map_err(|e| e.to_string())
}

/// Whether `sent` is what sending `signal` to the process `pid` can come to.
pub closed spec fn can_come_of(
    pid: u32,
    signal: ControlSignal,
    sent: Result<(), String>,
) -> bool {
    call_ensures(send_signal, (pid, signal), sent)
}

/// Whether `r` tells what came of sending the signal called `name`.
pub open spec fn tells(
    name: Seq<char>,
    sent: Result<(), String>,
    r: Result<(), TaskError>,
) -> bool {
    match sent {
        Ok(()) => r is Ok,
        Err(e) => r matches Err(TaskError::Signal(m)) && m@ == name + " failed: "@ + e@,
    }
}

/// Whether `r` tells what came of stopping the process `pid`.
pub open spec fn tells_of_stop(pid: u32, r: Result<(), TaskError>) -> bool {
    exists|sent: Result<(), String>| #[trigger]
        can_come_of(pid, ControlSignal::Stop, sent) && tells("SIGSTOP"@, sent, r)
}

/// What came of sending the signal called `name`.
pub fn signal_result(name: &str, sent: Result<(), String>) -> (r: Result<(), TaskError>)
    ensures
        match sent {
            Ok(()) => r is Ok,
            Err(e) => r matches Err(TaskError::Signal(m)) && m@ == name@ + " failed: "@ + e@
                && starts_with(m@, name@ + " failed: "@),
        },
{
    match sent {
        Ok(()) => Ok(()),
        Err(e) => {
            let mut m = worded(name, " failed: ");
            let ghost head = m@;
            m.append(e.as_str());
            assert(m@.take(head.len() as int) =~= head);
            Err(TaskError::Signal(m))
        },
    }
}

/// The signal that is sent after one was sent: a process that cannot be asked to pause is stopped.
pub fn fallback_signal(first: ControlSignal, sent: &Result<(), String>) -> (r: Option<
    ControlSignal,
>)
    ensures
        r == (if first == ControlSignal::Interrupt && sent is Err {
            Some(ControlSignal::Stop)
        } else {
            None
        }),
{
    if first == ControlSignal::Interrupt && sent.is_err() {
        Some(ControlSignal::Stop)
    } else {
        None
    }
}

/// Pauses a process as well as can be: it is asked to pause by itself, and stopped where that
/// fails. The result is that of stopping it, where it came to that.
pub fn pause_process(pid: u32) -> (r: Result<(), TaskError>)
    ensures
        exists|asked: Result<(), String>| #[trigger]
            can_come_of(pid, ControlSignal::Interrupt, asked) && (if asked is Ok {
                r is Ok
            } else {
                tells_of_stop(pid, r)
            }),
        r matches Err(e) ==> (e matches TaskError::Signal(m) && starts_with(
            m@,
            "SIGSTOP"@ + " failed: "@,
        )),
{
    let send = send_signal;
    let asked = send(pid, ControlSignal::Interrupt);
    assert(can_come_of(pid, ControlSignal::Interrupt, asked));
    match fallback_signal(ControlSignal::Interrupt, &asked) {
        Some(signal) => {
            let sent = send(pid, signal);
            assert(can_come_of(pid, ControlSignal::Stop, sent));
            signal_result("SIGSTOP", sent)
        },
        None => Ok(()),
    }
}

/// Lets a stopped process continue.
pub fn resume_process(pid: u32) -> (r: Result<(), TaskError>)
    ensures
        exists|sent: Result<(), String>| #[trigger]
            can_come_of(pid, ControlSignal::Continue, sent) && tells("SIGCONT"@, sent, r),
        r matches Err(e) ==> (e matches TaskError::Signal(m) && starts_with(
            m@,
            "SIGCONT"@ + " failed: "@,
        )),
{
    let send = send_signal;
    let sent = send(pid, ControlSignal::Continue);
    assert(can_come_of(pid, ControlSignal::Continue, sent));
    signal_result("SIGCONT", sent)
}

/// What came of pausing a process by console events: the break event is sent first, and the
/// interrupt event where that fails.
pub fn console_event_result(break_sent: bool, interrupt_sent: bool) -> (r: Result<(), TaskError>)
    ensures
        if break_sent || interrupt_sent {
            r is Ok
        } else {
            r matches Err(TaskError::Signal(m)) && m@ == "failed to send CTRL event"@
        },
{
    if break_sent || interrupt_sent {
        Ok(())
    } else {
        Err(TaskError::Signal("failed to send CTRL event".to_owned()))
    }
}

/// Law: a signal that was sent is a success, and one that was not is told of by its name and the
/// reason. A process is stopped only where it could not be asked to pause.
pub proof fn law_signals(
    name: &str,
    sent: Result<(), String>,
    r: Result<(), TaskError>,
    first: ControlSignal,
    next: Option<ControlSignal>,
)
    requires
        call_ensures(signal_result, (name, sent), r),
        call_ensures(fallback_signal, (first, &sent), next),
    ensures
        r is Ok <==> sent is Ok,
        sent matches Err(e) ==> (r matches Err(TaskError::Signal(m)) && m@ == name@ + " failed: "@
            + e@),
        next is Some <==> first == ControlSignal::Interrupt && sent is Err,
        next is Some ==> next == Some(ControlSignal::Stop),
{
}

/// Law: pausing by console events fails only where neither event could be sent.
pub proof fn law_console_events(break_sent: bool, interrupt_sent: bool, r: Result<(), TaskError>)
    requires
        call_ensures(console_event_result, (break_sent, interrupt_sent), r),
    ensures
        r is Err <==> !break_sent && !interrupt_sent,
        r matches Err(e) ==> e is Signal,
{
}

/// Law: a process is asked to pause first. Where that succeeds the pause does; else the process is
/// stopped, and the pause succeeds where that does, or tells why not.
pub proof fn law_pause(pid: u32, r: Result<(), TaskError>)
    requires
        call_ensures(pause_process, (pid,), r),
    ensures
        r is Err ==> exists|sent: Result<(), String>| #[trigger]
            can_come_of(pid, ControlSignal::Stop, sent) && (sent matches Err(e) && (
            r matches Err(TaskError::Signal(m)) && m@ == "SIGSTOP"@ + " failed: "@ + e@)),
        r is Ok ==> exists|asked: Result<(), String>| #[trigger]
            can_come_of(pid, ControlSignal::Interrupt, asked) && (asked is Ok || exists|
                sent: Result<(), String>,
            | #[trigger]
                can_come_of(pid, ControlSignal::Stop, sent) && sent is Ok),
{
    let asked = choose|asked: Result<(), String>| #[trigger]
        can_come_of(pid, ControlSignal::Interrupt, asked) && (if asked is Ok {
            r is Ok
        } else {
            tells_of_stop(pid, r)
        });
    if asked is Err {
        let sent = choose|sent: Result<(), String>| #[trigger]
            can_come_of(pid, ControlSignal::Stop, sent) && tells("SIGSTOP"@, sent, r);
        assert(can_come_of(pid, ControlSignal::Stop, sent));
    }
}

/// Law: a process is resumed by the signal that lets it continue. The resumption succeeds where that was
/// sent, and else tells why not.
pub proof fn law_resume(pid: u32, r: Result<(), TaskError>)
    requires
        call_ensures(resume_process, (pid,), r),
    ensures
        r is Ok ==> exists|sent: Result<(), String>| #[trigger]
            can_come_of(pid, ControlSignal::Continue, sent) && sent is Ok,
        r is Err ==> exists|sent: Result<(), String>| #[trigger]
            can_come_of(pid, ControlSignal::Continue, sent) && (sent matches Err(e) && (
            r matches Err(TaskError::Signal(m)) && m@ == "SIGCONT"@ + " failed: "@ + e@)),
{
    let sent = choose|sent: Result<(), String>| #[trigger]
        can_come_of(pid, ControlSignal::Continue, sent) && tells("SIGCONT"@, sent, r);
    assert(can_come_of(pid, ControlSignal::Continue, sent));
}

} // verus!
