//! Decisions of the host that embeds the Factor VM, as plain values.
//! The host itself (loading the VM library, threads, the GUI) stands
//! outside this library: it finds out which files exist and what the
//! worker did, and asks here which files to use, how to open a session,
//! what to do next in an evaluation, and what to tell the user.
use vstd::prelude::*;

verus! {

/// Where the VM library and its image are taken from.
#[derive(Clone, Copy, Debug, PartialEq, Eq, Structural)]
pub enum PathChoice {
    /// `factor.dll` and `factorforth.image` next to the running program
    /// (the release layout).
    ExeAdjacent,
    /// `vm-build/factor.dll` and `images/factorforth.image` under the
    /// crate root (the development layout).
    Manifest,
}

/// The default pair of files: the first layout in which both files
/// exist, the program's own directory first; when neither has both,
/// the pair next to the program, so that loading reports the missing
/// library there.  Without a known program directory only the crate
/// layout is available.
pub fn choose_default_paths(has_exe_dir: bool, exe_pair_exists: bool, manifest_pair_exists: bool) -> (r: PathChoice)
    ensures
        r == (if has_exe_dir && exe_pair_exists {
            PathChoice::ExeAdjacent
        } else if manifest_pair_exists || !has_exe_dir {
            PathChoice::Manifest
        } else {
            PathChoice::ExeAdjacent
        }),
{
    if has_exe_dir && exe_pair_exists {
        PathChoice::ExeAdjacent
    } else if manifest_pair_exists || !has_exe_dir {
        PathChoice::Manifest
    } else {
        PathChoice::ExeAdjacent
    }
}

/// Seconds an evaluation may run before the worker is interrupted.
pub const EVAL_TIMEOUT_SECS: u64 = 20;

/// Seconds the worker is given to answer an interrupt.
pub const GRACE_SECS: u64 = 3;

/// What opening a session does with the files it finds.
#[derive(Clone, Copy, Debug, PartialEq, Eq, Structural)]
pub enum OpenStep {
    /// No VM library: the session cannot open.
    DllNotFound,
    /// No image but its compressed copy: unpack it, then go on.
    InflateImage,
    /// Neither the image nor its compressed copy.
    ImageNotFound,
    /// Everything is in place.
    Proceed,
}

/// The first decision of opening a session, from which files exist.
pub fn open_step(dll_exists: bool, image_exists: bool, zst_exists: bool) -> (r: OpenStep)
    ensures
        r == (if !dll_exists {
            OpenStep::DllNotFound
        } else if image_exists {
            OpenStep::Proceed
        } else if zst_exists {
            OpenStep::InflateImage
        } else {
            OpenStep::ImageNotFound
        }),
{
    if !dll_exists {
        OpenStep::DllNotFound
    } else if image_exists {
        OpenStep::Proceed
    } else if zst_exists {
        OpenStep::InflateImage
    } else {
        OpenStep::ImageNotFound
    }
}

/// Why a session worker is no longer usable.
#[derive(Clone, Debug, PartialEq)]
pub enum Death {
    /// The evaluation outran its time and ignored the interrupt.
    Timeout { last_source: String, after_secs: u64 },
    /// The worker panicked.
    WorkerPanicked { last_source: String, message: String },
    /// The worker went away.
    WorkerGone { last_source: String },
}

/// Where one evaluation stands.
#[derive(Clone, Copy, Debug, PartialEq, Eq, Structural)]
pub enum EvalPhase {
    /// Not yet sent to the worker.
    Start,
    /// Sent; waiting for the reply within the time limit.
    Waiting,
    /// Interrupted; waiting out the grace period.
    Interrupted,
}

/// What the host observed.
#[derive(Clone, Debug, PartialEq)]
pub enum EvalEvent {
    /// The evaluation is asked for.
    Begin,
    /// Handing the source to the worker failed.
    SendFailed,
    /// The source was handed to the worker.
    Sent,
    /// The worker replied.
    Replied,
    /// The wait ran out.
    TimedOut,
    /// The worker went away while waiting; a panic message, when one was
    /// recorded.
    Disconnected(Option<String>),
}

/// What the host does next.
#[derive(Clone, Copy, Debug, PartialEq, Eq, Structural)]
pub enum EvalAction {
    /// Fail with the death the session records.
    Fail,
    /// Hand the source to the worker.
    Send,
    /// Wait for the reply, for this many seconds.
    Wait(u64),
    /// Interrupt the worker, then wait for this many seconds.
    InterruptAndWait(u64),
    /// Give the reply back.
    Return,
}

/// The death recorded when the worker goes away during the evaluation
/// of `source`: a panic keeps its message.
pub open spec fn lost(r: Option<Death>, panic: Option<String>, source: Seq<char>) -> bool {
    match panic {
        Some(msg) => r matches Some(Death::WorkerPanicked { last_source, message })
            && last_source@ == source && message@ == msg@,
        None => r matches Some(Death::WorkerGone { last_source }) && last_source@ == source,
    }
}

fn gone(source: &str) -> (r: Option<Death>)
    ensures
        lost(r, None, source@),
{
    Some(Death::WorkerGone { last_source: crate::text::owned(source) })
}

/// One step of an evaluation: from whether the session is already
/// dead, the phase and what was observed, the death to record (if any),
/// the next phase and the action.  A dead session refuses at once.  A
/// failed hand-over or a disconnect records the worker as gone (or as
/// panicked, keeping the panic message), with this source as the last;
/// a wait that runs out interrupts once, and a second one records a
/// timeout after the time limit.
pub fn eval_step(dead: bool, phase: EvalPhase, event: &EvalEvent, source: &str, timeout_secs: u64) -> (r: (
    Option<Death>,
    EvalPhase,
    EvalAction,
))
    ensures
        dead ==> r == (None::<Death>, phase, EvalAction::Fail),
        !dead && phase == EvalPhase::Start && *event == EvalEvent::Begin ==> r == (None::<Death>, phase, EvalAction::Send),
        !dead && phase == EvalPhase::Start && *event == EvalEvent::Sent
            ==> r == (None::<Death>, EvalPhase::Waiting, EvalAction::Wait(timeout_secs)),
        !dead && phase == EvalPhase::Start && *event == EvalEvent::SendFailed
            ==> lost(r.0, None, source@) && r.1 == phase && r.2 == EvalAction::Fail,
        !dead && phase != EvalPhase::Start && *event == EvalEvent::Replied ==> r == (None::<Death>, phase, EvalAction::Return),
        !dead && phase == EvalPhase::Waiting && *event == EvalEvent::TimedOut
            ==> r == (None::<Death>, EvalPhase::Interrupted, EvalAction::InterruptAndWait(GRACE_SECS)),
        !dead && phase == EvalPhase::Interrupted && *event == EvalEvent::TimedOut ==> (r.0 matches Some(
            Death::Timeout { last_source, after_secs },
        ) && last_source@ == source@ && after_secs == timeout_secs) && r.1 == phase && r.2 == EvalAction::Fail,
        !dead && phase != EvalPhase::Start && *event is Disconnected
            ==> lost(r.0, event->Disconnected_0, source@) && r.1 == phase && r.2 == EvalAction::Fail,
{
    if dead {
        return (None, phase, EvalAction::Fail);
    }
    match event {
        EvalEvent::Begin => {
            if phase == EvalPhase::Start {
                (None, phase, EvalAction::Send)
            } else {
                (None, phase, EvalAction::Return)
            }
        },
        EvalEvent::Sent => {
            if phase == EvalPhase::Start {
                (None, EvalPhase::Waiting, EvalAction::Wait(timeout_secs))
            } else {
                (None, phase, EvalAction::Return)
            }
        },
        EvalEvent::SendFailed => (gone(source), phase, EvalAction::Fail),
        EvalEvent::Replied => (None, phase, EvalAction::Return),
        EvalEvent::TimedOut => {
            if phase == EvalPhase::Waiting {
                (None, EvalPhase::Interrupted, EvalAction::InterruptAndWait(GRACE_SECS))
            } else {
                (Some(Death::Timeout { last_source: crate::text::owned(source), after_secs: timeout_secs }), phase, EvalAction::Fail)
            }
        },
        EvalEvent::Disconnected(m) => match m {
            Some(msg) => (
                Some(Death::WorkerPanicked { last_source: crate::text::owned(source), message: msg.clone() }),
                phase,
                EvalAction::Fail,
            ),
            None => (gone(source), phase, EvalAction::Fail),
        },
    }
}

/// The message of a worker's death.
pub open spec fn death_text(d: Death) -> Seq<char> {
    match d {
        Death::Timeout { last_source, after_secs } => "session timed out after "@ + crate::text::nat_decimal(
            after_secs as nat,
        ) + "s while evaluating: "@ + last_source@,
        Death::WorkerPanicked { last_source, message } => "session worker panicked: "@ + message@
            + "\n  (last source: "@ + last_source@ + ")"@,
        Death::WorkerGone { last_source } => "session worker disconnected while evaluating: "@ + last_source@,
    }
}

/// The message of a worker's death (see [`death_text`]).
pub fn death_message(d: &Death) -> (s: String)
    ensures
        s@ == death_text(*d),
{
    let mut s = String::new();
    match d {
        Death::Timeout { last_source, after_secs } => {
            s.push_str("session timed out after ");
            crate::text::push_decimal(&mut s, *after_secs);
            s.push_str("s while evaluating: ");
            s.push_str(last_source.as_str());
        },
        Death::WorkerPanicked { last_source, message } => {
            s.push_str("session worker panicked: ");
            s.push_str(message.as_str());
            s.push_str("\n  (last source: ");
            s.push_str(last_source.as_str());
            s.push_str(")");
        },
        Death::WorkerGone { last_source } => {
            s.push_str("session worker disconnected while evaluating: ");
            s.push_str(last_source.as_str());
        },
    }
    s
}

} // verus!
