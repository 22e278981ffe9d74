use newfactor::host::{open_step, OpenStep, eval_step, death_message, Death, EvalAction, EvalEvent, EvalPhase, EVAL_TIMEOUT_SECS, GRACE_SECS};
use newfactor::host::{choose_default_paths, PathChoice};
#[test]
fn crate_name_is_set() {
    assert_eq!(newfactor::NAME, "newfactor");
}

#[test]
fn default_paths_prefer_the_program_directory() {
    assert_eq!(choose_default_paths(true, true, true), PathChoice::ExeAdjacent);
    assert_eq!(choose_default_paths(true, false, true), PathChoice::Manifest);
    assert_eq!(choose_default_paths(true, false, false), PathChoice::ExeAdjacent);
    assert_eq!(choose_default_paths(false, true, false), PathChoice::Manifest);
}

#[test]
fn opening_a_session_checks_files_in_order() {

    assert_eq!(open_step(false, true, true), OpenStep::DllNotFound);
    assert_eq!(open_step(true, true, false), OpenStep::Proceed);
    assert_eq!(open_step(true, false, true), OpenStep::InflateImage);
    assert_eq!(open_step(true, false, false), OpenStep::ImageNotFound);
}

#[test]
fn an_evaluation_interrupts_once_then_times_out() {

    let (d, p, a) = eval_step(false, EvalPhase::Start, &EvalEvent::Begin, "1 .", EVAL_TIMEOUT_SECS);
    assert_eq!((d, p, a), (None, EvalPhase::Start, EvalAction::Send));
    let (_, p, a) = eval_step(false, p, &EvalEvent::Sent, "1 .", EVAL_TIMEOUT_SECS);
    assert_eq!((p, a), (EvalPhase::Waiting, EvalAction::Wait(20)));
    let (_, p, a) = eval_step(false, p, &EvalEvent::TimedOut, "1 .", EVAL_TIMEOUT_SECS);
    assert_eq!((p, a), (EvalPhase::Interrupted, EvalAction::InterruptAndWait(GRACE_SECS)));
    let (d, _, a) = eval_step(false, p, &EvalEvent::TimedOut, "1 .", EVAL_TIMEOUT_SECS);
    assert_eq!(a, EvalAction::Fail);
    let d = d.unwrap();
    assert_eq!(d, Death::Timeout { last_source: "1 .".to_string(), after_secs: 20 });
    assert_eq!(death_message(&d), "session timed out after 20s while evaluating: 1 .");
    let (d, _, a) = eval_step(true, EvalPhase::Start, &EvalEvent::Begin, "2 .", EVAL_TIMEOUT_SECS);
    assert_eq!((d, a), (None, EvalAction::Fail));
    let (d, _, _) = eval_step(false, EvalPhase::Waiting, &EvalEvent::Disconnected(Some("boom".to_string())), "3 .", 20);
    assert_eq!(death_message(&d.unwrap()), "session worker panicked: boom\n  (last source: 3 .)");
}
