//! The re-analysis coordination state machine.

use phplint::ReanalysisCoordinator;
use phplint::WhenAction;

#[test]
fn overlapping_triggers_coalesce_into_one_run() {
    let mut c = ReanalysisCoordinator::new();
    // the first trigger starts the one and only run
    assert!(c.begin_trigger(Some(1)));
    // a trigger while busy starts no second run
    assert!(!c.begin_trigger(Some(2)));
    // finishing hands both completions back, in queue order, and the
    // coalesced re-run wish
    let (completions, rerun_requested) = c.finish();
    assert_eq!(completions, vec![1, 2]);
    assert!(rerun_requested);
    // the wish is only reported; the coordinator is idle again
    assert!(c.begin_trigger(None));
}

#[test]
fn trigger_without_completion_queues_nothing() {
    let mut c = ReanalysisCoordinator::new();
    assert!(c.begin_trigger(None));
    let (completions, rerun_requested) = c.finish();
    assert!(completions.is_empty());
    assert!(!rerun_requested);
}

#[test]
fn callback_with_published_result_runs_now() {
    let mut c = ReanalysisCoordinator::new();
    assert_eq!(c.when_completed_analysis(true, 7), WhenAction::RunNow);
}

#[test]
fn callback_while_busy_is_deferred() {
    let mut c = ReanalysisCoordinator::new();
    c.begin_trigger(None);
    assert_eq!(c.when_completed_analysis(true, 7), WhenAction::Deferred);
    let (completions, _) = c.finish();
    assert_eq!(completions, vec![7]);
}

#[test]
fn callback_without_result_enters_a_run() {
    let mut c = ReanalysisCoordinator::new();
    assert_eq!(c.when_completed_analysis(false, 7), WhenAction::StartAnalysis);
    let (completions, rerun_requested) = c.finish();
    assert_eq!(completions, vec![7]);
    assert!(!rerun_requested);
}

#[test]
fn progress_channel_is_negotiated_once() {
    let mut c = ReanalysisCoordinator::new();
    assert!(c.register_progress_once());
    assert!(!c.register_progress_once());
    assert!(!c.register_progress_once());
}
