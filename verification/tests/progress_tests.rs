//! The rate-limited progress reporter.

use phplint::CallbackProgress;

#[test]
fn four_reports_emit_each_quarter_once() {
    let mut p = CallbackProgress::new_with_max(4);
    assert_eq!(p.progress("x"), Some(25));
    assert_eq!(p.progress("x"), Some(50));
    assert_eq!(p.progress("x"), Some(75));
    assert_eq!(p.progress("x"), Some(100));
}

#[test]
fn extra_report_past_the_bound_is_deduplicated() {
    let mut p = CallbackProgress::new_with_max(4);
    for _ in 0..4 {
        p.progress("x");
    }
    // the counter overtakes the bound; the percentage stays at 100
    assert_eq!(p.progress("x"), None);
}

#[test]
fn duplicate_percentages_fire_once() {
    let mut p = CallbackProgress::new_with_max(200);
    assert_eq!(p.progress("x"), None);
    assert_eq!(p.progress("x"), Some(1));
    assert_eq!(p.progress("x"), None);
    assert_eq!(p.progress("x"), Some(2));
}

#[test]
fn label_change_restarts_the_counter() {
    let mut p = CallbackProgress::new_with_max(2);
    assert_eq!(p.progress("pass 1/2"), Some(50));
    assert_eq!(p.progress("pass 1/2"), Some(100));
    // a new label restarts the count; its first percentage is 50 again
    assert_eq!(p.progress("pass 2/2"), Some(50));
    assert_eq!(p.progress("pass 2/2"), Some(100));
}

#[test]
fn bound_self_heals_when_it_undercounts() {
    let mut p = CallbackProgress::new_with_max(0);
    // with no configured bound the counter itself is the bound
    assert_eq!(p.progress("x"), Some(100));
    assert_eq!(p.progress("x"), None);
}

#[test]
fn set_max_changes_only_the_bound() {
    let mut p = CallbackProgress::new();
    p.set_max(2);
    assert_eq!(p.progress("x"), Some(50));
}
