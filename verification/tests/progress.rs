use decon::progress::{BudgetExceeded, ProgressTracker};

#[test]
fn records_until_ceiling() {
    let mut t = ProgressTracker::new(2);
    t.record_llm_call().unwrap();
    t.record_llm_call().unwrap();
    let err = t.record_llm_call().unwrap_err();
    assert_eq!(err.used, 2);
    assert_eq!(err.max, 2);
    assert_eq!(t.snapshot().llm_calls_remaining, 0);
}

#[test]
fn zero_max_fails_immediately() {
    let mut t = ProgressTracker::new(0);
    assert!(t.record_llm_call().is_err());
}

#[test]
fn reserve_batch() {
    let mut t = ProgressTracker::new(5);
    t.reserve_llm_calls(3).unwrap();
    assert_eq!(t.snapshot().llm_calls_used, 3);
    assert!(t.reserve_llm_calls(3).is_err());
    t.reserve_llm_calls(2).unwrap();
    assert_eq!(t.snapshot().llm_calls_used, 5);
}

#[test]
fn stage_tracking() {
    let mut t = ProgressTracker::new(10);
    t.set_stage("identify");
    assert_eq!(t.snapshot().current_stage.as_deref(), Some("identify"));
    t.complete_stage();
    assert!(t.snapshot().current_stage.is_none());
    assert_eq!(t.snapshot().stages_completed, 1);
}

