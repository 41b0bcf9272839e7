use lifemetrics::console::split_console_line;
use lifemetrics::errors::CoreError;
use lifemetrics::logwriter::ChannelWriter;
use lifemetrics::message::MessageBus;
use lifemetrics::tabs::{weigh_in_reset, DietPhase, ExerciseMetric, Tab, TabTracker};

#[test]
fn default_tab_is_log_weight() {
    assert_eq!(Tab::default(), Tab::LogWeight);
    assert_eq!(DietPhase::default(), DietPhase::Bulk);
    assert_eq!(ExerciseMetric::default(), ExerciseMetric::Weight);
}

#[test]
fn labels_match_display_text() {
    assert_eq!(Tab::LogWeight.label(), "LogWeight");
    assert_eq!(Tab::LogExercise.label(), "LogExercise");
    assert_eq!(Tab::WeightProgress.label(), "WeightProgress");
    assert_eq!(Tab::ExerciseProgress.label(), "ExerciseProgress");
    assert_eq!(DietPhase::Bulk.label(), "Bulk");
    assert_eq!(DietPhase::Cut.label(), "Cut");
    assert_eq!(DietPhase::Maintain.label(), "Maintain");
    assert_eq!(ExerciseMetric::Weight.label(), "Weight");
}

#[test]
fn entering_log_weight_resets_date() {
    assert!(weigh_in_reset(Some(Tab::LogExercise), Tab::LogWeight));
    assert!(weigh_in_reset(None, Tab::LogWeight));
    assert!(weigh_in_reset(Some(Tab::WeightProgress), Tab::LogWeight));
}

#[test]
fn staying_on_log_weight_keeps_date() {
    assert!(!weigh_in_reset(Some(Tab::LogWeight), Tab::LogWeight));
    assert!(!weigh_in_reset(Some(Tab::LogWeight), Tab::LogExercise));
    assert!(!weigh_in_reset(None, Tab::ExerciseProgress));
}

#[test]
fn tracker_reports_reset_only_on_transition() {
    let mut t = TabTracker::new();
    assert!(t.observe(Tab::LogWeight)); // first frame counts as a transition
    assert!(!t.observe(Tab::LogWeight)); // unchanged
    assert!(!t.observe(Tab::LogExercise));
    assert!(t.observe(Tab::LogWeight)); // came back
    assert!(!t.observe(Tab::LogWeight));
}

#[test]
fn message_returned_while_live() {
    let mut bus = MessageBus::new();
    assert_eq!(bus.current_message(0), None);
    bus.set_message("x".to_string(), 1_000);
    assert_eq!(bus.current_message(1_000).as_deref(), Some("x"));
    assert_eq!(bus.current_message(5_999).as_deref(), Some("x"));
}

#[test]
fn message_expires_and_stays_expired() {
    let mut bus = MessageBus::new();
    bus.set_message("x".to_string(), 1_000);
    assert_eq!(bus.current_message(6_000), None);
    // cleared on that poll: even an in-window time now reads empty
    assert_eq!(bus.current_message(1_000), None);
    assert_eq!(bus.current_message(7_000), None);
    // a new message starts a new window
    bus.set_message("y".to_string(), 10_000);
    assert_eq!(bus.current_message(14_999).as_deref(), Some("y"));
}

#[test]
fn message_unpolled_persists_indefinitely() {
    let mut bus = MessageBus::new();
    bus.set_message("x".to_string(), 0);
    // never polled between: the first poll far in the future still expires it
    assert_eq!(bus.current_message(1_000_000), None);
}

#[test]
fn channel_writer_forwards_utf8_chunks() {
    let (tx, rx) = std::sync::mpsc::channel::<String>();
    let mut w = ChannelWriter::new(tx);
    assert_eq!(w.write(b"hello"), Some(5));
    assert_eq!(rx.try_recv().unwrap(), "hello");
}

#[test]
fn channel_writer_rejects_invalid_utf8() {
    let (tx, rx) = std::sync::mpsc::channel::<String>();
    let mut w = ChannelWriter::new(tx);
    assert_eq!(w.write(&[0xff, 0xfe, 0xfd]), None);
    assert!(rx.try_recv().is_err());
}

#[test]
fn console_line_with_prompt_and_level() {
    let line = split_console_line("$ [INFO] ready\n");
    // the trailing newline was part of the body's tail, not trimmed there
    assert!(line.had_prompt);
    assert_eq!(line.level.as_deref(), Some("[INFO]"));
    assert_eq!(line.body, "ready\n");
}

#[test]
fn console_line_with_level_only() {
    let line = split_console_line("[STATUS] new diet cycle saved.");
    assert!(!line.had_prompt);
    assert_eq!(line.level.as_deref(), Some("[STATUS]"));
    assert_eq!(line.body, "new diet cycle saved.");
}

#[test]
fn console_line_plain_text() {
    let line = split_console_line("  plain words");
    assert!(!line.had_prompt);
    assert_eq!(line.level, None);
    assert_eq!(line.body, "plain words");
}

#[test]
fn console_level_needs_space_or_end() {
    let tight = split_console_line("[X]tight");
    assert_eq!(tight.level, None);
    assert_eq!(tight.body, "[X]tight");
    let ending = split_console_line("[ok]");
    assert_eq!(ending.level.as_deref(), Some("[ok]"));
    assert_eq!(ending.body, "");
}

#[test]
fn console_unclosed_bracket_is_plain() {
    let line = split_console_line("$ [oops no close");
    assert!(line.had_prompt);
    assert_eq!(line.level, None);
    assert_eq!(line.body, "[oops no close");
}

#[test]
fn error_kind_labels() {
    assert_eq!(CoreError::LockUnavailable.kind_label(), "failed to acquire db lock");
    assert_eq!(CoreError::InvalidDateFormat.kind_label(), "invalid date format. use yyyy-mm-dd.");
    assert_eq!(CoreError::InvalidWeightValue.kind_label(), "weight must be a positive number.");
    assert_eq!(
        CoreError::StorePrepareFailure("x".to_string()).kind_label(),
        "error preparing statement"
    );
    assert_eq!(
        CoreError::StoreExecutionFailure("x".to_string()).kind_label(),
        "error running statement"
    );
    assert_eq!(CoreError::RowDecodeFailure("x".to_string()).kind_label(), "error decoding row");
}
