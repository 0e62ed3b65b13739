//! Persisted filter widget snapshots.
use can_decoder::app_state::{FilterType, FilterWidget};
use can_decoder::filter_state::FilterState;

#[test]
fn round_trip_preserves_widgets() {
    let mut ws = vec![
        FilterWidget::new("Title", FilterType::Title),
        FilterWidget::new("PGN", FilterType::Pgn),
    ];
    ws[1].enabled = true;
    ws[1].input_text = "65288".into();

    let state = FilterState::from_widgets(&ws);
    assert_eq!(state.active_count(), 1);
    assert!(!state.is_empty());

    let rebuilt = state.to_widgets();
    assert_eq!(rebuilt.len(), 2);
    assert_eq!(rebuilt[0].filter_type, FilterType::Title);
    assert!(!rebuilt[0].enabled);
    assert_eq!(rebuilt[1].filter_type, FilterType::Pgn);
    assert!(rebuilt[1].enabled);
    assert_eq!(rebuilt[1].input_text, "65288");
}

#[test]
fn empty_state_reports_empty() {
    let state = FilterState::default();
    assert!(state.is_empty());
    assert_eq!(state.active_count(), 0);
}
