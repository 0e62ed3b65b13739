//! State of the graphical front end's widgets.
use can_decoder::filter_editor::FieldType;
use can_decoder::gui::app_state::AppState;
use can_decoder::gui::filter_widget::FilterWidget;
use can_decoder::gui::status_bar::StatusBar;

#[test]
fn filter_widget_starts_enabled_and_empty() {
    let w = FilterWidget::new(FieldType::Pgn);
    assert!(w.is_enabled());
    assert_eq!(w.input_text(), "");
    assert_eq!(w.label(), "PGN");
    assert_eq!(w.field_type(), FieldType::Pgn);
}

#[test]
fn filter_widget_types_and_deletes_at_cursor() {
    let mut w = FilterWidget::new(FieldType::SourceAddr);
    w.append_char('1');
    w.append_char('4');
    w.append_char('4');
    assert_eq!(w.input_text(), "144");
    w.delete_char();
    assert_eq!(w.input_text(), "14");
    w.append_char('5');
    assert_eq!(w.input_text(), "145");
}

#[test]
fn filter_widget_disabled_ignores_input() {
    let mut w = FilterWidget::new(FieldType::Title);
    w.append_char('a');
    w.toggle_enabled();
    assert!(!w.is_enabled());
    w.append_char('b');
    w.delete_char();
    assert_eq!(w.input_text(), "a");
    w.toggle_enabled();
    w.delete_char();
    assert_eq!(w.input_text(), "");
    w.delete_char();
    assert_eq!(w.input_text(), "");
}

#[test]
fn filter_widget_set_text_moves_cursor_to_end() {
    let mut w = FilterWidget::new(FieldType::DestAddr);
    w.set_input_text("12".to_string());
    w.append_char('3');
    assert_eq!(w.input_text(), "123");
    w.set_input_text("123".to_string());
    w.append_char('4');
    assert_eq!(w.input_text(), "1234");
}

#[test]
fn filter_widget_cursor_counts_bytes() {
    let mut w = FilterWidget::new(FieldType::Title);
    w.append_char('é');
    assert_eq!(w.input_text(), "é");
    w.delete_char();
    assert_eq!(w.input_text(), "");
}

#[test]
fn status_bar_colors() {
    let top = StatusBar::new("ready".to_string(), true);
    assert_eq!(top.background_color(), 0x4A4A4A);
    let bottom = StatusBar::new("3 messages".to_string(), false);
    assert_eq!(bottom.background_color(), 0x1E3A5F);
    assert_eq!(bottom.text_color(), 0xCCCCCC);
    assert_eq!(bottom.text, "3 messages");
}

#[test]
fn app_state_keeps_config_dir() {
    let dir = "/home/user/.config/can_decoder".to_string();
    assert_eq!(AppState::new(&dir).config_dir, dir);
}
