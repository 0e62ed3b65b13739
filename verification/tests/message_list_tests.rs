//! Message list: log and latest views, selection moves, freezing and filtering.
use can_decoder::filters::FilterRule;
use can_decoder::gui::filter_panel::{FilterPanel, FilterSection};
use can_decoder::gui::message_list::{MessageList, ViewMode};
use can_decoder::latest_index::LatestKey;
use can_decoder::filter_editor::FieldType;
use can_decoder::types::{AssembledMessage, DecodedMessage};

fn msg(pgn: u32, source: u8, topic: u64, ts: u64, title: &str) -> DecodedMessage {
    let id = (6u32 << 26) | (pgn << 8) | source as u32;
    DecodedMessage {
        title: title.to_string(),
        topic_id: topic,
        outputs: Vec::new(),
        updates: Vec::new(),
        assembled_message: AssembledMessage::new(id, vec![], ts),
    }
}

fn key(source: u8, dest: u8, topic: u64) -> LatestKey {
    LatestKey { source_address: source, destination_address: dest, topic_id: topic }
}

fn list_with(n: u8) -> MessageList<FilterRule> {
    let mut list: MessageList<FilterRule> = MessageList::new();
    for i in 0..n {
        list.add_message(msg(0xF004, i, 0, 1000 + i as u64, "engine"));
    }
    list
}

#[test]
fn test_new_list_is_empty_log_view() {
    let mut list: MessageList<FilterRule> = MessageList::new();
    assert_eq!(list.total_count(), 0);
    assert_eq!(list.message_count(), 0);
    assert_eq!(list.filtered_count(), 0);
    assert_eq!(list.view_mode, ViewMode::Log);
    assert_eq!(list.selected_index, None);
    assert_eq!(list.select_next(), None);
    assert_eq!(list.select_prev(), None);
    assert!(list.get_selected_message().is_none());
    assert!(list.get_filtered_indices().is_empty());
}

#[test]
fn test_first_message_sets_start_time() {
    let mut list: MessageList<FilterRule> = MessageList::new();
    list.add_message(msg(0xF004, 1, 0, 5000, "a"));
    list.add_message(msg(0xF004, 2, 0, 7000, "b"));
    assert_eq!(list.global_start_time, Some(5000));
}

#[test]
fn test_log_select_next_and_prev() {
    let mut list = list_with(5);
    assert_eq!(list.select_next(), Some(0));
    assert_eq!(list.selected_index, Some(0));
    assert_eq!(list.select_next(), Some(1));
    assert_eq!(list.selected_index, Some(1));
    assert_eq!(list.select_prev(), Some(0));
    assert_eq!(list.selected_index, Some(0));
    // Already at the top: stays.
    assert_eq!(list.select_prev(), Some(0));
    assert_eq!(list.selected_index, Some(0));
}

#[test]
fn test_log_select_prev_without_selection_goes_to_last() {
    let mut list = list_with(5);
    assert_eq!(list.select_prev(), Some(4));
    assert_eq!(list.selected_index, Some(4));
    // At the bottom, next stays.
    assert_eq!(list.select_next(), Some(4));
    assert_eq!(list.selected_index, Some(4));
}

#[test]
fn test_log_page_moves() {
    let mut list = list_with(25);
    assert_eq!(list.select_page_down(), Some(0));
    assert_eq!(list.selected_index, Some(0));
    assert_eq!(list.select_page_down(), Some(10));
    assert_eq!(list.select_page_down(), Some(20));
    assert_eq!(list.select_page_down(), Some(24));
    assert_eq!(list.selected_index, Some(24));
    assert_eq!(list.select_page_up(), Some(14));
    assert_eq!(list.select_page_up(), Some(4));
    assert_eq!(list.select_page_up(), Some(0));
    assert_eq!(list.selected_index, Some(0));
}

#[test]
fn test_log_moves_follow_filter() {
    let mut list: MessageList<FilterRule> = MessageList::new();
    for i in 0..6u8 {
        list.add_message(msg(0xF004, i % 2, 0, i as u64, "x"));
    }
    // Only source 1: global positions 1, 3, 5.
    list.set_filter(Some(1), None, None, vec![], vec![], vec![]);
    assert_eq!(list.filtered_count(), 3);
    assert_eq!(list.select_next(), Some(0));
    assert_eq!(list.selected_index, Some(1));
    assert_eq!(list.select_next(), Some(1));
    assert_eq!(list.selected_index, Some(3));
    assert_eq!(list.scroll_to_end(), Some(5));
    // A selection that does not pass: next goes to the first passing message.
    list.selected_index = Some(2);
    assert_eq!(list.select_next(), Some(0));
    assert_eq!(list.selected_index, Some(1));
}

#[test]
fn test_set_filter_by_pgn_and_title() {
    let mut list: MessageList<FilterRule> = MessageList::new();
    list.add_message(msg(0xF004, 1, 0, 1, "Engine Speed"));
    list.add_message(msg(0xFEF1, 1, 0, 2, "Vehicle Speed"));
    list.add_message(msg(0xF004, 2, 0, 3, "Torque"));
    list.set_filter(None, None, Some(0xF004), vec!["SPEED".to_string()], vec![], vec![]);
    assert_eq!(list.filtered_count(), 1);
    assert_eq!(list.get_visible_rows(0, 10), vec![(None, 0)]);
}

#[test]
fn test_set_filter_by_names() {
    let mut list: MessageList<FilterRule> = MessageList::new();
    let mut a = msg(0xF004, 1, 0, 1, "a");
    a.assembled_message.source_name = Some(0xAA);
    let mut b = msg(0xF004, 2, 0, 2, "b");
    b.assembled_message.source_name = Some(0xBB);
    list.add_message(a);
    list.add_message(b);
    list.set_filter(None, None, None, vec![], vec![0xBB], vec![]);
    assert_eq!(list.get_visible_rows(0, 10), vec![(None, 1)]);
    list.set_filter(None, None, None, vec![], vec![], vec![]);
    assert_eq!(list.filtered_count(), 2);
}

#[test]
fn test_toggle_selection() {
    let mut list = list_with(3);
    list.toggle_selection();
    assert_eq!(list.selected_index, Some(0));
    assert_eq!(list.selected_message().map(|m| m.source_address()), Some(0));
    list.toggle_selection();
    assert_eq!(list.selected_index, None);
    assert!(list.selected_message().is_none());
}

#[test]
fn test_log_selected_message_clamps() {
    let mut list = list_with(3);
    // No selection: the first row.
    assert_eq!(list.get_selected_message().map(|m| m.source_address()), Some(0));
    list.selected_index = Some(99);
    assert_eq!(list.get_selected_message().map(|m| m.source_address()), Some(2));
}

#[test]
fn test_visible_rows_are_clamped() {
    let mut list = list_with(3);
    assert_eq!(list.get_visible_rows(1, 100), vec![(None, 1), (None, 2)]);
    assert_eq!(list.get_visible_rows(10, 5), vec![]);
    assert_eq!(list.get_visible_row_count(), 3);
}

/// Messages 0..4 with sources 3, 1, 3, 2 on one topic.
fn latest_list() -> MessageList<FilterRule> {
    let mut list: MessageList<FilterRule> = MessageList::new();
    list.add_message(msg(0xF004, 3, 7, 1, "a"));
    list.add_message(msg(0xF004, 1, 7, 2, "b"));
    list.add_message(msg(0xF004, 3, 7, 3, "c"));
    list.add_message(msg(0xF004, 2, 7, 4, "d"));
    list
}

#[test]
fn test_latest_view_one_row_per_key_sorted() {
    let mut list = latest_list();
    list.toggle_view_mode();
    assert_eq!(list.view_mode, ViewMode::Latest);
    // PDU2 broadcast: destination 0xFF.
    let k1 = key(1, 0xFF, 7);
    let k2 = key(2, 0xFF, 7);
    let k3 = key(3, 0xFF, 7);
    assert_eq!(
        list.get_visible_rows(0, 10),
        vec![(Some(k1), 1), (Some(k2), 3), (Some(k3), 2)]
    );
    assert_eq!(list.view_row_count(), 3);
    assert_eq!(list.get_visible_row_count(), 3);
    // Entering the view selects its first row.
    assert_eq!(list.selected_latest_key, Some(k1));
    assert_eq!(list.selected_index, Some(0));
}

#[test]
fn test_latest_view_moves_and_selected_message() {
    let mut list = latest_list();
    list.toggle_view_mode();
    assert_eq!(list.select_next(), Some(1));
    assert_eq!(list.selected_latest_key, Some(key(2, 0xFF, 7)));
    let m = list.get_selected_message().unwrap();
    assert_eq!(m.title, "d");
    assert_eq!(list.select_next(), Some(2));
    assert_eq!(list.select_next(), Some(2));
    assert_eq!(list.get_selected_message().unwrap().title, "c");
    assert_eq!(list.select_page_up(), Some(0));
    assert_eq!(list.select_page_down(), Some(2));
    assert_eq!(list.select_prev(), Some(1));
}

#[test]
fn test_latest_selection_follows_key_when_rows_shift() {
    let mut list = latest_list();
    list.toggle_view_mode();
    list.select_next();
    assert_eq!(list.selected_index, Some(1));
    // A new stream that sorts first pushes the selected key's row down.
    list.add_message(msg(0xF004, 0, 7, 5, "e"));
    assert_eq!(list.selected_latest_key, Some(key(2, 0xFF, 7)));
    assert_eq!(list.selected_index, Some(2));
}

#[test]
fn test_latest_freeze_keeps_rows() {
    let mut list = latest_list();
    list.toggle_view_mode();
    list.toggle_freeze();
    assert!(list.latest_frozen);
    list.add_message(msg(0xF004, 0, 7, 5, "e"));
    assert_eq!(list.view_row_count(), 3);
    assert_eq!(list.frozen_snapshot.len(), 3);
    list.toggle_freeze();
    assert!(!list.latest_frozen);
    assert!(list.frozen_snapshot.is_empty());
    assert_eq!(list.view_row_count(), 4);
}

#[test]
fn test_leaving_latest_view_unfreezes() {
    let mut list = latest_list();
    list.toggle_view_mode();
    list.toggle_freeze();
    list.toggle_view_mode();
    assert_eq!(list.view_mode, ViewMode::Log);
    assert!(!list.latest_frozen);
    assert!(list.frozen_snapshot.is_empty());
    assert_eq!(list.view_row_count(), 4);
}

#[test]
fn test_latest_view_of_empty_list() {
    let mut list: MessageList<FilterRule> = MessageList::new();
    list.toggle_view_mode();
    assert_eq!(list.selected_latest_key, None);
    assert_eq!(list.selected_index, None);
    assert_eq!(list.select_next(), None);
    assert!(list.get_selected_message().is_none());
}

#[test]
fn test_clear_messages_resets_selection() {
    let mut list = latest_list();
    list.toggle_view_mode();
    list.toggle_freeze();
    list.clear_messages();
    assert_eq!(list.total_count(), 0);
    assert_eq!(list.selected_index, None);
    assert_eq!(list.selected_latest_key, None);
    assert!(!list.latest_frozen);
    assert!(list.frozen_snapshot.is_empty());
    assert_eq!(list.view_mode, ViewMode::Latest);
}

// ─── Filter panel ─────────────────────────────────────────────────────

#[test]
fn test_filter_section_labels_and_order() {
    let labels: Vec<&str> = FilterSection::all_sections().iter().map(|s| s.label()).collect();
    assert_eq!(
        labels,
        vec!["Source Addr", "Dest Addr", "PGN", "Title", "Src NAME", "Dst NAME"]
    );
    assert_eq!(FilterSection::Pgn.field_type(), FieldType::Pgn);
    assert_eq!(FilterSection::SourceAddr.field_type(), FieldType::SourceAddr);
    assert_eq!(FilterSection::DestName.field_type(), FieldType::SourceAddr);
}

#[test]
fn test_filter_panel_applies_last_choices() {
    let mut list: MessageList<FilterRule> = MessageList::new();
    list.add_message(msg(0xF004, 1, 0, 1, "Engine Speed"));
    list.add_message(msg(0xF004, 2, 0, 2, "Engine Speed"));
    list.add_message(msg(0xFEF1, 2, 0, 3, "Vehicle Speed"));
    let mut panel = FilterPanel::new();
    panel.toggle_filter(FilterSection::SourceAddr, 1);
    panel.toggle_filter(FilterSection::SourceAddr, 2);
    panel.apply_to_message_list(&mut list);
    // The last chosen source wins.
    assert_eq!(list.get_visible_rows(0, 10), vec![(None, 1), (None, 2)]);
    panel.toggle_filter(FilterSection::Pgn, 0xF004);
    panel.apply_to_message_list(&mut list);
    assert_eq!(list.get_visible_rows(0, 10), vec![(None, 1)]);
    // Dropping both choices lets everything pass again.
    panel.toggle_filter(FilterSection::SourceAddr, 2);
    panel.toggle_filter(FilterSection::SourceAddr, 1);
    panel.toggle_filter(FilterSection::Pgn, 0xF004);
    panel.apply_to_message_list(&mut list);
    assert_eq!(list.filtered_count(), 3);
}

#[test]
fn test_filter_panel_titles_toggle() {
    let mut list: MessageList<FilterRule> = MessageList::new();
    list.add_message(msg(0xF004, 1, 0, 1, "Engine Speed"));
    list.add_message(msg(0xFEF1, 2, 0, 2, "Vehicle Position"));
    let mut panel = FilterPanel::new();
    panel.toggle_title_filter("Speed".to_string());
    panel.apply_to_message_list(&mut list);
    assert_eq!(list.get_visible_rows(0, 10), vec![(None, 0)]);
    panel.toggle_title_filter("Speed".to_string());
    panel.apply_to_message_list(&mut list);
    assert_eq!(list.filtered_count(), 2);
}

#[test]
fn test_filter_panel_sections_toggle() {
    let mut panel = FilterPanel::new();
    // Closing and reopening a section works either way round.
    panel.toggle_section(FilterSection::Title);
    panel.toggle_section(FilterSection::Title);
    panel.toggle_section(FilterSection::Pgn);
    let mut list = list_with(2);
    panel.apply_to_message_list(&mut list);
    assert_eq!(list.filtered_count(), 2);
}
