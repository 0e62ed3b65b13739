//! Filter editor: parsing, formatting, text and selection synchronisation.
use can_decoder::filter_editor::{
    parse_hex_or_dec_u32, parse_hex_or_dec_u64, parse_hex_or_dec_u8, FieldType, FilterEditor,
    FilterEditorState, FilterOption, RawValue, TextValidation,
};

// ─── FieldType ─────────────────────────────────────────────────────────

#[test]
fn test_field_type_label() {
    assert_eq!(FieldType::SourceAddr.label(), "Source Addr");
    assert_eq!(FieldType::DestAddr.label(), "Dest Addr");
    assert_eq!(FieldType::SrcName.label(), "Source NAME");
    assert_eq!(FieldType::DstName.label(), "Dest NAME");
    assert_eq!(FieldType::Pgn.label(), "PGN");
    assert_eq!(FieldType::Title.label(), "Title");
}

#[test]
fn test_parse_value_u8_decimal() {
    assert_eq!(FieldType::SourceAddr.parse_value("144"), Ok(RawValue::U8(144)));
    assert_eq!(FieldType::DestAddr.parse_value("255"), Ok(RawValue::U8(255)));
}

#[test]
fn test_parse_value_u8_hex() {
    assert_eq!(FieldType::SourceAddr.parse_value("0x90"), Ok(RawValue::U8(144)));
    assert_eq!(FieldType::DestAddr.parse_value("0xfe"), Ok(RawValue::U8(254)));
}

#[test]
fn test_parse_value_u8_invalid() {
    assert!(FieldType::SourceAddr.parse_value("300").is_err());
    assert!(FieldType::SourceAddr.parse_value("abc").is_err());
}

#[test]
fn test_parse_value_u64_hex() {
    let result = FieldType::SrcName.parse_value("0x80000000000F2EEC");
    assert!(result.is_ok());
    if let Ok(RawValue::U64(v)) = result {
        assert_eq!(v, 0x80000000000F2EEC);
    } else {
        panic!("Expected U64");
    }
}

#[test]
fn test_parse_value_u32() {
    assert_eq!(FieldType::Pgn.parse_value("51968"), Ok(RawValue::U32(51968)));
    assert_eq!(FieldType::Pgn.parse_value("0xCAF00"), Ok(RawValue::U32(0xCAF00)));
}

#[test]
fn test_parse_value_title() {
    let result = FieldType::Title.parse_value("Engine Speed");
    assert!(result.is_ok());
    if let Ok(RawValue::Title(s)) = result {
        assert_eq!(s.as_str(), "Engine Speed");
    } else {
        panic!("Expected Title");
    }
}

#[test]
fn test_format_value_u8() {
    assert_eq!(FieldType::SourceAddr.format_value(&RawValue::U8(144)), "144");
}

#[test]
fn test_format_value_u64() {
    let formatted = FieldType::SrcName.format_value(&RawValue::U64(0x80000000000F2EEC));
    assert_eq!(formatted, "80000000000F2EEC");
}

#[test]
fn test_format_value_u32() {
    let formatted = FieldType::Pgn.format_value(&RawValue::U32(0xCAF00));
    assert_eq!(formatted, "0xCAF00");
}

// ─── RawValue ──────────────────────────────────────────────────────────

#[test]
fn test_raw_value_display_str() {
    assert_eq!(RawValue::U8(144).display_str(), "144");
    assert_eq!(RawValue::U64(0xFF).display_str(), "00000000000000FF");
    assert_eq!(RawValue::U32(0xCAF00).display_str(), "0xCAF00");
}

#[test]
fn test_raw_value_as_u8() {
    assert_eq!(RawValue::U8(144).as_u8(), Some(144));
    assert_eq!(RawValue::U64(144).as_u8(), None);
}

#[test]
fn test_raw_value_as_u64() {
    assert_eq!(RawValue::U64(0xFF).as_u64(), Some(0xFF));
    assert_eq!(RawValue::U8(255).as_u64(), None);
}

#[test]
fn test_raw_value_as_title() {
    let rc: String = "Engine Speed".to_string();
    assert_eq!(RawValue::Title(rc.clone()).as_title(), Some(&rc));
    assert_eq!(RawValue::U8(144).as_title(), None);
}

// ─── FilterEditorState ─────────────────────────────────────────────────

fn make_test_options() -> Vec<FilterOption> {
    vec![
        FilterOption { id: 0, display: "EngineECU".to_string(), raw_value: RawValue::U8(144) },
        FilterOption { id: 1, display: "DisplayUnit".to_string(), raw_value: RawValue::U8(254) },
        FilterOption { id: 2, display: "GPSModule".to_string(), raw_value: RawValue::U8(0) },
    ]
}

#[test]
fn test_state_new() {
    let options = make_test_options();
    let state = FilterEditorState::new(FieldType::SourceAddr, options);
    assert_eq!(state.field_type, FieldType::SourceAddr);
    assert_eq!(state.text_input, "");
    assert!(matches!(state.validation, TextValidation::Valid));
    assert!(state.selected_ids.is_empty());
    assert_eq!(state.options.len(), 3);
    assert_eq!(state.focus_index, -1);
}

#[test]
fn test_state_is_text_focused() {
    let options = make_test_options();
    let mut state = FilterEditorState::new(FieldType::SourceAddr, options);
    assert!(state.is_text_focused());
    state.focus_index = 0;
    assert!(!state.is_text_focused());
}

#[test]
fn test_state_is_list_focused() {
    let options = make_test_options();
    let mut state = FilterEditorState::new(FieldType::SourceAddr, options);
    assert!(!state.is_list_focused());
    state.focus_index = 0;
    assert!(state.is_list_focused());
}

#[test]
fn test_state_page_down_from_text() {
    let options = make_test_options();
    let mut state = FilterEditorState::new(FieldType::SourceAddr, options);
    // From text focus, page_down jumps to first item
    state.page_down(15);
    assert_eq!(state.focus_index, 0);
}

#[test]
fn test_state_move_up_from_text() {
    let options = make_test_options();
    let mut state = FilterEditorState::new(FieldType::SourceAddr, options);
    assert!(state.is_text_focused());
    state.move_up(15);
    // Goes to last item when moving up from text focus
    assert_eq!(state.focus_index, 2);
}

#[test]
fn test_state_move_down_from_text() {
    let options = make_test_options();
    let mut state = FilterEditorState::new(FieldType::SourceAddr, options);
    assert!(state.is_text_focused());
    state.move_down(15);
    // Goes to first item when moving down from text focus
    assert_eq!(state.focus_index, 0);
}

#[test]
fn test_state_toggle_focused() {
    let options = make_test_options();
    let mut state = FilterEditorState::new(FieldType::SourceAddr, options);
    state.focus_index = 0;
    assert!(!state.is_selected(0));
    state.toggle_focused();
    assert!(state.is_selected(0));

    state.toggle_focused();
    assert!(!state.is_selected(0));
}

#[test]
fn test_state_toggle_option_by_id() {
    let options = make_test_options();
    let mut state = FilterEditorState::new(FieldType::SourceAddr, options);
    state.toggle_option_by_id(1);
    assert!(state.is_selected(1));
    state.toggle_option_by_id(1);
    assert!(!state.is_selected(1));
}

#[test]
fn test_state_get_option_display() {
    let options = make_test_options();
    let state = FilterEditorState::new(FieldType::SourceAddr, options);
    assert_eq!(state.get_option_display(0), Some("EngineECU".to_string()));
    assert_eq!(state.get_option_display(99), None);
}

#[test]
fn test_state_has_more_below() {
    let options = make_test_options();
    let mut state = FilterEditorState::new(FieldType::SourceAddr, options);
    // 3 items, viewport 2 → has more below at position 0
    assert!(state.has_more_below(2));

    state.scroll_mgr.first_visible_message = 1;
    assert!(!state.has_more_below(2));
}

#[test]
fn test_state_can_scroll_up() {
    let options = make_test_options();
    let mut state = FilterEditorState::new(FieldType::SourceAddr, options);
    assert!(!state.can_scroll_up());
    state.scroll_mgr.first_visible_message = 1;
    assert!(state.can_scroll_up());
}

// ─── FilterEditor ──────────────────────────────────────────────────────

#[test]
fn test_editor_new() {
    let editor = FilterEditor::new(FieldType::SourceAddr);
    assert_eq!(editor.field_type, FieldType::SourceAddr);
}

#[test]
fn test_open_with_empty_filter() {
    let options = make_test_options();
    let editor = FilterEditor::new(FieldType::SourceAddr);
    let state = editor.open("", options);
    assert!(matches!(state.validation, TextValidation::Valid));
    assert!(state.selected_ids.is_empty());
}

#[test]
fn test_open_with_csv_filter() {
    let options = make_test_options();
    let editor = FilterEditor::new(FieldType::SourceAddr);
    // "144,254" should check IDs 0 and 1
    let state = editor.open("144,254", options);
    assert!(matches!(state.validation, TextValidation::Valid));
    assert_eq!(state.selected_ids.len(), 2);
    assert!(state.selected_ids.contains(&0)); // 144
    assert!(state.selected_ids.contains(&1)); // 254
}

#[test]
fn test_open_with_hex_filter() {
    let options = make_test_options();
    let editor = FilterEditor::new(FieldType::SourceAddr);
    // "0x90,0xfe" should check IDs 0 and 1 (same as 144,254)
    let state = editor.open("0x90,0xfe", options);
    assert!(matches!(state.validation, TextValidation::Valid));
    assert_eq!(state.selected_ids.len(), 2);
}

#[test]
fn test_update_from_text_valid() {
    let options = make_test_options();
    let mut state = FilterEditorState::new(FieldType::SourceAddr, options);
    state.text_input = "144,254".to_string();
    let editor = FilterEditor::new(FieldType::SourceAddr);
    let (validation, selected_ids) = editor.update_from_text(&state);
    assert!(matches!(validation, TextValidation::Valid));
    assert_eq!(selected_ids.len(), 2);
}

#[test]
fn test_update_from_text_invalid() {
    let options = make_test_options();
    let editor = FilterEditor::new(FieldType::SourceAddr);
    // "300" is out of range for u8
    let (validation, selected_ids) = editor.update_from_text_impl("300", &options);
    assert!(matches!(validation, TextValidation::Invalid(_)));
}

#[test]
fn test_update_from_text_mixed() {
    let options = make_test_options();
    let editor = FilterEditor::new(FieldType::SourceAddr);
    // "144,abc" — 144 is valid, abc is invalid
    let (validation, selected_ids) = editor.update_from_text_impl("144,abc", &options);
    assert!(matches!(validation, TextValidation::Invalid(_)));
    assert_eq!(selected_ids.len(), 1); // only 144 matched
}

#[test]
fn test_reconstruct_text_empty() {
    let options = make_test_options();
    let state = FilterEditorState::new(FieldType::SourceAddr, options);
    let editor = FilterEditor::new(FieldType::SourceAddr);
    assert_eq!(editor.reconstruct_text(&state), "");
}

#[test]
fn test_reconstruct_text_selected() {
    let options = make_test_options();
    // Manually set selected_ids
    let mut state = FilterEditorState::new(FieldType::SourceAddr, options.clone());
    state.selected_ids = vec![0, 2];

    let editor = FilterEditor::new(FieldType::SourceAddr);
    let text = editor.reconstruct_text(&state);
    assert_eq!(text, "144, 0"); // IDs 0 and 2 → values 144 and 0
}

#[test]
fn test_toggle_option_adds() {
    let options = make_test_options();
    let state = FilterEditorState::new(FieldType::SourceAddr, options);
    let editor = FilterEditor::new(FieldType::SourceAddr);
    let new_selected = editor.toggle_option(&state, 1);
    assert_eq!(new_selected.len(), 1);
    assert!(new_selected.contains(&1));
}

#[test]
fn test_toggle_option_removes() {
    let options = make_test_options();
    let mut state = FilterEditorState::new(FieldType::SourceAddr, options.clone());
    state.selected_ids = vec![0, 1];

    let editor = FilterEditor::new(FieldType::SourceAddr);
    let new_selected = editor.toggle_option(&state, 1);
    assert_eq!(new_selected.len(), 1);
    assert!(!new_selected.contains(&1));
}

#[test]
fn test_validate_value_u8_hex() {
    let editor = FilterEditor::new(FieldType::SourceAddr);
    let result = editor.validate_value("0x90");
    assert!(result.is_ok());
    if let Ok(RawValue::U8(v)) = result {
        assert_eq!(v, 144);
    } else {
        panic!("Expected U8");
    }
}

#[test]
fn test_validate_value_u8_decimal() {
    let editor = FilterEditor::new(FieldType::SourceAddr);
    let result = editor.validate_value("255");
    assert!(result.is_ok());
    if let Ok(RawValue::U8(v)) = result {
        assert_eq!(v, 255);
    } else {
        panic!("Expected U8");
    }
}

#[test]
fn test_validate_value_u8_invalid() {
    let editor = FilterEditor::new(FieldType::SourceAddr);
    assert!(editor.validate_value("300").is_err());
    assert!(editor.validate_value("abc").is_err());
}

#[test]
fn test_validate_value_name_hex() {
    let editor = FilterEditor::new(FieldType::SrcName);
    let result = editor.validate_value("0x80000000000F2EEC");
    assert!(result.is_ok());
    if let Ok(RawValue::U64(v)) = result {
        assert_eq!(v, 0x80000000000F2EEC);
    } else {
        panic!("Expected U64");
    }
}

#[test]
fn test_validate_value_title() {
    let editor = FilterEditor::new(FieldType::Title);
    let result = editor.validate_value("Engine Speed");
    assert!(result.is_ok());
    if let Ok(RawValue::Title(s)) = result {
        assert_eq!(s.as_str(), "Engine Speed");
    } else {
        panic!("Expected Title");
    }
}

#[test]
fn test_can_accept_valid() {
    let options = make_test_options();
    let mut state = FilterEditorState::new(FieldType::SourceAddr, options.clone());
    state.selected_ids = vec![0];
    state.validation = TextValidation::Valid;

    let editor = FilterEditor::new(FieldType::SourceAddr);
    assert!(editor.can_accept(&state));
}

#[test]
fn test_can_accept_invalid() {
    let options = make_test_options();
    let mut state = FilterEditorState::new(FieldType::SourceAddr, options.clone());
    state.selected_ids = vec![0];
    state.validation = TextValidation::Invalid("bad value".to_string());

    let editor = FilterEditor::new(FieldType::SourceAddr);
    assert!(!editor.can_accept(&state));
}

#[test]
fn test_can_accept_empty() {
    let options = make_test_options();
    let state = FilterEditorState::new(FieldType::SourceAddr, options);

    let editor = FilterEditor::new(FieldType::SourceAddr);
    assert!(!editor.can_accept(&state));
}

#[test]
fn test_get_output_csv() {
    let options = make_test_options();
    let mut state = FilterEditorState::new(FieldType::SourceAddr, options.clone());
    state.selected_ids = vec![0, 1];
    state.validation = TextValidation::Valid;

    let editor = FilterEditor::new(FieldType::SourceAddr);
    let csv = editor.get_output_csv(&state);
    assert_eq!(csv, Some("144, 254".to_string()));
}

#[test]
fn test_get_output_csv_invalid() {
    let options = make_test_options();
    let mut state = FilterEditorState::new(FieldType::SourceAddr, options.clone());
    state.selected_ids = vec![0];
    state.validation = TextValidation::Invalid("bad".to_string());

    let editor = FilterEditor::new(FieldType::SourceAddr);
    assert!(editor.get_output_csv(&state).is_none());
}

#[test]
fn test_get_output_csv_empty() {
    let options = make_test_options();
    let state = FilterEditorState::new(FieldType::SourceAddr, options);

    let editor = FilterEditor::new(FieldType::SourceAddr);
    assert!(editor.get_output_csv(&state).is_none());
}

// ─── Numeric Parsing Helpers ───────────────────────────────────────────

#[test]
fn filter_editor_test_parse_hex_or_dec_u8_decimal() {
    assert_eq!(parse_hex_or_dec_u8("144").unwrap(), 144);
    assert_eq!(parse_hex_or_dec_u8("255").unwrap(), 255);
}

#[test]
fn filter_editor_test_parse_hex_or_dec_u8_hex() {
    assert_eq!(parse_hex_or_dec_u8("0x90").unwrap(), 144);
    assert_eq!(parse_hex_or_dec_u8("0xfe").unwrap(), 254);
    assert_eq!(parse_hex_or_dec_u8("0XFF").unwrap(), 255);
}

#[test]
fn filter_editor_test_parse_hex_or_dec_u8_invalid() {
    assert!(parse_hex_or_dec_u8("300").is_err());
    assert!(parse_hex_or_dec_u8("abc").is_err());
}

#[test]
fn test_parse_hex_or_dec_u32_decimal() {
    assert_eq!(parse_hex_or_dec_u32("51968").unwrap(), 51968);
}

#[test]
fn test_parse_hex_or_dec_u32_hex() {
    assert_eq!(parse_hex_or_dec_u32("0xCAF00").unwrap(), 0xCAF00);
}

#[test]
fn test_parse_hex_or_dec_u64_decimal() {
    assert_eq!(parse_hex_or_dec_u64("144").unwrap(), 144);
}

#[test]
fn test_parse_hex_or_dec_u64_hex() {
    assert_eq!(parse_hex_or_dec_u64("0x80000000000F2EEC").unwrap(), 0x80000000000F2EEC);
}

// ─── Integration: open → update_from_text → reconstruct_text cycle ─────

#[test]
fn test_full_cycle_open_update_reconstruct() {
    let options = make_test_options();
    let editor = FilterEditor::new(FieldType::SourceAddr);

    // Open with existing filter "144,254"
    let state = editor.open("144,254", options.clone());
    assert!(matches!(state.validation, TextValidation::Valid));
    assert_eq!(state.selected_ids.len(), 2);

    // Update from text (should be same result)
    let (validation, selected_ids) = editor.update_from_text(&state);
    assert!(matches!(validation, TextValidation::Valid));
    assert_eq!(selected_ids.len(), 2);

    // Reconstruct text from selection
    let text = editor.reconstruct_text(&state);
    assert!(!text.is_empty());
}

#[test]
fn test_full_cycle_with_hex_input() {
    let options = make_test_options();
    let editor = FilterEditor::new(FieldType::SourceAddr);

    // Open with hex values "0x90,0xfe" (same as 144,254)
    let state = editor.open("0x90,0xfe", options.clone());
    assert!(matches!(state.validation, TextValidation::Valid));
    assert_eq!(state.selected_ids.len(), 2);

    // Reconstruct should produce decimal representation
    let text = editor.reconstruct_text(&state);
    assert!(!text.is_empty());
}

#[test]
fn test_full_cycle_invalid_then_valid() {
    let options = make_test_options();
    let editor = FilterEditor::new(FieldType::SourceAddr);

    // Start with invalid input
    let (validation, _) = editor.update_from_text_impl("300", &options);
    assert!(matches!(validation, TextValidation::Invalid(_)));

    // Then valid input
    let (validation, selected_ids) = editor.update_from_text_impl("144", &options);
    assert!(matches!(validation, TextValidation::Valid));
    assert_eq!(selected_ids.len(), 1);
}

#[test]
fn test_state_navigation_with_viewport() {
    // Create a larger options list for navigation testing
    let mut options = Vec::new();
    for i in 0..20u8 {
        options.push(FilterOption {
            id: i as u32,
            display: format!("Addr{}", i),
            raw_value: RawValue::U8(i),
        });
    }

    let mut state = FilterEditorState::new(FieldType::SourceAddr, options);
    // Viewport of 5 items
    assert_eq!(state.visible_count(5), 5);

    // From text focus, move_down jumps to first item
    state.move_down(5);
    assert_eq!(state.focus_index, 0);

    // Move down a few times via scroll_mgr
    for _ in 0..3 {
        state.scroll_mgr.scroll_down();
        state.focus_index = state.scroll_mgr.selected_index as i32;
    }
    assert_eq!(state.focus_index, 3);

    // Toggle focused item
    state.toggle_focused();
    assert!(state.is_selected(3));
}

#[test]
fn char_to_byte_counts_bytes_and_rejects_out_of_bounds() {
    let mut s = FilterEditorState::new(FieldType::Title, vec![]);
    s.text_input = "héllo".to_string();
    assert_eq!(s.char_to_byte(0), 0);
    assert_eq!(s.char_to_byte(2), 3);
    assert_eq!(s.char_to_byte(4), 5);
    assert_eq!(s.char_to_byte(5), 6);
    assert_eq!(s.char_to_byte(9), 0);
}

#[test]
fn test_reconstruct_then_open_titles() {
    let options = vec![
        FilterOption {
            id: 0,
            display: "Engine Speed".to_string(),
            raw_value: RawValue::Title("Engine Speed".to_string()),
        },
        FilterOption {
            id: 1,
            display: "Vehicle Position".to_string(),
            raw_value: RawValue::Title("Vehicle Position".to_string()),
        },
        FilterOption {
            id: 2,
            display: "Address Claimed".to_string(),
            raw_value: RawValue::Title("Address Claimed".to_string()),
        },
    ];
    let editor = FilterEditor::new(FieldType::Title);
    let mut state = FilterEditorState::new(FieldType::Title, options.clone());
    state.selected_ids = vec![2, 0];
    let text = editor.reconstruct_text(&state);
    assert_eq!(text, "Address Claimed, Engine Speed");
    let reopened = editor.open(&text, options);
    assert!(matches!(reopened.validation, TextValidation::Valid));
    assert_eq!(reopened.selected_ids, vec![2, 0]);
}
