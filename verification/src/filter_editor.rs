//! GUI-independent filter editor logic: the state of the modal editor for one filter field
//! (text input, validation, checked options, list navigation) and the transitions between
//! text and selection.
use vstd::prelude::*;
use crate::numparse::{trim, trim_chars, dec_or_prefixed_hex, parse_dec_or_prefixed_hex};
use crate::scroll_manager::{
    MessageScrollManager,
    spec_clamp,
    spec_ensure_visible,
    clamp_fits,
    spec_move,
    move_ok,
};
use crate::text::{
    split_commas,
    join_sep,
    utf8_total,
    char_utf8_len,
    lemma_utf8_total_mono,
    str_chars,
    string_from_chars,
    push_str,
    push_char,
    push_dec,
    push_hex_padded,
    dec_str,
    hex_str,
    pad_left,
};

verus! {

// ─── Field Types ─────────────────────────────────────────────────────────────

/// The type of filter field being edited.
#[derive(Debug, Clone, Copy, PartialEq, Eq, Structural)]
pub enum FieldType {
    /// Source addresses (0-255).
    SourceAddr,
    /// Destination addresses (0-255).
    DestAddr,
    /// Source NAME values (u64).
    SrcName,
    /// Destination NAME values (u64).
    DstName,
    /// PGN values (u32).
    Pgn,
    /// Message titles.
    Title,
}

/// The raw parsed value stored in a `FilterOption`.
#[derive(Debug, Clone, PartialEq)]
pub enum RawValue {
    U8(u8),
    U64(u64),
    U32(u32),
    Title(String),
}

/// `'t'`: the text between single quotes.
pub open spec fn quoted(t: Seq<char>) -> Seq<char> {
    seq!['\''] + t + seq!['\'']
}

/// Sixteen uppercase hexadecimal digits.
pub open spec fn hex16(v: u64) -> Seq<char> {
    pad_left(hex_str(v as nat, true), 16, '0')
}

/// `0x` and at least five uppercase hexadecimal digits.
pub open spec fn pgn_hex(v: u32) -> Seq<char> {
    seq!['0', 'x'] + pad_left(hex_str(v as nat, true), 5, '0')
}

/// Display text of a value without field-type-specific formatting.
pub open spec fn display_seq(v: RawValue) -> Seq<char> {
    match v {
        RawValue::U8(x) => dec_str(x as nat),
        RawValue::U64(x) => hex16(x),
        RawValue::U32(x) => pgn_hex(x),
        RawValue::Title(s) => s@,
    }
}

/// Display text used in lists and in reconstructed filter text (NAMEs with `0x`).
pub open spec fn raw_display_seq(v: RawValue) -> Seq<char> {
    match v {
        RawValue::U64(x) => seq!['0', 'x'] + hex16(x),
        _ => display_seq(v),
    }
}

/// Whether the (untrimmed) text parses as a value of the field type.
pub open spec fn value_parse_ok(ft: FieldType, s: Seq<char>) -> bool {
    match ft {
        FieldType::SourceAddr | FieldType::DestAddr => dec_or_prefixed_hex(trim(s), 0xFF) is Some,
        FieldType::SrcName | FieldType::DstName => dec_or_prefixed_hex(
            trim(s),
            0xFFFF_FFFF_FFFF_FFFF,
        ) is Some,
        FieldType::Pgn => dec_or_prefixed_hex(trim(s), 0xFFFF_FFFF) is Some,
        FieldType::Title => true,
    }
}

/// Whether `v` is the value that the text parses to for the field type.
pub open spec fn value_of_text(ft: FieldType, s: Seq<char>, v: RawValue) -> bool {
    match ft {
        FieldType::SourceAddr | FieldType::DestAddr => v == RawValue::U8(
            dec_or_prefixed_hex(trim(s), 0xFF)->0 as u8,
        ),
        FieldType::SrcName | FieldType::DstName => v == RawValue::U64(
            dec_or_prefixed_hex(trim(s), 0xFFFF_FFFF_FFFF_FFFF)->0 as u64,
        ),
        FieldType::Pgn => v == RawValue::U32(dec_or_prefixed_hex(trim(s), 0xFFFF_FFFF)->0 as u32),
        FieldType::Title => v is Title && v->Title_0@ == s,
    }
}

/// The error message for text that does not parse as a value of the field type.
pub open spec fn parse_error_text(ft: FieldType, s: Seq<char>) -> Seq<char> {
    match ft {
        FieldType::SourceAddr | FieldType::DestAddr => "invalid address: "@ + quoted(trim(s)),
        FieldType::SrcName | FieldType::DstName => "invalid NAME: "@ + quoted(trim(s)),
        FieldType::Pgn => "invalid PGN: "@ + quoted(trim(s)),
        FieldType::Title => Seq::empty(),
    }
}

/// Whether two values are of the same kind and equal.
pub open spec fn raw_values_match_spec(a: RawValue, b: RawValue) -> bool {
    match (a, b) {
        (RawValue::U8(x), RawValue::U8(y)) => x == y,
        (RawValue::U64(x), RawValue::U64(y)) => x == y,
        (RawValue::U32(x), RawValue::U32(y)) => x == y,
        (RawValue::Title(x), RawValue::Title(y)) => x@ == y@,
        _ => false,
    }
}

fn quote_chars(t: &[char]) -> (r: String)
    ensures
        r@ == quoted(t@),
{
    let mut r = String::new();
    push_char(&mut r, '\'');
    let body = string_from_chars(t);
    push_str(&mut r, body.as_str());
    push_char(&mut r, '\'');
    assert(r@ =~= quoted(t@));
    r
}

/// Parses trimmed text as a number up to `max`: decimal, else hexadecimal after `0x`/`0X`;
/// the error is the trimmed text between single quotes.
fn hex_or_dec_chars(s: &[char], max: u64) -> (r: Result<u64, String>)
    ensures
        match r {
            Ok(v) => dec_or_prefixed_hex(trim(s@), max as nat) == Some(v as nat),
            Err(e) => dec_or_prefixed_hex(trim(s@), max as nat) is None && e@ == quoted(trim(s@)),
        },
{
    let t = trim_chars(s);
    match parse_dec_or_prefixed_hex(&t, max) {
        Some(v) => Ok(v),
        None => Err(quote_chars(&t)),
    }
}

/// Parse a decimal or hex string into u8.
pub fn parse_hex_or_dec_u8(s: &str) -> (r: Result<u8, String>)
    ensures
        match r {
            Ok(v) => dec_or_prefixed_hex(trim(s@), 0xFF) == Some(v as nat),
            Err(e) => dec_or_prefixed_hex(trim(s@), 0xFF) is None && e@ == quoted(trim(s@)),
        },
{
    let cs = str_chars(s);
    match hex_or_dec_chars(&cs, 0xFF) {
        Ok(v) => Ok(v as u8),
        Err(e) => Err(e),
    }
}

/// Parse a decimal or hex string into u32.
pub fn parse_hex_or_dec_u32(s: &str) -> (r: Result<u32, String>)
    ensures
        match r {
            Ok(v) => dec_or_prefixed_hex(trim(s@), 0xFFFF_FFFF) == Some(v as nat),
            Err(e) => dec_or_prefixed_hex(trim(s@), 0xFFFF_FFFF) is None && e@ == quoted(
                trim(s@),
            ),
        },
{
    let cs = str_chars(s);
    match hex_or_dec_chars(&cs, 0xFFFF_FFFF) {
        Ok(v) => Ok(v as u32),
        Err(e) => Err(e),
    }
}

/// Parse a decimal or hex string into u64.
pub fn parse_hex_or_dec_u64(s: &str) -> (r: Result<u64, String>)
    ensures
        match r {
            Ok(v) => dec_or_prefixed_hex(trim(s@), 0xFFFF_FFFF_FFFF_FFFF) == Some(v as nat),
            Err(e) => dec_or_prefixed_hex(trim(s@), 0xFFFF_FFFF_FFFF_FFFF) is None && e@
                == quoted(trim(s@)),
        },
{
    let cs = str_chars(s);
    hex_or_dec_chars(&cs, 0xFFFF_FFFF_FFFF_FFFF)
}

fn prefixed_error(prefix: &str, e: String) -> (r: String)
    ensures
        r@ == prefix@ + e@,
{
    let mut r = String::new();
    push_str(&mut r, prefix);
    push_str(&mut r, e.as_str());
    r
}

/// Appends the display text of a value (`display_str`).
fn push_display(s: &mut String, v: &RawValue)
    ensures
        final(s)@ == old(s)@ + display_seq(*v),
{
    match v {
        RawValue::U8(x) => push_dec(s, *x as u64),
        RawValue::U64(x) => push_hex_padded(s, *x, 16, true),
        RawValue::U32(x) => {
            push_str(s, "0x");
            proof {
                reveal_strlit("0x");
            }
            push_hex_padded(s, *x as u64, 5, true);
            assert(final(s)@ =~= old(s)@ + display_seq(*v));
        },
        RawValue::Title(t) => push_str(s, t.as_str()),
    }
}

/// Appends the list display text of a value (`raw_display`).
fn push_raw_display(s: &mut String, v: &RawValue)
    ensures
        final(s)@ == old(s)@ + raw_display_seq(*v),
{
    match v {
        RawValue::U64(x) => {
            push_str(s, "0x");
            proof {
                reveal_strlit("0x");
            }
            push_hex_padded(s, *x, 16, true);
            assert(final(s)@ =~= old(s)@ + raw_display_seq(*v));
        },
        _ => push_display(s, v),
    }
}

/// Human-readable label of a field.
pub open spec fn label_text(ft: FieldType) -> Seq<char> {
    match ft {
        FieldType::SourceAddr => "Source Addr"@,
        FieldType::DestAddr => "Dest Addr"@,
        FieldType::SrcName => "Source NAME"@,
        FieldType::DstName => "Dest NAME"@,
        FieldType::Pgn => "PGN"@,
        FieldType::Title => "Title"@,
    }
}

impl FieldType {
    /// Human-readable label for display in the modal title.
    pub fn label(&self) -> (r: &'static str)
        ensures
            r@ == label_text(*self),
    {
        match self {
            FieldType::SourceAddr => "Source Addr",
            FieldType::DestAddr => "Dest Addr",
            FieldType::SrcName => "Source NAME",
            FieldType::DstName => "Dest NAME",
            FieldType::Pgn => "PGN",
            FieldType::Title => "Title",
        }
    }

    /// Parses characters into the value kind of this field type.
    fn parse_chars(&self, s: &[char]) -> (r: Result<RawValue, String>)
        ensures
            match r {
                Ok(v) => value_parse_ok(*self, s@) && value_of_text(*self, s@, v),
                Err(e) => !value_parse_ok(*self, s@) && e@ == parse_error_text(*self, s@),
            },
    {
        match self {
            FieldType::SourceAddr | FieldType::DestAddr => match hex_or_dec_chars(s, 0xFF) {
                Ok(v) => Ok(RawValue::U8(v as u8)),
                Err(e) => Err(prefixed_error("invalid address: ", e)),
            },
            FieldType::SrcName | FieldType::DstName => match hex_or_dec_chars(
                s,
                0xFFFF_FFFF_FFFF_FFFF,
            ) {
                Ok(v) => Ok(RawValue::U64(v)),
                Err(e) => Err(prefixed_error("invalid NAME: ", e)),
            },
            FieldType::Pgn => match hex_or_dec_chars(s, 0xFFFF_FFFF) {
                Ok(v) => Ok(RawValue::U32(v as u32)),
                Err(e) => Err(prefixed_error("invalid PGN: ", e)),
            },
            FieldType::Title => Ok(RawValue::Title(string_from_chars(s))),
        }
    }

    /// Parse a single value string into the appropriate `RawValue` variant.
    pub fn parse_value(&self, s: &str) -> (r: Result<RawValue, String>)
        ensures
            match r {
                Ok(v) => value_parse_ok(*self, s@) && value_of_text(*self, s@, v),
                Err(e) => !value_parse_ok(*self, s@) && e@ == parse_error_text(*self, s@),
            },
    {
        let cs = str_chars(s);
        self.parse_chars(&cs)
    }

    /// Format a value back into its display text.
    pub fn format_value(&self, value: &RawValue) -> (r: String)
        ensures
            r@ == display_seq(*value),
    {
        let mut r = String::new();
        push_display(&mut r, value);
        assert(r@ =~= display_seq(*value));
        r
    }

    /// The list display text of a value (NAMEs carry `0x`).
    pub fn raw_display(&self, value: &RawValue) -> (r: String)
        ensures
            r@ == raw_display_seq(*value),
    {
        let mut r = String::new();
        push_raw_display(&mut r, value);
        assert(r@ =~= raw_display_seq(*value));
        r
    }

    /// The list display text of an option's value.
    pub fn option_display(&self, opt: &FilterOption) -> (r: String)
        ensures
            r@ == raw_display_seq(opt.raw_value),
    {
        self.raw_display(&opt.raw_value)
    }
}

impl RawValue {
    /// Display text without field-type-specific formatting.
    pub fn display_str(&self) -> (r: String)
        ensures
            r@ == display_seq(*self),
    {
        let mut r = String::new();
        push_display(&mut r, self);
        assert(r@ =~= display_seq(*self));
        r
    }

    /// The u8 value of a `U8`.
    pub fn as_u8(&self) -> (r: Option<u8>)
        ensures
            r == match *self {
                RawValue::U8(v) => Some(v),
                _ => None,
            },
    {
        match self {
            RawValue::U8(v) => Some(*v),
            _ => None,
        }
    }

    /// The u64 value of a `U64`.
    pub fn as_u64(&self) -> (r: Option<u64>)
        ensures
            r == match *self {
                RawValue::U64(v) => Some(v),
                _ => None,
            },
    {
        match self {
            RawValue::U64(v) => Some(*v),
            _ => None,
        }
    }

    /// The u32 value of a `U32`.
    pub fn as_u32(&self) -> (r: Option<u32>)
        ensures
            r == match *self {
                RawValue::U32(v) => Some(v),
                _ => None,
            },
    {
        match self {
            RawValue::U32(v) => Some(*v),
            _ => None,
        }
    }

    /// The title of a `Title`.
    pub fn as_title(&self) -> (r: Option<&String>)
        ensures
            match *self {
                RawValue::Title(s) => r == Some(&s),
                _ => r is None,
            },
    {
        match self {
            RawValue::Title(s) => Some(s),
            _ => None,
        }
    }
}

/// A single option in the selection list.
#[derive(Debug, Clone)]
pub struct FilterOption {
    /// Stable unique ID for comparison across sorts and state changes.
    pub id: u32,
    /// Human-readable label shown in the list.
    pub display: String,
    /// The parsed value used for matching.
    pub raw_value: RawValue,
}

/// Validation state of the text field.
#[derive(Debug, Clone, PartialEq)]
pub enum TextValidation {
    Valid,
    Invalid(String),
}

// ─── Editor State ────────────────────────────────────────────────────────────

/// Complete state of the modal editor.
#[derive(Debug, Clone)]
pub struct FilterEditorState {
    /// Type of field being edited.
    pub field_type: FieldType,
    /// Current text in the edit field.
    pub text_input: String,
    /// Validation state of the text input.
    pub validation: TextValidation,
    /// IDs of currently selected options (checked checkboxes).
    pub selected_ids: Vec<u32>,
    /// All available options for this field type.
    pub options: Vec<FilterOption>,
    /// Scroll manager for the selection list.
    pub scroll_mgr: MessageScrollManager,
    /// -1 when the text field has focus, otherwise the focused list index.
    pub focus_index: i32,
    /// Cursor position within the text input.
    pub cursor_pos: usize,
    /// Whether an option was chosen by keyboard navigation rather than by editing text.
    pub list_interaction_active: bool,
}

/// The scroll state with a new viewport height.
pub open spec fn with_rows(m: MessageScrollManager, rows: usize) -> MessageScrollManager {
    MessageScrollManager { num_rows: rows, ..m }
}

/// The scroll state with a new selection.
pub open spec fn with_selection(m: MessageScrollManager, sel: usize) -> MessageScrollManager {
    MessageScrollManager { selected_index: sel, ..m }
}

/// The scroll state after the viewport height was set (and the selection brought into view
/// when the list has focus).
pub open spec fn viewport_after(
    m: MessageScrollManager,
    rows: usize,
    focused: bool,
) -> MessageScrollManager {
    if focused {
        spec_ensure_visible(spec_clamp(with_rows(m, rows)))
    } else {
        spec_clamp(with_rows(m, rows))
    }
}

/// Setting the viewport height is free of overflow.
pub open spec fn viewport_fits(m: MessageScrollManager, rows: usize, focused: bool) -> bool {
    &&& clamp_fits(with_rows(m, rows))
    &&& focused ==> clamp_fits(spec_clamp(with_rows(m, rows)))
}

/// Last list index, as the list index type.
pub open spec fn last_index(len: nat) -> usize {
    (if len >= 1 {
        len - 1
    } else {
        0
    }) as usize
}

/// `ids` with `id` removed if present, or appended if absent.
pub open spec fn toggled(ids: Seq<u32>, id: u32) -> Seq<u32> {
    if ids.contains(id) {
        ids.filter(not_id(id))
    } else {
        ids.push(id)
    }
}

/// The first option with the given id.
pub open spec fn option_with_id(opts: Seq<FilterOption>, id: u32) -> Option<FilterOption>
    decreases opts.len(),
{
    if opts.len() == 0 {
        None
    } else if opts[0].id == id {
        Some(opts[0])
    } else {
        option_with_id(opts.drop_first(), id)
    }
}

/// Finds the first option with the given id.
fn find_option_index(options: &Vec<FilterOption>, id: u32) -> (r: Option<usize>)
    ensures
        match r {
            Some(i) => i < options@.len() && option_with_id(options@, id) == Some(options@[i as int]),
            None => option_with_id(options@, id) is None,
        },
{
    let mut i: usize = 0;
    assert(options@.skip(0) =~= options@);
    while i < options.len()
        invariant
            i <= options@.len(),
            option_with_id(options@, id) == option_with_id(options@.skip(i as int), id),
        decreases options@.len() - i,
    {
        assert(options@.skip(i as int)[0] == options@[i as int]);
        if options[i].id == id {
            return Some(i);
        }
        assert(options@.skip(i as int).drop_first() =~= options@.skip(i + 1));
        i = i + 1;
    }
    None
}

impl FilterEditorState {
    /// Create a new state for the given field type and options.
    pub fn new(field_type: FieldType, options: Vec<FilterOption>) -> (r: Self)
        ensures
            r.field_type == field_type,
            r.text_input@ == Seq::<char>::empty(),
            r.validation is Valid,
            r.selected_ids@ == Seq::<u32>::empty(),
            r.options == options,
            r.scroll_mgr == spec_clamp(
                MessageScrollManager {
                    num_rows: 20,
                    num_messages: options.len(),
                    selected_index: 0,
                    first_visible_message: 0,
                    look_ahead_top: 3,
                    look_ahead_bottom: 3,
                },
            ),
            r.focus_index == -1,
            r.cursor_pos == 0,
            !r.list_interaction_active,
    {
        let mut scroll_mgr = MessageScrollManager::new();
        scroll_mgr.set_num_messages(options.len());
        FilterEditorState {
            field_type,
            text_input: String::new(),
            validation: TextValidation::Valid,
            selected_ids: Vec::new(),
            options,
            scroll_mgr,
            focus_index: -1,
            cursor_pos: 0,
            list_interaction_active: false,
        }
    }

    /// Re-sync the scroll manager with the current option count.
    pub fn sync_scroll_manager(&mut self)
        requires
            clamp_fits(
                MessageScrollManager { num_messages: old(self).options.len(), ..old(self).scroll_mgr },
            ),
        ensures
            *final(self) == (FilterEditorState {
                scroll_mgr: spec_clamp(
                    MessageScrollManager {
                        num_messages: old(self).options.len(),
                        ..old(self).scroll_mgr
                    },
                ),
                ..*old(self)
            }),
    {
        let n = self.options.len();
        self.scroll_mgr.set_num_messages(n);
    }

    /// Byte offset in the text input of the character position `char_idx`: the bytes of the
    /// characters before it (the whole length at the end of the text). An index beyond the
    /// end is out of bounds and gives zero, as do an empty text and index zero.
    pub fn char_to_byte(&self, char_idx: usize) -> (r: usize)
        requires
            utf8_total(self.text_input@) <= usize::MAX,
        ensures
            r == if char_idx <= self.text_input@.len() {
                utf8_total(self.text_input@.take(char_idx as int))
            } else {
                0
            },
    {
        let chars = str_chars(self.text_input.as_str());
        if chars.len() == 0 || char_idx == 0 || char_idx > chars.len() {
            assert(self.text_input@.take(0) =~= Seq::<char>::empty());
            return 0;
        }
        let end = char_idx;
        let mut byte_count: usize = 0;
        let mut i: usize = 0;
        while i < end
            invariant
                i <= end <= chars@.len(),
                chars@ == self.text_input@,
                utf8_total(self.text_input@) <= usize::MAX,
                byte_count == utf8_total(chars@.take(i as int)),
            decreases end - i,
        {
            proof {
                assert(chars@.take(i + 1).drop_last() =~= chars@.take(i as int));
                lemma_utf8_total_mono(chars@, i + 1, chars@.len() as int);
                assert(chars@.take(chars@.len() as int) =~= chars@);
            }
            byte_count = byte_count + char_utf8_len(chars[i]);
            i = i + 1;
        }
        byte_count
    }

    /// Whether the text field has focus.
    pub fn is_text_focused(&self) -> (r: bool)
        ensures
            r == (self.focus_index == -1),
    {
        self.focus_index == -1
    }

    /// Whether the selection list has focus.
    pub fn is_list_focused(&self) -> (r: bool)
        ensures
            r == (self.focus_index >= 0),
    {
        self.focus_index >= 0
    }

    /// Number of visible items in the list for a viewport height.
    pub fn visible_count(&self, viewport_height: usize) -> (r: usize)
        ensures
            r == if self.options.len() < viewport_height {
                self.options.len()
            } else {
                viewport_height
            },
    {
        if self.options.len() < viewport_height {
            self.options.len()
        } else {
            viewport_height
        }
    }

    /// Set the viewport height and, when the list has focus, keep the selection visible.
    pub fn update_viewport(&mut self, viewport_height: usize)
        requires
            viewport_fits(old(self).scroll_mgr, viewport_height, old(self).focus_index >= 0),
        ensures
            *final(self) == (FilterEditorState {
                scroll_mgr: viewport_after(
                    old(self).scroll_mgr,
                    viewport_height,
                    old(self).focus_index >= 0,
                ),
                ..*old(self)
            }),
    {
        self.scroll_mgr.set_num_rows(viewport_height);
        if self.is_list_focused() {
            self.scroll_mgr.ensure_selected_visible();
        }
    }

    /// Page down: from the text field, focus the first item; in the list, move by a page.
    pub fn page_down(&mut self, viewport_height: usize)
        requires
            old(self).focus_index < 0 && old(self).options.len() > 0 ==> clamp_fits(
                with_selection(old(self).scroll_mgr, 0),
            ),
            old(self).focus_index >= 0 ==> viewport_fits(
                old(self).scroll_mgr,
                viewport_height,
                true,
            ) && move_ok(
                viewport_after(old(self).scroll_mgr, viewport_height, true),
                viewport_height as isize,
            ),
        ensures
            old(self).focus_index < 0 ==> *final(self) == if old(self).options.len() > 0 {
                FilterEditorState {
                    focus_index: 0,
                    scroll_mgr: spec_ensure_visible(with_selection(old(self).scroll_mgr, 0)),
                    ..*old(self)
                }
            } else {
                *old(self)
            },
            old(self).focus_index >= 0 ==> *final(self) == (FilterEditorState {
                focus_index: spec_move(
                    viewport_after(old(self).scroll_mgr, viewport_height, true),
                    viewport_height as isize,
                ).selected_index as i32,
                scroll_mgr: spec_move(
                    viewport_after(old(self).scroll_mgr, viewport_height, true),
                    viewport_height as isize,
                ),
                ..*old(self)
            }),
    {
        if !self.is_list_focused() {
            if self.options.len() > 0 {
                self.focus_index = 0;
                self.scroll_mgr.selected_index = 0;
                self.scroll_mgr.ensure_selected_visible();
            }
            return;
        }
        self.update_viewport(viewport_height);
        self.scroll_mgr.page_down();
        self.focus_index = self.scroll_mgr.selected_index as i32;
    }

    /// Page up: from the text field, focus the last item; in the list, move back by a page.
    pub fn page_up(&mut self, viewport_height: usize)
        requires
            old(self).focus_index < 0 && old(self).options.len() > 0 ==> clamp_fits(
                with_selection(old(self).scroll_mgr, last_index(old(self).options.len() as nat)),
            ),
            old(self).focus_index >= 0 ==> viewport_fits(
                old(self).scroll_mgr,
                viewport_height,
                true,
            ) && (viewport_height as isize) > isize::MIN && move_ok(
                viewport_after(old(self).scroll_mgr, viewport_height, true),
                (-(viewport_height as isize)) as isize,
            ),
        ensures
            old(self).focus_index < 0 ==> *final(self) == if old(self).options.len() > 0 {
                FilterEditorState {
                    focus_index: last_index(old(self).options.len() as nat) as i32,
                    scroll_mgr: spec_ensure_visible(
                        with_selection(
                            old(self).scroll_mgr,
                            last_index(old(self).options.len() as nat),
                        ),
                    ),
                    ..*old(self)
                }
            } else {
                *old(self)
            },
            old(self).focus_index >= 0 ==> *final(self) == (FilterEditorState {
                focus_index: spec_move(
                    viewport_after(old(self).scroll_mgr, viewport_height, true),
                    (-(viewport_height as isize)) as isize,
                ).selected_index as i32,
                scroll_mgr: spec_move(
                    viewport_after(old(self).scroll_mgr, viewport_height, true),
                    (-(viewport_height as isize)) as isize,
                ),
                ..*old(self)
            }),
    {
        if !self.is_list_focused() {
            if self.options.len() > 0 {
                let max = self.options.len() - 1;
                self.focus_index = max as i32;
                self.scroll_mgr.selected_index = max;
                self.scroll_mgr.ensure_selected_visible();
            }
            return;
        }
        self.update_viewport(viewport_height);
        self.scroll_mgr.page_up();
        self.focus_index = self.scroll_mgr.selected_index as i32;
    }

    /// Move focus to the first item in the list.
    pub fn go_to_first(&mut self, viewport_height: usize)
        requires
            old(self).options.len() > 0 ==> viewport_fits(
                with_selection(old(self).scroll_mgr, 0),
                viewport_height,
                true,
            ),
        ensures
            *final(self) == if old(self).options.len() > 0 {
                FilterEditorState {
                    focus_index: 0,
                    scroll_mgr: viewport_after(
                        with_selection(old(self).scroll_mgr, 0),
                        viewport_height,
                        true,
                    ),
                    ..*old(self)
                }
            } else {
                *old(self)
            },
    {
        if self.options.len() > 0 {
            self.focus_index = 0;
            self.scroll_mgr.selected_index = 0;
            self.update_viewport(viewport_height);
        }
    }

    /// Move focus to the last item in the list.
    pub fn go_to_last(&mut self, viewport_height: usize)
        requires
            old(self).options.len() > 0 ==> viewport_fits(
                with_selection(old(self).scroll_mgr, last_index(old(self).options.len() as nat)),
                viewport_height,
                last_index(old(self).options.len() as nat) as i32 >= 0,
            ),
        ensures
            *final(self) == if old(self).options.len() > 0 {
                FilterEditorState {
                    focus_index: last_index(old(self).options.len() as nat) as i32,
                    scroll_mgr: viewport_after(
                        with_selection(
                            old(self).scroll_mgr,
                            last_index(old(self).options.len() as nat),
                        ),
                        viewport_height,
                        last_index(old(self).options.len() as nat) as i32 >= 0,
                    ),
                    ..*old(self)
                }
            } else {
                *old(self)
            },
    {
        if self.options.len() > 0 {
            let max = self.options.len() - 1;
            self.focus_index = max as i32;
            self.scroll_mgr.selected_index = max;
            self.update_viewport(viewport_height);
        }
    }

    /// Move focus up by one item (from the text field: to the last item).
    pub fn move_up(&mut self, viewport_height: usize)
        requires
            old(self).focus_index < 0 && old(self).options.len() > 0 ==> viewport_fits(
                with_selection(old(self).scroll_mgr, last_index(old(self).options.len() as nat)),
                viewport_height,
                last_index(old(self).options.len() as nat) as i32 >= 0,
            ),
            old(self).focus_index >= 0 ==> viewport_fits(
                old(self).scroll_mgr,
                viewport_height,
                true,
            ) && move_ok(viewport_after(old(self).scroll_mgr, viewport_height, true), -1isize),
        ensures
            old(self).focus_index < 0 ==> *final(self) == if old(self).options.len() > 0 {
                FilterEditorState {
                    focus_index: last_index(old(self).options.len() as nat) as i32,
                    scroll_mgr: viewport_after(
                        with_selection(
                            old(self).scroll_mgr,
                            last_index(old(self).options.len() as nat),
                        ),
                        viewport_height,
                        last_index(old(self).options.len() as nat) as i32 >= 0,
                    ),
                    ..*old(self)
                }
            } else {
                *old(self)
            },
            old(self).focus_index >= 0 ==> *final(self) == (FilterEditorState {
                focus_index: spec_move(
                    viewport_after(old(self).scroll_mgr, viewport_height, true),
                    -1isize,
                ).selected_index as i32,
                scroll_mgr: spec_move(
                    viewport_after(old(self).scroll_mgr, viewport_height, true),
                    -1isize,
                ),
                ..*old(self)
            }),
    {
        if !self.is_list_focused() {
            if self.options.len() > 0 {
                let max = self.options.len() - 1;
                self.focus_index = max as i32;
                self.scroll_mgr.selected_index = max;
                self.update_viewport(viewport_height);
            }
        } else {
            self.update_viewport(viewport_height);
            self.scroll_mgr.scroll_up();
            self.focus_index = self.scroll_mgr.selected_index as i32;
        }
    }

    /// Move focus down by one item (from the text field: to the first item).
    pub fn move_down(&mut self, viewport_height: usize)
        requires
            old(self).focus_index < 0 && old(self).options.len() > 0 ==> viewport_fits(
                with_selection(old(self).scroll_mgr, 0),
                viewport_height,
                true,
            ),
            old(self).focus_index >= 0 ==> viewport_fits(
                old(self).scroll_mgr,
                viewport_height,
                true,
            ) && move_ok(viewport_after(old(self).scroll_mgr, viewport_height, true), 1isize),
        ensures
            old(self).focus_index < 0 ==> *final(self) == if old(self).options.len() > 0 {
                FilterEditorState {
                    focus_index: 0,
                    scroll_mgr: viewport_after(
                        with_selection(old(self).scroll_mgr, 0),
                        viewport_height,
                        true,
                    ),
                    ..*old(self)
                }
            } else {
                *old(self)
            },
            old(self).focus_index >= 0 ==> *final(self) == (FilterEditorState {
                focus_index: spec_move(
                    viewport_after(old(self).scroll_mgr, viewport_height, true),
                    1isize,
                ).selected_index as i32,
                scroll_mgr: spec_move(
                    viewport_after(old(self).scroll_mgr, viewport_height, true),
                    1isize,
                ),
                ..*old(self)
            }),
    {
        if !self.is_list_focused() {
            if self.options.len() > 0 {
                self.focus_index = 0;
                self.scroll_mgr.selected_index = 0;
                self.update_viewport(viewport_height);
            }
        } else {
            self.update_viewport(viewport_height);
            self.scroll_mgr.scroll_down();
            self.focus_index = self.scroll_mgr.selected_index as i32;
        }
    }

    /// Toggle the checkbox of the focused option.
    pub fn toggle_focused(&mut self)
        ensures
            same_but_selection(*final(self), *old(self)),
            final(self).selected_ids@ == if old(self).focus_index >= 0
                && (old(self).focus_index as int) < old(self).options.len() {
                toggled(old(self).selected_ids@, old(self).options@[old(self).focus_index as int].id)
            } else {
                old(self).selected_ids@
            },
    {
        if !self.is_list_focused() || self.options.len() == 0 {
            return;
        }
        let idx = self.focus_index as usize;
        if idx >= self.options.len() {
            return;
        }
        let option_id = self.options[idx].id;
        toggle_id(&mut self.selected_ids, option_id);
    }

    /// Toggle an option by ID.
    pub fn toggle_option_by_id(&mut self, option_id: u32)
        ensures
            same_but_selection(*final(self), *old(self)),
            final(self).selected_ids@ == toggled(old(self).selected_ids@, option_id),
    {
        toggle_id(&mut self.selected_ids, option_id);
    }

    /// Whether an option ID is selected.
    pub fn is_selected(&self, option_id: u32) -> (r: bool)
        ensures
            r == self.selected_ids@.contains(option_id),
    {
        contains_id(&self.selected_ids, option_id)
    }

    /// The display text of the first option with the given ID.
    pub fn get_option_display(&self, option_id: u32) -> (r: Option<String>)
        ensures
            match option_with_id(self.options@, option_id) {
                Some(o) => r is Some && r->0@ == o.display@,
                None => r is None,
            },
    {
        match find_option_index(&self.options, option_id) {
            Some(i) => Some(self.options[i].display.clone()),
            None => None,
        }
    }

    /// Whether there are more items below the viewport.
    pub fn has_more_below(&self, viewport_height: usize) -> (r: bool)
        requires
            self.scroll_mgr.first_visible_message + viewport_height <= usize::MAX,
        ensures
            r == (self.scroll_mgr.first_visible_message + viewport_height < self.options.len()),
    {
        (self.scroll_mgr.first_visible_message + viewport_height) < self.options.len()
    }

    /// Whether the list is scrolled past its beginning.
    pub fn can_scroll_up(&self) -> (r: bool)
        ensures
            r == (self.scroll_mgr.first_visible_message > 0),
    {
        self.scroll_mgr.first_visible_message > 0
    }
}

/// Two states that agree on everything but the selected IDs.
pub open spec fn same_but_selection(a: FilterEditorState, b: FilterEditorState) -> bool {
    &&& a.field_type == b.field_type
    &&& a.text_input == b.text_input
    &&& a.validation == b.validation
    &&& a.options == b.options
    &&& a.scroll_mgr == b.scroll_mgr
    &&& a.focus_index == b.focus_index
    &&& a.cursor_pos == b.cursor_pos
    &&& a.list_interaction_active == b.list_interaction_active
}

/// Keeps every element other than `id`.
pub open spec fn not_id(id: u32) -> spec_fn(u32) -> bool {
    |x: u32| x != id
}

fn contains_id(ids: &Vec<u32>, id: u32) -> (r: bool)
    ensures
        r == ids@.contains(id),
{
    let mut i: usize = 0;
    while i < ids.len()
        invariant
            i <= ids@.len(),
            forall|k: int| 0 <= k < i ==> ids@[k] != id,
        decreases ids@.len() - i,
    {
        if ids[i] == id {
            assert(ids@[i as int] == id);
            return true;
        }
        i = i + 1;
    }
    false
}

/// Removes `id` if present, else appends it.
fn toggle_id(ids: &mut Vec<u32>, id: u32)
    ensures
        final(ids)@ == toggled(old(ids)@, id),
{
    if contains_id(ids, id) {
        let mut kept: Vec<u32> = Vec::new();
        let mut i: usize = 0;
        while i < ids.len()
            invariant
                i <= ids@.len(),
                kept@ == ids@.take(i as int).filter(not_id(id)),
            decreases ids@.len() - i,
        {
            proof {
                reveal(Seq::filter);
                assert(ids@.take(i + 1).drop_last() =~= ids@.take(i as int));
            }
            if ids[i] != id {
                kept.push(ids[i]);
            }
            i = i + 1;
        }
        assert(ids@.take(ids@.len() as int) =~= ids@);
        *ids = kept;
    } else {
        ids.push(id);
    }
}

// ─── Text ↔ selection ────────────────────────────────────────────────────────

/// The ID of the first option whose value satisfies `p`.
pub open spec fn first_match(opts: Seq<FilterOption>, p: spec_fn(RawValue) -> bool) -> Option<
    u32,
>
    decreases opts.len(),
{
    if opts.len() == 0 {
        None
    } else if p(opts[0].raw_value) {
        Some(opts[0].id)
    } else {
        first_match(opts.drop_first(), p)
    }
}

/// Values equal to the value that `t` parses to for the field type.
pub open spec fn text_pred(ft: FieldType, t: Seq<char>) -> spec_fn(RawValue) -> bool {
    |v: RawValue| value_of_text(ft, t, v)
}

/// Values of the same kind and equal to `b`.
pub open spec fn match_pred(b: RawValue) -> spec_fn(RawValue) -> bool {
    |v: RawValue| raw_values_match_spec(v, b)
}

/// Progress of reading filter text: IDs found so far, whether an error was seen, and the
/// first error message.
pub type ScanState = (Seq<u32>, bool, Seq<char>);

/// One comma-separated piece of filter text applied to the scan.
pub open spec fn scan_step(
    ft: FieldType,
    opts: Seq<FilterOption>,
    st: ScanState,
    seg: Seq<char>,
) -> ScanState {
    let t = trim(seg);
    if t.len() == 0 {
        st
    } else if value_parse_ok(ft, t) {
        match first_match(opts, text_pred(ft, t)) {
            Some(id) => (st.0.push(id), st.1, st.2),
            None => (
                st.0,
                true,
                if st.2.len() == 0 {
                    "unknown value: "@ + t
                } else {
                    st.2
                },
            ),
        }
    } else {
        (
            st.0,
            true,
            if st.2.len() == 0 {
                parse_error_text(ft, t)
            } else {
                st.2
            },
        )
    }
}

/// All pieces applied to the scan, in order.
pub open spec fn scan_segments(
    ft: FieldType,
    opts: Seq<FilterOption>,
    segs: Seq<Seq<char>>,
) -> ScanState
    decreases segs.len(),
{
    if segs.len() == 0 {
        (Seq::<u32>::empty(), false, Seq::<char>::empty())
    } else {
        scan_step(ft, opts, scan_segments(ft, opts, segs.drop_last()), segs.last())
    }
}

/// `s` with repeated elements removed, first occurrences kept in order.
pub open spec fn dedup(s: Seq<u32>) -> Seq<u32>
    decreases s.len(),
{
    if s.len() == 0 {
        s
    } else if s.drop_last().contains(s.last()) {
        dedup(s.drop_last())
    } else {
        dedup(s.drop_last()).push(s.last())
    }
}

/// What filter text gives: whether it is valid, the error message, and the checked IDs.
pub open spec fn text_sync(ft: FieldType, text: Seq<char>, opts: Seq<FilterOption>) -> (
    bool,
    Seq<char>,
    Seq<u32>,
) {
    if text.len() == 0 {
        (true, Seq::empty(), Seq::empty())
    } else {
        let st = scan_segments(ft, opts, split_commas(text));
        (!st.1, st.2, dedup(st.0))
    }
}

/// `v` is `Valid` when `ok`, else `Invalid` with the message.
pub open spec fn validation_is(v: TextValidation, ok: bool, msg: Seq<char>) -> bool {
    if ok {
        v is Valid
    } else {
        v is Invalid && v->Invalid_0@ == msg
    }
}

/// The list display texts of the selected options that exist, in selection order.
pub open spec fn selected_parts(ids: Seq<u32>, opts: Seq<FilterOption>) -> Seq<Seq<char>>
    decreases ids.len(),
{
    if ids.len() == 0 {
        Seq::empty()
    } else {
        let p = selected_parts(ids.drop_last(), opts);
        match option_with_id(opts, ids.last()) {
            Some(o) => p.push(raw_display_seq(o.raw_value)),
            None => p,
        }
    }
}

proof fn lemma_push_contains(p: Seq<u32>, y: u32, x: u32)
    ensures
        p.push(y).contains(x) == (p.contains(x) || x == y),
{
    if p.contains(x) {
        let k = choose|k: int| 0 <= k < p.len() && p[k] == x;
        assert(p.push(y)[k] == x);
    }
    if x == y {
        assert(p.push(y)[p.len() as int] == x);
    }
    if p.push(y).contains(x) {
        let k = choose|k: int| 0 <= k < p.push(y).len() && p.push(y)[k] == x;
        if k < p.len() {
            assert(p[k] == x);
        }
    }
}

proof fn lemma_dedup_contains(s: Seq<u32>, x: u32)
    ensures
        dedup(s).contains(x) == s.contains(x),
    decreases s.len(),
{
    if s.len() > 0 {
        lemma_dedup_contains(s.drop_last(), x);
        assert(s =~= s.drop_last().push(s.last()));
        if s.drop_last().contains(s.last()) {
            if x == s.last() {
                assert(s.contains(x));
            } else {
                assert(s.contains(x) == s.drop_last().contains(x));
            }
        } else {
            lemma_push_contains(dedup(s.drop_last()), s.last(), x);
            lemma_push_contains(s.drop_last(), s.last(), x);
        }
    }
}

fn dedup_ids(ids: &Vec<u32>) -> (r: Vec<u32>)
    ensures
        r@ == dedup(ids@),
{
    let mut out: Vec<u32> = Vec::new();
    let mut i: usize = 0;
    while i < ids.len()
        invariant
            i <= ids@.len(),
            out@ == dedup(ids@.take(i as int)),
        decreases ids@.len() - i,
    {
        proof {
            assert(ids@.take(i + 1).drop_last() =~= ids@.take(i as int));
            assert(ids@.take(i + 1).last() == ids@[i as int]);
            lemma_dedup_contains(ids@.take(i as int), ids@[i as int]);
        }
        if !contains_id(&out, ids[i]) {
            out.push(ids[i]);
        }
        i = i + 1;
    }
    assert(ids@.take(ids@.len() as int) =~= ids@);
    out
}

fn concat_str(a: &str, b: &[char]) -> (r: String)
    ensures
        r@ == a@ + b@,
{
    let mut r = String::new();
    push_str(&mut r, a);
    let t = string_from_chars(b);
    push_str(&mut r, t.as_str());
    r
}

/// GUI-independent filter editor that manages state transitions.
#[derive(Debug, Clone, Copy)]
pub struct FilterEditor {
    /// Type of field being edited.
    pub field_type: FieldType,
}

impl FilterEditor {
    /// Create a new editor for the given field type.
    pub fn new(field_type: FieldType) -> (r: Self)
        ensures
            r.field_type == field_type,
    {
        FilterEditor { field_type }
    }

    /// Initialize state from an existing filter text (e.g. "144,255"), pre-checking the
    /// options it names.
    pub fn open(&self, current_filter_text: &str, options: Vec<FilterOption>) -> (r:
        FilterEditorState)
        ensures
            r.field_type == self.field_type,
            r.options == options,
            r.scroll_mgr == spec_clamp(
                MessageScrollManager {
                    num_rows: 20,
                    num_messages: options.len(),
                    selected_index: 0,
                    first_visible_message: 0,
                    look_ahead_top: 3,
                    look_ahead_bottom: 3,
                },
            ),
            r.focus_index == -1,
            !r.list_interaction_active,
            r.text_input@ == current_filter_text@,
            r.cursor_pos == if current_filter_text@.len() == 0 {
                0
            } else {
                current_filter_text.len()
            },
            validation_is(
                r.validation,
                text_sync(self.field_type, current_filter_text@, options@).0,
                text_sync(self.field_type, current_filter_text@, options@).1,
            ),
            r.selected_ids@ == text_sync(self.field_type, current_filter_text@, options@).2,
    {
        let mut state = FilterEditorState::new(self.field_type, options);
        if !current_filter_text.is_empty() {
            let (validation, selected_ids) = self.update_from_text_impl(
                current_filter_text,
                state.options.as_slice(),
            );
            state.validation = validation;
            state.selected_ids = selected_ids;
            state.text_input = String::from_str(current_filter_text);
            state.cursor_pos = current_filter_text.len();
        }
        state
    }

    /// Validation and checked IDs for the state's text.
    pub fn update_from_text(&self, state: &FilterEditorState) -> (r: (TextValidation, Vec<u32>))
        ensures
            validation_is(
                r.0,
                text_sync(self.field_type, state.text_input@, state.options@).0,
                text_sync(self.field_type, state.text_input@, state.options@).1,
            ),
            r.1@ == text_sync(self.field_type, state.text_input@, state.options@).2,
    {
        self.update_from_text_impl(state.text_input.as_str(), state.options.as_slice())
    }

    /// Reads comma-separated filter text: each non-empty trimmed piece must parse and name an
    /// option; the options named are checked (each once), the first problem is reported.
    pub fn update_from_text_impl(&self, text_input: &str, options: &[FilterOption]) -> (r: (
        TextValidation,
        Vec<u32>,
    ))
        ensures
            validation_is(
                r.0,
                text_sync(self.field_type, text_input@, options@).0,
                text_sync(self.field_type, text_input@, options@).1,
            ),
            r.1@ == text_sync(self.field_type, text_input@, options@).2,
    {
        let chars = str_chars(text_input);
        if chars.len() == 0 {
            return (TextValidation::Valid, Vec::new());
        }
        let mut ids: Vec<u32> = Vec::new();
        let mut has_error = false;
        let mut msg = String::new();
        let mut cur: Vec<char> = Vec::new();
        let ghost mut done: Seq<Seq<char>> = Seq::empty();
        let mut i: usize = 0;
        assert(chars@.take(0) =~= Seq::<char>::empty());
        assert(done.push(cur@) =~= seq![Seq::<char>::empty()]);
        while i < chars.len()
            invariant
                i <= chars@.len(),
                chars@ == text_input@,
                split_commas(chars@.take(i as int)) == done.push(cur@),
                (ids@, has_error, msg@) == scan_segments(self.field_type, options@, done),
            decreases chars@.len() - i,
        {
            let c = chars[i];
            proof {
                assert(chars@.take(i + 1).drop_last() =~= chars@.take(i as int));
                assert(chars@.take(i + 1).last() == c);
            }
            if c == ',' {
                self.scan_segment(&cur, options, &mut ids, &mut has_error, &mut msg);
                proof {
                    assert(done.push(cur@).drop_last() =~= done);
                    done = done.push(cur@);
                }
                cur = Vec::new();
            } else {
                proof {
                    let p = done.push(cur@);
                    assert(p.update(p.len() - 1, p.last().push(c)) =~= done.push(cur@.push(c)));
                }
                cur.push(c);
            }
            i = i + 1;
        }
        self.scan_segment(&cur, options, &mut ids, &mut has_error, &mut msg);
        proof {
            assert(chars@.take(chars@.len() as int) =~= chars@);
            assert(done.push(cur@).drop_last() =~= done);
        }
        let selected = dedup_ids(&ids);
        if has_error {
            (TextValidation::Invalid(msg), selected)
        } else {
            (TextValidation::Valid, selected)
        }
    }

    /// Applies one comma-separated piece of filter text to the scan.
    fn scan_segment(
        &self,
        seg: &Vec<char>,
        options: &[FilterOption],
        ids: &mut Vec<u32>,
        has_error: &mut bool,
        msg: &mut String,
    )
        ensures
            (final(ids)@, *final(has_error), final(msg)@) == scan_step(
                self.field_type,
                options@,
                (old(ids)@, *old(has_error), old(msg)@),
                seg@,
            ),
    {
        let t = trim_chars(seg);
        if t.len() == 0 {
            return;
        }
        match self.field_type.parse_chars(&t) {
            Ok(raw_value) => {
                let found = self.find_option_by_raw_value(options, &raw_value);
                proof {
                    assert(match_pred(raw_value) =~= text_pred(self.field_type, t@));
                }
                match found {
                    Some(opt_id) => {
                        ids.push(opt_id);
                    },
                    None => {
                        *has_error = true;
                        if msg.as_str().is_empty() {
                            *msg = concat_str("unknown value: ", &t);
                        }
                    },
                }
            },
            Err(e) => {
                *has_error = true;
                if msg.as_str().is_empty() {
                    *msg = e;
                }
            },
        }
    }

    /// Rebuild comma-separated text from the selected option IDs.
    pub fn reconstruct_text(&self, state: &FilterEditorState) -> (r: String)
        ensures
            r@ == join_sep(selected_parts(state.selected_ids@, state.options@), ", "@),
    {
        let (text, _) = join_selected(&state.selected_ids, &state.options);
        text
    }

    /// The selected IDs with `option_id` toggled.
    pub fn toggle_option(&self, state: &FilterEditorState, option_id: u32) -> (r: Vec<u32>)
        ensures
            r@ == toggled(state.selected_ids@, option_id),
    {
        let mut new_selected = copy_ids(&state.selected_ids);
        toggle_id(&mut new_selected, option_id);
        new_selected
    }

    /// Validate a single value string against the field type.
    pub fn validate_value(&self, value_str: &str) -> (r: Result<RawValue, String>)
        ensures
            match r {
                Ok(v) => value_parse_ok(self.field_type, trim(value_str@)) && value_of_text(
                    self.field_type,
                    trim(value_str@),
                    v,
                ),
                Err(e) => !value_parse_ok(self.field_type, trim(value_str@)) && e@
                    == parse_error_text(self.field_type, trim(value_str@)),
            },
    {
        let cs = str_chars(value_str);
        let t = trim_chars(&cs);
        self.field_type.parse_chars(&t)
    }

    /// The final comma-separated text to apply, when the state can be accepted and names at
    /// least one existing option.
    pub fn get_output_csv(&self, state: &FilterEditorState) -> (r: Option<String>)
        ensures
            match r {
                Some(text) => state.validation is Valid && state.selected_ids@.len() > 0
                    && selected_parts(state.selected_ids@, state.options@).len() > 0 && text@
                    == join_sep(selected_parts(state.selected_ids@, state.options@), ", "@),
                None => !(state.validation is Valid && state.selected_ids@.len() > 0)
                    || selected_parts(state.selected_ids@, state.options@).len() == 0,
            },
    {
        if !self.can_accept(state) {
            return None;
        }
        let (text, count) = join_selected(&state.selected_ids, &state.options);
        if count == 0 {
            None
        } else {
            Some(text)
        }
    }

    /// Whether the state is valid and has a selection.
    pub fn can_accept(&self, state: &FilterEditorState) -> (r: bool)
        ensures
            r == (state.validation is Valid && state.selected_ids@.len() > 0),
    {
        matches!(state.validation, TextValidation::Valid) && state.selected_ids.len() > 0
    }

    /// The ID of the first option whose value matches.
    fn find_option_by_raw_value(&self, options: &[FilterOption], raw_value: &RawValue) -> (r:
        Option<u32>)
        ensures
            r == first_match(options@, match_pred(*raw_value)),
    {
        let mut i: usize = 0;
        assert(options@.skip(0) =~= options@);
        while i < options.len()
            invariant
                i <= options@.len(),
                first_match(options@, match_pred(*raw_value)) == first_match(
                    options@.skip(i as int),
                    match_pred(*raw_value),
                ),
            decreases options@.len() - i,
        {
            assert(options@.skip(i as int)[0] == options@[i as int]);
            if Self::raw_values_match(&options[i].raw_value, raw_value) {
                return Some(options[i].id);
            }
            assert(options@.skip(i as int).drop_first() =~= options@.skip(i + 1));
            i = i + 1;
        }
        None
    }

    /// Whether two values are of the same kind and equal.
    fn raw_values_match(a: &RawValue, b: &RawValue) -> (r: bool)
        ensures
            r == raw_values_match_spec(*a, *b),
    {
        match (a, b) {
            (RawValue::U8(x), RawValue::U8(y)) => *x == *y,
            (RawValue::U64(x), RawValue::U64(y)) => *x == *y,
            (RawValue::U32(x), RawValue::U32(y)) => *x == *y,
            (RawValue::Title(x), RawValue::Title(y)) => *x == *y,
            _ => false,
        }
    }

    /// Whether two values are of the same kind and equal.
    fn matches_raw_value(&self, a: &RawValue, b: &RawValue) -> (r: bool)
        ensures
            r == raw_values_match_spec(*a, *b),
    {
        Self::raw_values_match(a, b)
    }
}

fn copy_ids(ids: &Vec<u32>) -> (r: Vec<u32>)
    ensures
        r@ == ids@,
{
    let mut r: Vec<u32> = Vec::new();
    let mut i: usize = 0;
    while i < ids.len()
        invariant
            i <= ids@.len(),
            r@ == ids@.take(i as int),
        decreases ids@.len() - i,
    {
        r.push(ids[i]);
        assert(r@ =~= ids@.take(i + 1));
        i = i + 1;
    }
    assert(ids@.take(ids@.len() as int) =~= ids@);
    r
}

/// The selected options' list texts joined with ", ", and how many there are.
fn join_selected(ids: &Vec<u32>, options: &Vec<FilterOption>) -> (r: (String, usize))
    ensures
        r.0@ == join_sep(selected_parts(ids@, options@), ", "@),
        r.1 == selected_parts(ids@, options@).len(),
{
    let mut s = String::new();
    let mut count: usize = 0;
    let mut i: usize = 0;
    assert(ids@.take(0) =~= Seq::<u32>::empty());
    while i < ids.len()
        invariant
            i <= ids@.len(),
            count <= i,
            s@ == join_sep(selected_parts(ids@.take(i as int), options@), ", "@),
            count == selected_parts(ids@.take(i as int), options@).len(),
        decreases ids@.len() - i,
    {
        let ghost before = selected_parts(ids@.take(i as int), options@);
        proof {
            assert(ids@.take(i + 1).drop_last() =~= ids@.take(i as int));
            assert(ids@.take(i + 1).last() == ids@[i as int]);
        }
        match find_option_index(options, ids[i]) {
            Some(k) => {
                let ghost part = raw_display_seq(options@[k as int].raw_value);
                if count > 0 {
                    push_str(&mut s, ", ");
                }
                push_raw_display(&mut s, &options[k].raw_value);
                proof {
                    let after = before.push(part);
                    assert(after.drop_last() =~= before);
                    if count == 0 {
                        assert(s@ =~= join_sep(after, ", "@));
                    } else {
                        assert(s@ =~= join_sep(after, ", "@));
                    }
                }
                count = count + 1;
            },
            None => {},
        }
        i = i + 1;
    }
    assert(ids@.take(ids@.len() as int) =~= ids@);
    (s, count)
}

/// The value is of the kind the field type edits.
pub open spec fn kind_matches(ft: FieldType, v: RawValue) -> bool {
    match (ft, v) {
        (FieldType::SourceAddr, RawValue::U8(_)) | (FieldType::DestAddr, RawValue::U8(_)) => true,
        (FieldType::SrcName, RawValue::U64(_)) | (FieldType::DstName, RawValue::U64(_)) => true,
        (FieldType::Pgn, RawValue::U32(_)) => true,
        (FieldType::Title, RawValue::Title(_)) => true,
        _ => false,
    }
}

/// The list text of a value (what `raw_display` gives and what rebuilt filter text is made
/// of) parses back, with `parse_value`, to the same value.
pub proof fn lemma_raw_display_parses_back(ft: FieldType, v: RawValue)
    requires
        kind_matches(ft, v),
    ensures
        value_parse_ok(ft, raw_display_seq(v)),
        value_of_text(ft, raw_display_seq(v), v),
{
    match v {
        RawValue::U8(x) => {
            crate::numparse::lemma_dec_parses_back(x as nat, 0xFF);
        },
        RawValue::U64(x) => {
            crate::numparse::lemma_prefixed_hex_parses_back(x as nat, 16, 0xFFFF_FFFF_FFFF_FFFF);
            assert(raw_display_seq(v) == seq!['0', 'x'] + pad_left(hex_str(x as nat, true), 16, '0'));
        },
        RawValue::U32(x) => {
            crate::numparse::lemma_prefixed_hex_parses_back(x as nat, 5, 0xFFFF_FFFF);
        },
        RawValue::Title(_) => {},
    }
}


/// The IDs checked from filter text never repeat.
pub proof fn lemma_dedup_no_repeats(s: Seq<u32>)
    ensures
        forall|i: int, j: int| 0 <= i < j < dedup(s).len() ==> dedup(s)[i] != dedup(s)[j],
    decreases s.len(),
{
    if s.len() > 0 {
        lemma_dedup_no_repeats(s.drop_last());
        lemma_dedup_contains(s.drop_last(), s.last());
        let d = dedup(s.drop_last());
        if !s.drop_last().contains(s.last()) {
            assert forall|i: int, j: int| 0 <= i < j < dedup(s).len() implies dedup(s)[i] != dedup(
                s,
            )[j] by {
                if j == d.len() {
                    assert(d[i] == dedup(s)[i]);
                    if d[i] == s.last() {
                        assert(d.contains(s.last()));
                    }
                }
            }
        }
    }
}


// ─── Rebuilt text reads back ─────────────────────────────────────────────────

/// A piece of list text: not empty, with no comma and no whitespace at either end.
pub open spec fn plain_piece(p: Seq<char>) -> bool {
    &&& p.len() > 0
    &&& !crate::numparse::is_ws(p[0])
    &&& !crate::numparse::is_ws(p.last())
    &&& forall|i: int| 0 <= i < p.len() ==> #[trigger] p[i] != ','
}

/// The pieces as `split_commas` finds them in text joined with `", "`: every piece but the
/// first keeps the space.
pub open spec fn spaced(parts: Seq<Seq<char>>) -> Seq<Seq<char>> {
    Seq::new(
        parts.len(),
        |k: int|
            if k == 0 {
                parts[0]
            } else {
                seq![' '] + parts[k]
            },
    )
}

proof fn lemma_digits_plain(d: Seq<char>, radix: nat)
    requires
        radix <= 16,
        crate::numparse::all_digits(d, radix),
    ensures
        forall|i: int|
            0 <= i < d.len() ==> #[trigger] d[i] != ',' && !crate::numparse::is_ws(d[i]),
{
    assert forall|i: int| 0 <= i < d.len() implies #[trigger] d[i] != ',' && !crate::numparse::is_ws(
        d[i],
    ) by {
        assert(crate::numparse::is_digit(d[i], radix));
        crate::numparse::lemma_digit_is_plain(d[i], radix);
    }
}

proof fn lemma_prefixed_plain(d: Seq<char>)
    requires
        forall|i: int|
            0 <= i < d.len() ==> #[trigger] d[i] != ',' && !crate::numparse::is_ws(d[i]),
    ensures
        plain_piece(seq!['0', 'x'] + d),
{
    let p = seq!['0', 'x'] + d;
    assert forall|i: int| 0 <= i < p.len() implies #[trigger] p[i] != ',' && !crate::numparse::is_ws(
        p[i],
    ) by {
        if i >= 2 {
            assert(p[i] == d[i - 2]);
        }
    }
    assert(!crate::numparse::is_ws(p[0]));
    assert(!crate::numparse::is_ws(p[p.len() - 1]));
}

proof fn lemma_raw_display_plain(ft: FieldType, v: RawValue)
    requires
        kind_matches(ft, v),
        ft == FieldType::Title ==> plain_piece(raw_display_seq(v)),
    ensures
        plain_piece(raw_display_seq(v)),
{
    match v {
        RawValue::U8(x) => {
            let d = dec_str(x as nat);
            crate::numparse::lemma_dec_str_value(x as nat);
            lemma_digits_plain(d, 10);
            assert(!crate::numparse::is_ws(d[0]));
            assert(!crate::numparse::is_ws(d[d.len() - 1]));
        },
        RawValue::U64(x) => {
            crate::numparse::lemma_padded_hex(x as nat, 16);
            lemma_digits_plain(pad_left(hex_str(x as nat, true), 16, '0'), 16);
            lemma_prefixed_plain(hex16(x));
        },
        RawValue::U32(x) => {
            crate::numparse::lemma_padded_hex(x as nat, 5);
            lemma_digits_plain(pad_left(hex_str(x as nat, true), 5, '0'), 16);
            lemma_prefixed_plain(pad_left(hex_str(x as nat, true), 5, '0'));
        },
        RawValue::Title(_) => {},
    }
}

proof fn lemma_split_append(s: Seq<char>, t: Seq<char>)
    requires
        forall|i: int| 0 <= i < t.len() ==> #[trigger] t[i] != ',',
    ensures
        split_commas(s + t) == split_commas(s).update(
            split_commas(s).len() - 1,
            split_commas(s).last() + t,
        ),
    decreases t.len(),
{
    crate::text::lemma_split_nonempty(s);
    let p = split_commas(s);
    if t.len() == 0 {
        assert(s + t =~= s);
        assert(p.last() + t =~= p.last());
        assert(p.update(p.len() - 1, p.last() + t) =~= p);
    } else {
        let t0 = t.drop_last();
        lemma_split_append(s, t0);
        assert((s + t).drop_last() =~= s + t0);
        assert((s + t).last() == t.last());
        let q = split_commas(s + t0);
        assert(q == p.update(p.len() - 1, p.last() + t0));
        assert(q.len() == p.len());
        assert(q.last() == p.last() + t0);
        assert(q.last().push(t.last()) =~= p.last() + t);
        assert(q.update(q.len() - 1, q.last().push(t.last())) =~= p.update(
            p.len() - 1,
            p.last() + t,
        ));
    }
}

/// Text joined with `", "` splits at its commas into the pieces, each but the first with
/// its leading space.
proof fn lemma_split_joined(parts: Seq<Seq<char>>)
    requires
        parts.len() > 0,
        forall|k: int| 0 <= k < parts.len() ==> plain_piece(#[trigger] parts[k]),
    ensures
        split_commas(join_sep(parts, ", "@)) == spaced(parts),
    decreases parts.len(),
{
    if parts.len() == 1 {
        lemma_split_append(Seq::empty(), parts[0]);
        assert(Seq::<char>::empty() + parts[0] =~= parts[0]);
        assert(split_commas(Seq::<char>::empty()).update(0, Seq::<char>::empty() + parts[0])
            =~= spaced(parts));
    } else {
        let pre = parts.drop_last();
        let last = parts.last();
        assert(forall|k: int| 0 <= k < pre.len() ==> #[trigger] pre[k] == parts[k]);
        lemma_split_joined(pre);
        let j = join_sep(pre, ", "@);
        let tail = seq![' '] + last;
        assert(", "@ =~= seq![',', ' ']) by {
            reveal_strlit(", ");
        }
        assert(join_sep(parts, ", "@) =~= j.push(',') + tail);
        assert forall|i: int| 0 <= i < tail.len() implies #[trigger] tail[i] != ',' by {
            if i > 0 {
                assert(tail[i] == last[i - 1]);
            }
        }
        lemma_split_append(j.push(','), tail);
        assert(j.push(',').drop_last() =~= j);
        let sj = split_commas(j.push(','));
        assert(sj == spaced(pre).push(Seq::<char>::empty()));
        assert(sj.last() + tail =~= tail);
        assert(sj.update(sj.len() - 1, sj.last() + tail) =~= spaced(parts));
    }
}

proof fn lemma_trim_spaced(p: Seq<char>)
    requires
        plain_piece(p),
    ensures
        trim(p) == p,
        trim(seq![' '] + p) == p,
{
    crate::numparse::lemma_trim_unchanged(p);
    let q = seq![' '] + p;
    assert(q.drop_first() =~= p);
    assert(crate::numparse::is_ws(q[0]));
    assert(crate::numparse::trim_start(q) == crate::numparse::trim_start(p));
    assert(!crate::numparse::is_ws(p[0]));
    assert(crate::numparse::trim_start(p) == p);
}

proof fn lemma_option_found(opts: Seq<FilterOption>, id: u32)
    ensures
        option_with_id(opts, id) matches Some(o) ==> exists|j: int|
            0 <= j < opts.len() && #[trigger] opts[j] == o && o.id == id,
    decreases opts.len(),
{
    if opts.len() > 0 && opts[0].id != id {
        lemma_option_found(opts.drop_first(), id);
        if let Some(o) = option_with_id(opts, id) {
            let j = choose|j: int|
                0 <= j < opts.drop_first().len() && #[trigger] opts.drop_first()[j] == o && o.id == id;
            assert(opts[j + 1] == o);
        }
    }
}

proof fn lemma_first_match_unique(opts: Seq<FilterOption>, p: spec_fn(RawValue) -> bool, j: int)
    requires
        0 <= j < opts.len(),
        p(opts[j].raw_value),
        forall|i: int| 0 <= i < opts.len() && i != j ==> !p(#[trigger] opts[i].raw_value),
    ensures
        first_match(opts, p) == Some(opts[j].id),
    decreases opts.len(),
{
    if j > 0 {
        let rest = opts.drop_first();
        assert(!p(opts[0].raw_value));
        assert forall|i: int| 0 <= i < rest.len() && i != j - 1 implies !p(
            #[trigger] rest[i].raw_value,
        ) by {
            assert(rest[i] == opts[i + 1]);
        }
        lemma_first_match_unique(rest, p, j - 1);
    }
}

proof fn lemma_dedup_distinct(s: Seq<u32>)
    requires
        s.no_duplicates(),
    ensures
        dedup(s) == s,
    decreases s.len(),
{
    if s.len() > 0 {
        let pre = s.drop_last();
        assert(pre.no_duplicates());
        assert(!pre.contains(s.last())) by {
            if pre.contains(s.last()) {
                let k = choose|k: int| 0 <= k < pre.len() && pre[k] == s.last();
                assert(s[k] == s[s.len() - 1]);
            }
        }
        lemma_dedup_distinct(pre);
        assert(pre.push(s.last()) =~= s);
    }
}

/// Options of the field's kind whose values differ, as the filter editor lists them; a
/// title is not empty, holds no comma and has no whitespace at either end.
pub open spec fn options_distinct(ft: FieldType, opts: Seq<FilterOption>) -> bool {
    &&& forall|k: int| 0 <= k < opts.len() ==> kind_matches(ft, #[trigger] opts[k].raw_value)
    &&& forall|i: int, k: int|
        #![trigger opts[i], opts[k]]
        0 <= i < opts.len() && 0 <= k < opts.len() && i != k ==> !raw_values_match_spec(
            opts[i].raw_value,
            opts[k].raw_value,
        )
    &&& ft == FieldType::Title ==> forall|k: int|
        0 <= k < opts.len() ==> plain_piece(raw_display_seq(#[trigger] opts[k].raw_value))
}

proof fn lemma_scan_selected(ft: FieldType, ids: Seq<u32>, opts: Seq<FilterOption>)
    requires
        options_distinct(ft, opts),
        forall|i: int| 0 <= i < ids.len() ==> option_with_id(opts, #[trigger] ids[i]) is Some,
    ensures
        selected_parts(ids, opts).len() == ids.len(),
        forall|k: int|
            0 <= k < ids.len() ==> plain_piece(#[trigger] selected_parts(ids, opts)[k]),
        ids.len() > 0 ==> scan_segments(ft, opts, spaced(selected_parts(ids, opts))) == (
            ids,
            false,
            Seq::<char>::empty(),
        ),
    decreases ids.len(),
{
    if ids.len() > 0 {
        let pre = ids.drop_last();
        let id = ids.last();
        assert forall|i: int| 0 <= i < pre.len() implies option_with_id(opts, #[trigger] pre[i]) is Some by {
            assert(pre[i] == ids[i]);
        }
        lemma_scan_selected(ft, pre, opts);
        assert(option_with_id(opts, ids[ids.len() - 1]) is Some);
        let o = option_with_id(opts, id)->Some_0;
        lemma_option_found(opts, id);
        let j = choose|j: int| 0 <= j < opts.len() && #[trigger] opts[j] == o && o.id == id;
        let v = o.raw_value;
        assert(kind_matches(ft, opts[j].raw_value));
        lemma_raw_display_plain(ft, v);
        let pp = selected_parts(pre, opts);
        let parts = selected_parts(ids, opts);
        assert(parts == pp.push(raw_display_seq(v)));
        assert forall|k: int| 0 <= k < ids.len() implies plain_piece(#[trigger] parts[k]) by {
            if k < pre.len() {
                assert(parts[k] == pp[k]);
            }
        }
        let sp = spaced(parts);
        let seg = sp.last();
        assert(sp.drop_last() =~= spaced(pp));
        let before = scan_segments(ft, opts, spaced(pp));
        if pre.len() == 0 {
            assert(spaced(pp) =~= Seq::<Seq<char>>::empty());
        }
        assert(before == (pre, false, Seq::<char>::empty()));
        let t = raw_display_seq(v);
        lemma_trim_spaced(t);
        assert(trim(seg) == t);
        lemma_raw_display_parses_back(ft, v);
        let pred = text_pred(ft, t);
        assert(pred(opts[j].raw_value));
        assert forall|i: int| 0 <= i < opts.len() && i != j implies !pred(#[trigger] opts[i].raw_value) by {
            assert(!raw_values_match_spec(opts[i].raw_value, opts[j].raw_value));
            assert(kind_matches(ft, opts[i].raw_value));
        }
        lemma_first_match_unique(opts, pred, j);
        assert(pre.push(id) =~= ids);
    }
}

/// Rebuilt filter text, opened again, is valid and checks exactly the options that were
/// checked, in the same order: with options of the field's kind whose values differ (titles
/// without commas or whitespace at either end), and checked IDs that name options and do
/// not repeat.
pub proof fn lemma_reconstruct_then_open(ft: FieldType, ids: Seq<u32>, opts: Seq<FilterOption>)
    requires
        options_distinct(ft, opts),
        ids.no_duplicates(),
        forall|i: int| 0 <= i < ids.len() ==> option_with_id(opts, #[trigger] ids[i]) is Some,
    ensures
        text_sync(ft, join_sep(selected_parts(ids, opts), ", "@), opts) == (
            true,
            Seq::<char>::empty(),
            ids,
        ),
{
    lemma_scan_selected(ft, ids, opts);
    let parts = selected_parts(ids, opts);
    let text = join_sep(parts, ", "@);
    if ids.len() == 0 {
        assert(parts.len() == 0);
    } else {
        lemma_split_joined(parts);
        if text.len() == 0 {
            assert(split_commas(text)[0] =~= Seq::<char>::empty());
            assert(spaced(parts)[0] == parts[0]);
            assert(plain_piece(parts[0]));
        }
        lemma_dedup_distinct(ids);
    }
}

} // verus!
