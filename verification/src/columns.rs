//! The columns of the message table: labels, default visibility, widths and cell text.
use vstd::prelude::*;
use crate::types::{DecodedMessage, id_source, id_destination};
use crate::text::{push_hex_padded, push_hex, push_str, copy_string, hex_str, pad_left};
use crate::formats::{
    format_timestamp,
    format_elapsed_time,
    format_data_hex,
    build_detail_string,
    build_detail_condensed_string,
    timestamp_text,
    elapsed_text,
    data_hex_text,
    detail_text,
    condensed_text,
    fits_or_cuts,
    truncated,
};

verus! {

/// A column of the message table.
#[derive(Debug, Clone, Copy, PartialEq, Eq, Hash, Structural)]
pub enum Column {
    AbsTime,
    Time,
    Src,
    Dest,
    Pgn,
    PgnName,
    Title,
    Data,
    Detail,
    DetailCondensed,
}

/// The text a column shows for a message (`pgn_name` is the PGN's title, when known).
pub open spec fn cell_text(
    c: Column,
    msg: DecodedMessage,
    max_width: u16,
    start: Option<u64>,
    pgn_name: Option<Seq<char>>,
) -> Seq<char> {
    match c {
        Column::AbsTime => timestamp_text(msg.assembled_message.timestamp),
        Column::Time => elapsed_text(msg.assembled_message.timestamp, start),
        Column::Src => pad_left(hex_str(id_source(msg.assembled_message.id) as nat, true), 2, '0'),
        Column::Dest => pad_left(
            hex_str(id_destination(msg.assembled_message.id) as nat, true),
            2,
            '0',
        ),
        Column::Pgn => hex_str(msg.assembled_message.pgn as nat, true),
        Column::PgnName => match pgn_name {
            Some(n) => n,
            None => Seq::empty(),
        },
        Column::Title => msg.title@,
        Column::Data => data_hex_text(msg.assembled_message.data@),
        Column::Detail => truncated(detail_text(msg), max_width as nat),
        Column::DetailCondensed => truncated(condensed_text(msg), max_width as nat),
    }
}

impl Column {
    /// Every column, in display order.
    pub fn all() -> (r: &'static [Self])
        ensures
            r@ == seq![
                Column::AbsTime,
                Column::Time,
                Column::Src,
                Column::Dest,
                Column::Pgn,
                Column::PgnName,
                Column::Title,
                Column::Data,
                Column::Detail,
                Column::DetailCondensed,
            ],
    {
        &[
            Column::AbsTime,
            Column::Time,
            Column::Src,
            Column::Dest,
            Column::Pgn,
            Column::PgnName,
            Column::Title,
            Column::Data,
            Column::Detail,
            Column::DetailCondensed,
        ]
    }

    /// The text this column shows for a message. The PGN name column shows `pgn_name`, the
    /// title that the caller looked up for the message's PGN.
    pub fn format(
        self,
        msg: &DecodedMessage,
        max_width: u16,
        global_start_time: Option<u64>,
        pgn_name: Option<&str>,
    ) -> (r: String)
        requires
            self == Column::Detail ==> fits_or_cuts(detail_text(*msg), max_width as nat),
            self == Column::DetailCondensed ==> fits_or_cuts(
                condensed_text(*msg),
                max_width as nat,
            ),
        ensures
            r@ == cell_text(
                self,
                *msg,
                max_width,
                global_start_time,
                match pgn_name {
                    Some(n) => Some(n@),
                    None => None,
                },
            ),
    {
        match self {
            Column::AbsTime => format_timestamp(msg.timestamp()),
            Column::Time => format_elapsed_time(msg.timestamp(), global_start_time),
            Column::Src => {
                let mut s = String::new();
                push_hex_padded(&mut s, msg.source_address() as u64, 2, true);
                assert(s@ =~= cell_text(self, *msg, max_width, global_start_time, None));
                s
            },
            Column::Dest => {
                let mut s = String::new();
                push_hex_padded(&mut s, msg.dest_address() as u64, 2, true);
                assert(s@ =~= cell_text(self, *msg, max_width, global_start_time, None));
                s
            },
            Column::Pgn => {
                let mut s = String::new();
                push_hex(&mut s, msg.pgn() as u64, true);
                assert(s@ =~= cell_text(self, *msg, max_width, global_start_time, None));
                s
            },
            Column::PgnName => match pgn_name {
                Some(n) => String::from_str(n),
                None => String::new(),
            },
            Column::Title => copy_string(&msg.title),
            Column::Data => format_data_hex(msg.data_bytes()),
            Column::Detail => build_detail_string(msg, max_width),
            Column::DetailCondensed => build_detail_condensed_string(msg, max_width),
        }
    }

    /// Column header text.
    pub fn label(self) -> (r: &'static str)
        ensures
            r@ == match self {
                Column::AbsTime => "Abs Time"@,
                Column::Time => "Time"@,
                Column::Src => "Src"@,
                Column::Dest => "Dst"@,
                Column::Pgn => "PGN"@,
                Column::PgnName => "PGN Name"@,
                Column::Title => "Title"@,
                Column::Data => "Data"@,
                Column::Detail => "Detail"@,
                Column::DetailCondensed => "Detail Condensed"@,
            },
    {
        match self {
            Column::AbsTime => "Abs Time",
            Column::Time => "Time",
            Column::Src => "Src",
            Column::Dest => "Dst",
            Column::Pgn => "PGN",
            Column::PgnName => "PGN Name",
            Column::Title => "Title",
            Column::Data => "Data",
            Column::Detail => "Detail",
            Column::DetailCondensed => "Detail Condensed",
        }
    }

    /// Whether the column is shown by default.
    pub fn default_enabled(self) -> (r: bool)
        ensures
            r == match self {
                Column::Time | Column::Src | Column::Dest | Column::Pgn | Column::Title
                | Column::Detail => true,
                _ => false,
            },
    {
        match self {
            Column::Time | Column::Src | Column::Dest | Column::Pgn | Column::Title
            | Column::Detail => true,
            Column::AbsTime | Column::PgnName | Column::Data | Column::DetailCondensed => false,
        }
    }

    /// Base width of the column in characters.
    pub fn base_width(self) -> (r: u16)
        ensures
            r == column_width(self),
    {
        match self {
            Column::AbsTime => 14,
            Column::Time => 12,
            Column::Src | Column::Dest => 3,
            Column::Pgn => 6,
            Column::PgnName => 20,
            Column::Title => 15,
            Column::Data => 24,
            Column::Detail => 30,
            Column::DetailCondensed => 30,
        }
    }

    /// Base width, and whether the column expands into spare room.
    pub fn required_sizs(self) -> (r: (u16, bool))
        ensures
            r == (column_width(self), self == Column::Detail || self == Column::DetailCondensed),
    {
        match self {
            Column::Detail | Column::DetailCondensed => (self.base_width(), true),
            _ => (self.base_width(), false),
        }
    }
}

/// Base width of a column.
pub open spec fn column_width(c: Column) -> u16 {
    match c {
        Column::AbsTime => 14,
        Column::Time => 12,
        Column::Src | Column::Dest => 3,
        Column::Pgn => 6,
        Column::PgnName => 20,
        Column::Title => 15,
        Column::Data => 24,
        Column::Detail => 30,
        Column::DetailCondensed => 30,
    }
}

/// Two uppercase hexadecimal digits of a byte.
pub open spec fn two_hex_digits(b: nat) -> Seq<char> {
    seq![crate::text::digit_char(b / 16, true), crate::text::digit_char(b % 16, true)]
}

/// The byte of a 29-bit identifier that names the destination: the third-lowest byte (PS)
/// when the second-highest byte (PF) is below 0xF0, else the global address 0xFF.
pub open spec fn destination_byte(id: u32) -> nat {
    if (id / 0x1_0000) % 0x100 >= 0xF0 {
        0xFF
    } else {
        ((id / 0x100) % 0x100) as nat
    }
}

proof fn lemma_two_hex_digits(b: nat)
    requires
        b < 256,
    ensures
        pad_left(hex_str(b, true), 2, '0') == two_hex_digits(b),
{
    reveal_with_fuel(hex_str, 2);
    if b < 16 {
        assert(crate::text::digit_char(0, true) == '0');
        assert(pad_left(hex_str(b, true), 2, '0') =~= two_hex_digits(b));
    } else {
        assert(hex_str(b / 16, true) == seq![crate::text::digit_char(b / 16, true)]);
        assert(pad_left(hex_str(b, true), 2, '0') =~= two_hex_digits(b));
    }
}

/// The Src column shows the identifier's lowest byte and the Dst column its destination
/// byte, each as two uppercase hexadecimal digits.
pub proof fn lemma_address_columns(
    msg: DecodedMessage,
    max_width: u16,
    start: Option<u64>,
    pgn_name: Option<Seq<char>>,
)
    ensures
        cell_text(Column::Src, msg, max_width, start, pgn_name) == two_hex_digits(
            (msg.assembled_message.id % 0x100) as nat,
        ),
        cell_text(Column::Dest, msg, max_width, start, pgn_name) == two_hex_digits(
            destination_byte(msg.assembled_message.id),
        ),
{
    let id = msg.assembled_message.id;
    assert(id & 0xFFu32 == id % 0x100) by (bit_vector);
    assert((id >> 16u32) & 0xFFu32 == (id / 0x1_0000) % 0x100) by (bit_vector);
    assert((id >> 8u32) & 0xFFu32 == (id / 0x100) % 0x100) by (bit_vector);
    assert(id_destination(id) as nat == destination_byte(id));
    lemma_two_hex_digits((id % 0x100) as nat);
    lemma_two_hex_digits(destination_byte(id));
}

} // verus!
