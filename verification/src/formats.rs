//! Plain-text formatting of values, timestamps, payload bytes and decoded details.
use vstd::prelude::*;
use crate::types::{FlagValue, Numeric, DecodedField, DecodedMessage};
use crate::text::{
    push_str,
    push_char,
    push_dec,
    push_dec_padded,
    push_hex,
    push_hex_padded,
    push_signed_dec,
    str_chars,
    string_from_chars,
    dec_str,
    hex_str,
    pad_left,
    signed_dec_str,
    join_sep,
    lemma_join_push,
    utf8_total,
    char_utf8_len,
    lemma_utf8_total_mono,
    lemma_utf8_total_strict,
};

verus! {

/// Short text of a flag state.
pub open spec fn flag_text(f: FlagValue) -> Seq<char> {
    match f {
        FlagValue::Off => "OFF"@,
        FlagValue::On => "ON"@,
        FlagValue::Error => "ERR"@,
        FlagValue::Unavailable => "N/A"@,
    }
}

/// Text of a decoded value: integers in decimal, floats with four decimals, hex values with
/// `0x`, booleans as true/false, flags by their short text.
pub open spec fn value_text(v: Numeric) -> Seq<char> {
    match v {
        Numeric::Int(i) => signed_dec_str(i as int),
        Numeric::Float(f) => f.fixed4@,
        Numeric::Hex(h) => "0x"@ + hex_str(h as nat, true),
        Numeric::Bool(b) => if b {
            "true"@
        } else {
            "false"@
        },
        Numeric::Flag(f) => flag_text(f),
    }
}

/// `seconds.microseconds` with six fractional digits.
pub open spec fn timestamp_text(ts: u64) -> Seq<char> {
    dec_str((ts / 1_000_000) as nat) + seq!['.'] + pad_left(
        dec_str((ts % 1_000_000) as nat),
        6,
        '0',
    )
}

/// `seconds.milliseconds` elapsed since `start` (zero before it), or `0.000` without a start.
pub open spec fn elapsed_text(ts: u64, start: Option<u64>) -> Seq<char> {
    match start {
        Some(s) => {
            let e: nat = if ts >= s {
                (ts - s) as nat
            } else {
                0
            };
            dec_str(e / 1_000_000) + seq!['.'] + pad_left(dec_str((e % 1_000_000) / 1000), 3, '0')
        },
        None => "0.000"@,
    }
}

/// Two uppercase hexadecimal digits.
pub open spec fn byte_hex(b: u8) -> Seq<char> {
    pad_left(hex_str(b as nat, true), 2, '0')
}

/// At most eight bytes as space-separated hex, then ` ...` when there were more.
pub open spec fn data_hex_text(d: Seq<u8>) -> Seq<char> {
    if d.len() == 0 {
        Seq::empty()
    } else {
        let n: int = if d.len() < 8 {
            d.len() as int
        } else {
            8
        };
        join_sep(d.take(n).map_values(|b: u8| byte_hex(b)), " "@) + if d.len() > 8 {
            " ..."@
        } else {
            Seq::<char>::empty()
        }
    }
}

/// One output in the detail column: `title=value unit`, `title=FLAG`, or a message's text.
pub open spec fn detail_part(f: DecodedField) -> Seq<char> {
    match f {
        DecodedField::Value { title, value, unit, .. } => match value {
            Numeric::Flag(fv) => title@ + seq!['='] + flag_text(fv),
            _ => match unit {
                Some(u) => title@ + seq!['='] + value_text(value) + seq![' '] + u@,
                None => title@ + seq!['='] + value_text(value),
            },
        },
        DecodedField::StringMessage { text, .. } => text@,
    }
}

/// One output in the condensed detail column: the value (and unit) without its title.
pub open spec fn condensed_part(f: DecodedField) -> Seq<char> {
    match f {
        DecodedField::Value { value, unit, .. } => match value {
            Numeric::Flag(fv) => flag_text(fv),
            _ => match unit {
                Some(u) => value_text(value) + seq![' '] + u@,
                None => value_text(value),
            },
        },
        DecodedField::StringMessage { text, .. } => text@,
    }
}

/// All outputs' detail texts joined with ", ".
pub open spec fn detail_text(m: DecodedMessage) -> Seq<char> {
    join_sep(m.outputs@.map_values(|f: DecodedField| detail_part(f)), ", "@)
}

/// All outputs' condensed texts joined with ", ".
pub open spec fn condensed_text(m: DecodedMessage) -> Seq<char> {
    join_sep(m.outputs@.map_values(|f: DecodedField| condensed_part(f)), ", "@)
}

/// `b` bytes of UTF-8 end exactly after some character of `s`.
pub open spec fn byte_boundary(s: Seq<char>, b: nat) -> bool {
    exists|k: int| 0 <= k <= s.len() && #[trigger] utf8_total(s.take(k)) == b
}

/// Text can be shown in `w` bytes, or cut to `w - 3` bytes at a character boundary.
pub open spec fn fits_or_cuts(s: Seq<char>, w: nat) -> bool {
    utf8_total(s) <= w || (w >= 3 && byte_boundary(s, (w - 3) as nat))
}

/// Text limited to `w` bytes: unchanged when it fits, else its first `w - 3` bytes and `...`.
pub open spec fn truncated(s: Seq<char>, w: nat) -> Seq<char> {
    if utf8_total(s) <= w {
        s
    } else {
        s.take(choose|k: int| 0 <= k <= s.len() && #[trigger] utf8_total(s.take(k)) == w - 3)
            + "..."@
    }
}

fn push_flag(s: &mut String, f: FlagValue)
    ensures
        final(s)@ == old(s)@ + flag_text(f),
{
    match f {
        FlagValue::Off => push_str(s, "OFF"),
        FlagValue::On => push_str(s, "ON"),
        FlagValue::Error => push_str(s, "ERR"),
        FlagValue::Unavailable => push_str(s, "N/A"),
    }
}

fn push_value(s: &mut String, value: &Numeric)
    ensures
        final(s)@ == old(s)@ + value_text(*value),
{
    match value {
        Numeric::Int(i) => push_signed_dec(s, *i),
        Numeric::Float(f) => push_str(s, f.fixed4.as_str()),
        Numeric::Hex(h) => {
            push_str(s, "0x");
            push_hex(s, *h, true);
            assert(final(s)@ =~= old(s)@ + value_text(*value));
        },
        Numeric::Bool(b) => if *b {
            push_str(s, "true")
        } else {
            push_str(s, "false")
        },
        Numeric::Flag(f) => push_flag(s, *f),
    }
}

/// Format a decoded value as plain text.
pub fn format_value(value: &Numeric) -> (r: String)
    ensures
        r@ == value_text(*value),
{
    let mut s = String::new();
    push_value(&mut s, value);
    assert(s@ =~= value_text(*value));
    s
}

/// Format a microsecond timestamp as `seconds.microseconds`.
pub fn format_timestamp(timestamp: u64) -> (r: String)
    ensures
        r@ == timestamp_text(timestamp),
{
    let mut s = String::new();
    push_dec(&mut s, timestamp / 1_000_000);
    push_char(&mut s, '.');
    push_dec_padded(&mut s, timestamp % 1_000_000, 6);
    assert(s@ =~= timestamp_text(timestamp));
    s
}

/// Format the time elapsed since a start point as `seconds.milliseconds`.
pub fn format_elapsed_time(timestamp: u64, global_start: Option<u64>) -> (r: String)
    ensures
        r@ == elapsed_text(timestamp, global_start),
{
    match global_start {
        Some(start) => {
            let elapsed_us: u64 = if timestamp >= start {
                timestamp - start
            } else {
                0
            };
            let mut s = String::new();
            push_dec(&mut s, elapsed_us / 1_000_000);
            push_char(&mut s, '.');
            push_dec_padded(&mut s, (elapsed_us % 1_000_000) / 1000, 3);
            assert(s@ =~= elapsed_text(timestamp, global_start));
            s
        },
        None => String::from_str("0.000"),
    }
}

/// Format bytes as space-separated hex, at most eight, with ` ...` when there are more.
pub fn format_data_hex(data: &[u8]) -> (r: String)
    ensures
        r@ == data_hex_text(data@),
{
    let mut s = String::new();
    if data.len() == 0 {
        assert(s@ =~= data_hex_text(data@));
        return s;
    }
    let n: usize = if data.len() < 8 {
        data.len()
    } else {
        8
    };
    let ghost f = |b: u8| byte_hex(b);
    let mut i: usize = 0;
    assert(data@.take(0).map_values(f) =~= Seq::<Seq<char>>::empty());
    while i < n
        invariant
            i <= n <= data@.len(),
            n <= 8,
            f == (|b: u8| byte_hex(b)),
            s@ == join_sep(data@.take(i as int).map_values(f), " "@),
        decreases n - i,
    {
        proof {
            lemma_join_push(data@.take(i as int).map_values(f), byte_hex(data@[i as int]), " "@);
            assert(data@.take(i + 1).map_values(f) =~= data@.take(i as int).map_values(f).push(
                byte_hex(data@[i as int]),
            ));
        }
        if i > 0 {
            push_str(&mut s, " ");
        }
        push_hex_padded(&mut s, data[i] as u64, 2, true);
        i = i + 1;
    }
    if data.len() > 8 {
        push_str(&mut s, " ...");
    }
    assert(s@ =~= data_hex_text(data@));
    s
}

/// Text limited to `max_width` bytes, cut at a character boundary and marked with `...`.
fn truncate_text(text: String, max_width: u16) -> (r: String)
    requires
        fits_or_cuts(text@, max_width as nat),
    ensures
        r@ == truncated(text@, max_width as nat),
{
    let cs = str_chars(text.as_str());
    let w: usize = max_width as usize;
    let mut acc: usize = 0;
    let mut i: usize = 0;
    assert(cs@.take(cs@.len() as int) =~= cs@);
    let mut over = false;
    while i < cs.len()
        invariant_except_break
            i <= cs@.len(),
            acc == utf8_total(cs@.take(i as int)),
            acc <= w,
            !over,
        invariant
            cs@ == text@,
            cs@.take(cs@.len() as int) == cs@,
            w == max_width,
        ensures
            over ==> utf8_total(cs@) > w,
            !over ==> utf8_total(cs@) <= w,
        decreases cs@.len() - i,
    {
        proof {
            assert(cs@.take(i + 1).drop_last() =~= cs@.take(i as int));
        }
        let next = acc + char_utf8_len(cs[i]);
        if next > w {
            over = true;
            proof {
                lemma_utf8_total_mono(cs@, i + 1, cs@.len() as int);
                assert(cs@.take(cs@.len() as int) =~= cs@);
            }
            break;
        }
        acc = next;
        i = i + 1;
        proof {
            if i == cs@.len() {
                assert(cs@.take(cs@.len() as int) =~= cs@);
            }
        }
    }
    if !over {
        return text;
    }
    let b: usize = w - 3;
    let ghost kk = choose|k: int|
        0 <= k <= text@.len() && #[trigger] utf8_total(text@.take(k)) == (max_width as nat) - 3;
    assert(0 <= kk <= cs@.len() && utf8_total(cs@.take(kk)) == b);
    let mut k: usize = 0;
    let mut bytes: usize = 0;
    assert(cs@.take(0) =~= Seq::<char>::empty());
    while bytes < b
        invariant
            k <= cs@.len(),
            cs@ == text@,
            b < w,
            w == max_width,
            bytes == utf8_total(cs@.take(k as int)),
            bytes <= b,
            0 <= kk <= cs@.len(),
            utf8_total(cs@.take(kk)) == b,
            k <= kk,
        decreases b - bytes,
    {
        assert(k < cs.len());
        proof {
            assert(cs@.take(k + 1).drop_last() =~= cs@.take(k as int));
            if (k as int) == kk {
                assert(false);
            }
            if (k + 1) < kk {
                lemma_utf8_total_strict(cs@, k + 1, kk);
            }
        }
        bytes = bytes + char_utf8_len(cs[k]);
        k = k + 1;
    }
    proof {
        if (k as int) < kk {
            lemma_utf8_total_strict(cs@, k as int, kk);
        }
    }
    let head = crate::text::slice_vec(&cs, 0, k);
    let mut r = string_from_chars(&head);
    push_str(&mut r, "...");
    assert(cs@.subrange(0, k as int) =~= cs@.take(k as int));
    assert(k == kk);
    assert(utf8_total(text@) > max_width as nat);
    assert(truncated(text@, max_width as nat) == text@.take(kk) + "..."@);
    r
}

/// All outputs as `title=value unit` (flags as `title=ON`), joined with ", " and limited to
/// `max_width` bytes.
pub fn build_detail_string(msg: &DecodedMessage, max_width: u16) -> (r: String)
    requires
        fits_or_cuts(detail_text(*msg), max_width as nat),
    ensures
        r@ == truncated(detail_text(*msg), max_width as nat),
{
    let ghost f = |x: DecodedField| detail_part(x);
    let mut s = String::new();
    let mut i: usize = 0;
    assert(msg.outputs@.take(0).map_values(f) =~= Seq::<Seq<char>>::empty());
    while i < msg.outputs.len()
        invariant
            i <= msg.outputs@.len(),
            f == (|x: DecodedField| detail_part(x)),
            s@ == join_sep(msg.outputs@.take(i as int).map_values(f), ", "@),
        decreases msg.outputs@.len() - i,
    {
        proof {
            lemma_join_push(
                msg.outputs@.take(i as int).map_values(f),
                detail_part(msg.outputs@[i as int]),
                ", "@,
            );
            assert(msg.outputs@.take(i + 1).map_values(f) =~= msg.outputs@.take(
                i as int,
            ).map_values(f).push(detail_part(msg.outputs@[i as int])));
        }
        if i > 0 {
            push_str(&mut s, ", ");
        }
        let ghost before = s@;
        match &msg.outputs[i] {
            DecodedField::Value { title, value, unit, .. } => {
                push_str(&mut s, title.as_str());
                push_char(&mut s, '=');
                match value {
                    Numeric::Flag(fv) => push_flag(&mut s, *fv),
                    _ => {
                        push_value(&mut s, value);
                        match unit {
                            Some(u) => {
                                push_char(&mut s, ' ');
                                push_str(&mut s, u.as_str());
                            },
                            None => {},
                        }
                    },
                }
            },
            DecodedField::StringMessage { text, .. } => {
                push_str(&mut s, text.as_str());
            },
        }
        assert(s@ =~= before + detail_part(msg.outputs@[i as int]));
        i = i + 1;
    }
    assert(msg.outputs@.take(msg.outputs@.len() as int) =~= msg.outputs@);
    truncate_text(s, max_width)
}

/// All outputs' values (with units; flags by state), joined with ", " and limited to
/// `max_width` bytes.
pub fn build_detail_condensed_string(msg: &DecodedMessage, max_width: u16) -> (r: String)
    requires
        fits_or_cuts(condensed_text(*msg), max_width as nat),
    ensures
        r@ == truncated(condensed_text(*msg), max_width as nat),
{
    let ghost f = |x: DecodedField| condensed_part(x);
    let mut s = String::new();
    let mut i: usize = 0;
    assert(msg.outputs@.take(0).map_values(f) =~= Seq::<Seq<char>>::empty());
    while i < msg.outputs.len()
        invariant
            i <= msg.outputs@.len(),
            f == (|x: DecodedField| condensed_part(x)),
            s@ == join_sep(msg.outputs@.take(i as int).map_values(f), ", "@),
        decreases msg.outputs@.len() - i,
    {
        proof {
            lemma_join_push(
                msg.outputs@.take(i as int).map_values(f),
                condensed_part(msg.outputs@[i as int]),
                ", "@,
            );
            assert(msg.outputs@.take(i + 1).map_values(f) =~= msg.outputs@.take(
                i as int,
            ).map_values(f).push(condensed_part(msg.outputs@[i as int])));
        }
        if i > 0 {
            push_str(&mut s, ", ");
        }
        let ghost before = s@;
        match &msg.outputs[i] {
            DecodedField::Value { value, unit, .. } => {
                match value {
                    Numeric::Flag(fv) => push_flag(&mut s, *fv),
                    _ => {
                        push_value(&mut s, value);
                        match unit {
                            Some(u) => {
                                push_char(&mut s, ' ');
                                push_str(&mut s, u.as_str());
                            },
                            None => {},
                        }
                    },
                }
            },
            DecodedField::StringMessage { text, .. } => {
                push_str(&mut s, text.as_str());
            },
        }
        assert(s@ =~= before + condensed_part(msg.outputs@[i as int]));
        i = i + 1;
    }
    assert(msg.outputs@.take(msg.outputs@.len() as int) =~= msg.outputs@);
    truncate_text(s, max_width)
}


/// Limited text never takes more than `max_width` bytes (when it can be cut at all).
pub proof fn lemma_truncated_fits(s: Seq<char>, w: nat)
    requires
        fits_or_cuts(s, w),
    ensures
        utf8_total(truncated(s, w)) <= w,
{
    if utf8_total(s) > w {
        let k = choose|k: int| 0 <= k <= s.len() && #[trigger] utf8_total(s.take(k)) == w - 3;
        crate::text::lemma_utf8_total_concat(s.take(k), "..."@);
        assert(utf8_total("..."@) == 3) by {
            reveal_strlit("...");
            reveal_with_fuel(utf8_total, 4);
            assert("..."@.drop_last().drop_last().drop_last() =~= Seq::<char>::empty());
        }
    }
}

} // verus!
