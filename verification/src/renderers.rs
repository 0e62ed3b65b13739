//! Output renderers: one-line summaries with ANSI colours, CSV rows with columns tracked per
//! PGN, and the removal of ANSI colour codes.
use vstd::prelude::*;
use owo_colors::OwoColorize;
use std::collections::HashMap;
use crate::types::{
    DecodedField,
    DecodedMessage,
    FlagValue,
    Numeric,
    Severity,
    id_priority,
    id_source,
    id_destination,
    can_id_priority,
};
use crate::text::{
    push_char,
    push_str,
    push_dec,
    push_hex,
    push_hex_padded,
    push_signed_dec,
    str_chars,
    string_from_chars,
    dec_str,
    hex_str,
    signed_dec_str,
    join_sep,
    lemma_join_push,
};
use crate::formats::{flag_text, byte_hex};

verus! {

// ─── ANSI colours (owo-colors) ───────────────────────────────────────────────

/// A select-graphic-rendition escape: ESC `[` code `m`.
pub open spec fn sgr(code: Seq<char>) -> Seq<char> {
    seq!['\x1b', '['] + code + seq!['m']
}

/// Text in a foreground colour, then the code that restores the default foreground.
pub open spec fn fg_wrap(code: Seq<char>, s: Seq<char>) -> Seq<char> {
    sgr(code) + s + sgr(seq!['3', '9'])
}

/// Text in a style (bold, dim), then the code that resets all attributes.
pub open spec fn style_wrap(code: Seq<char>, s: Seq<char>) -> Seq<char> {
    sgr(code) + s + sgr(seq!['0'])
}

pub open spec fn red_text(s: Seq<char>) -> Seq<char> {
    fg_wrap(seq!['3', '1'], s)
}

pub open spec fn green_text(s: Seq<char>) -> Seq<char> {
    fg_wrap(seq!['3', '2'], s)
}

pub open spec fn yellow_text(s: Seq<char>) -> Seq<char> {
    fg_wrap(seq!['3', '3'], s)
}

pub open spec fn magenta_text(s: Seq<char>) -> Seq<char> {
    fg_wrap(seq!['3', '5'], s)
}

pub open spec fn cyan_text(s: Seq<char>) -> Seq<char> {
    fg_wrap(seq!['3', '6'], s)
}

pub open spec fn white_text(s: Seq<char>) -> Seq<char> {
    fg_wrap(seq!['3', '7'], s)
}

pub open spec fn bold_text(s: Seq<char>) -> Seq<char> {
    style_wrap(seq!['1'], s)
}

pub open spec fn dimmed_text(s: Seq<char>) -> Seq<char> {
    style_wrap(seq!['2'], s)
}

/// `OwoColorize::red` displayed: the text between ESC[31m and ESC[39m.
#[verifier::external_body]
pub(crate) fn red(s: &str) -> (r: String)
    ensures
        r@ == red_text(s@),
{
    s.red().to_string()
}

/// `OwoColorize::green` displayed: the text between ESC[32m and ESC[39m.
#[verifier::external_body]
pub(crate) fn green(s: &str) -> (r: String)
    ensures
        r@ == green_text(s@),
{
    s.green().to_string()
}

/// `OwoColorize::yellow` displayed: the text between ESC[33m and ESC[39m.
#[verifier::external_body]
pub(crate) fn yellow(s: &str) -> (r: String)
    ensures
        r@ == yellow_text(s@),
{
    s.yellow().to_string()
}

/// `OwoColorize::magenta` displayed: the text between ESC[35m and ESC[39m.
#[verifier::external_body]
pub(crate) fn magenta(s: &str) -> (r: String)
    ensures
        r@ == magenta_text(s@),
{
    s.magenta().to_string()
}

/// `OwoColorize::cyan` displayed: the text between ESC[36m and ESC[39m.
#[verifier::external_body]
pub(crate) fn cyan(s: &str) -> (r: String)
    ensures
        r@ == cyan_text(s@),
{
    s.cyan().to_string()
}

/// `OwoColorize::white` displayed: the text between ESC[37m and ESC[39m.
#[verifier::external_body]
pub(crate) fn white(s: &str) -> (r: String)
    ensures
        r@ == white_text(s@),
{
    s.white().to_string()
}

/// `OwoColorize::bold` displayed: the text between ESC[1m and ESC[0m.
#[verifier::external_body]
pub(crate) fn bold(s: &str) -> (r: String)
    ensures
        r@ == bold_text(s@),
{
    s.bold().to_string()
}

/// `OwoColorize::dimmed` displayed: the text between ESC[2m and ESC[0m.
#[verifier::external_body]
pub(crate) fn dimmed(s: &str) -> (r: String)
    ensures
        r@ == dimmed_text(s@),
{
    s.dimmed().to_string()
}

// ─── Values as output lines show them ────────────────────────────────────────

/// Text of a value in an output line: integers in decimal, floats in their shortest form,
/// hex values with `0x`, booleans as true/false; a flag as `title: STATE`.
pub open spec fn plain_value_text(v: Numeric, title: Seq<char>) -> Seq<char> {
    match v {
        Numeric::Int(i) => signed_dec_str(i as int),
        Numeric::Float(f) => f.shortest@,
        Numeric::Hex(h) => "0x"@ + hex_str(h as nat, true),
        Numeric::Bool(b) => if b {
            "true"@
        } else {
            "false"@
        },
        Numeric::Flag(f) => title + ": "@ + flag_text(f),
    }
}

/// A flag state in colour: ERR red, OFF white, ON green, N/A dimmed.
pub open spec fn colored_flag(f: FlagValue) -> Seq<char> {
    match f {
        FlagValue::Off => white_text("OFF"@),
        FlagValue::On => green_text("ON"@),
        FlagValue::Error => red_text("ERR"@),
        FlagValue::Unavailable => dimmed_text("N/A"@),
    }
}

/// Text of a value in a one-line summary: as in output lines, but a flag is its coloured
/// state alone.
pub open spec fn colored_value_text(v: Numeric) -> Seq<char> {
    match v {
        Numeric::Flag(f) => colored_flag(f),
        _ => plain_value_text(v, Seq::empty()),
    }
}

/// A value's text followed by a space and its unit, when it has one.
pub open spec fn with_unit(s: Seq<char>, unit: Option<String>) -> Seq<char> {
    match unit {
        Some(u) => s + seq![' '] + u@,
        None => s,
    }
}

/// A severity as one coloured letter: I green, W yellow, E red.
pub open spec fn severity_mark(s: Severity) -> Seq<char> {
    match s {
        Severity::Info => green_text("I"@),
        Severity::Warning => yellow_text("W"@),
        Severity::Error => red_text("E"@),
    }
}

/// One field of a summary line for a value: the title in bold cyan, `=`, the value.
pub open spec fn value_field(title: Seq<char>, v: Numeric, unit: Option<String>) -> Seq<char> {
    cyan_text(bold_text(title)) + seq!['='] + with_unit(colored_value_text(v), unit)
}

/// One field of a summary line for a text message: `[mark] text`.
pub open spec fn message_field(sev: Severity, text: Seq<char>) -> Seq<char> {
    seq!['['] + severity_mark(sev) + "] "@ + text
}

fn push_flag_plain(s: &mut String, f: FlagValue)
    ensures
        final(s)@ == old(s)@ + flag_text(f),
{
    match f {
        FlagValue::Off => push_str(s, "OFF"),
        FlagValue::On => push_str(s, "ON"),
        FlagValue::Error => push_str(s, "ERR"),
        FlagValue::Unavailable => push_str(s, "N/A"),
    }
}

fn push_plain_value(s: &mut String, v: &Numeric, title: &str)
    ensures
        final(s)@ == old(s)@ + plain_value_text(*v, title@),
{
    let ghost start = s@;
    match v {
        Numeric::Int(i) => push_signed_dec(s, *i),
        Numeric::Float(f) => push_str(s, f.shortest.as_str()),
        Numeric::Hex(h) => {
            push_str(s, "0x");
            push_hex(s, *h, true);
        },
        Numeric::Bool(b) => {
            if *b {
                push_str(s, "true")
            } else {
                push_str(s, "false")
            }
        },
        Numeric::Flag(f) => {
            push_str(s, title);
            push_str(s, ": ");
            push_flag_plain(s, *f);
        },
    }
    assert(s@ =~= start + plain_value_text(*v, title@));
}

fn push_colored_value(s: &mut String, v: &Numeric)
    ensures
        final(s)@ == old(s)@ + colored_value_text(*v),
{
    let ghost start = s@;
    match v {
        Numeric::Flag(f) => {
            let t = match f {
                FlagValue::Off => white("OFF"),
                FlagValue::On => green("ON"),
                FlagValue::Error => red("ERR"),
                FlagValue::Unavailable => dimmed("N/A"),
            };
            push_str(s, t.as_str());
        },
        _ => push_plain_value(s, v, ""),
    }
    assert(s@ =~= start + colored_value_text(*v));
}

fn push_unit(s: &mut String, unit: &Option<String>)
    ensures
        final(s)@ == with_unit(old(s)@, *unit),
{
    match unit {
        Some(u) => {
            push_char(s, ' ');
            push_str(s, u.as_str());
        },
        None => {},
    }
    proof {
        match unit {
            Some(u) => assert(final(s)@ =~= with_unit(old(s)@, *unit)),
            None => {},
        }
    }
}

fn value_field_string(title: &str, v: &Numeric, unit: &Option<String>) -> (r: String)
    ensures
        r@ == value_field(title@, *v, *unit),
{
    let b = bold(title);
    let mut s = cyan(b.as_str());
    push_char(&mut s, '=');
    let ghost head = s@;
    let mut d = String::new();
    push_colored_value(&mut d, v);
    push_unit(&mut d, unit);
    push_str(&mut s, d.as_str());
    assert(s@ =~= value_field(title@, *v, *unit));
    s
}

fn message_field_string(sev: Severity, text: &str) -> (r: String)
    ensures
        r@ == message_field(sev, text@),
{
    let mark = match sev {
        Severity::Info => green("I"),
        Severity::Warning => yellow("W"),
        Severity::Error => red("E"),
    };
    let mut s = String::new();
    push_char(&mut s, '[');
    push_str(&mut s, mark.as_str());
    push_str(&mut s, "] ");
    push_str(&mut s, text);
    assert(s@ =~= message_field(sev, text@));
    s
}

// ─── Joining ─────────────────────────────────────────────────────────────────

/// The texts of a list of strings.
pub open spec fn texts(v: Seq<String>) -> Seq<Seq<char>>
    decreases v.len(),
{
    if v.len() == 0 {
        Seq::empty()
    } else {
        texts(v.drop_last()).push(v.last()@)
    }
}

proof fn lemma_texts_push(v: Seq<String>, x: String)
    ensures
        texts(v.push(x)) == texts(v).push(x@),
{
    assert(v.push(x).drop_last() =~= v);
}

fn push_part(parts: &mut Vec<String>, p: String)
    ensures
        texts(final(parts)@) == texts(old(parts)@).push(p@),
{
    proof {
        lemma_texts_push(parts@, p);
    }
    parts.push(p);
}

/// The strings joined with `sep` between them.
fn join_parts(parts: &Vec<String>, sep: &str) -> (r: String)
    ensures
        r@ == join_sep(texts(parts@), sep@),
{
    let mut s = String::new();
    let mut i: usize = 0;
    assert(parts@.take(0) =~= Seq::<String>::empty());
    while i < parts.len()
        invariant
            i <= parts@.len(),
            s@ == join_sep(texts(parts@.take(i as int)), sep@),
        decreases parts@.len() - i,
    {
        proof {
            assert(parts@.take(i + 1) =~= parts@.take(i as int).push(parts@[i as int]));
            lemma_texts_push(parts@.take(i as int), parts@[i as int]);
            lemma_join_push(texts(parts@.take(i as int)), parts@[i as int]@, sep@);
            assert(texts(parts@.take(i as int)).len() == i) by {
                lemma_texts_len(parts@.take(i as int));
            }
        }
        if i > 0 {
            push_str(&mut s, sep);
        }
        push_str(&mut s, parts[i].as_str());
        i = i + 1;
    }
    assert(parts@.take(parts@.len() as int) =~= parts@);
    s
}

proof fn lemma_texts_len(v: Seq<String>)
    ensures
        texts(v).len() == v.len(),
    decreases v.len(),
{
    if v.len() > 0 {
        lemma_texts_len(v.drop_last());
    }
}

// ─── Pieces shared by the renderers ──────────────────────────────────────────

/// Payload bytes as two-digit uppercase hex, run together.
pub open spec fn bytes_hex(d: Seq<u8>) -> Seq<char>
    decreases d.len(),
{
    if d.len() == 0 {
        Seq::empty()
    } else {
        bytes_hex(d.drop_last()) + byte_hex(d.last())
    }
}

/// Payload bytes as two-digit uppercase hex, each followed by a space.
pub open spec fn bytes_hex_spaced(d: Seq<u8>) -> Seq<char>
    decreases d.len(),
{
    if d.len() == 0 {
        Seq::empty()
    } else {
        bytes_hex_spaced(d.drop_last()) + byte_hex(d.last()) + seq![' ']
    }
}

fn bytes_hex_string(d: &[u8], spaced: bool) -> (r: String)
    ensures
        r@ == if spaced {
            bytes_hex_spaced(d@)
        } else {
            bytes_hex(d@)
        },
{
    let mut s = String::new();
    let mut i: usize = 0;
    assert(d@.take(0) =~= Seq::<u8>::empty());
    while i < d.len()
        invariant
            i <= d@.len(),
            s@ == if spaced {
                bytes_hex_spaced(d@.take(i as int))
            } else {
                bytes_hex(d@.take(i as int))
            },
        decreases d@.len() - i,
    {
        assert(d@.take(i + 1).drop_last() =~= d@.take(i as int));
        push_hex_padded(&mut s, d[i] as u64, 2, true);
        if spaced {
            push_char(&mut s, ' ');
        }
        i = i + 1;
    }
    assert(d@.take(d@.len() as int) =~= d@);
    s
}

/// The texts of all text messages among the outputs, in order.
pub open spec fn message_texts(outs: Seq<DecodedField>) -> Seq<Seq<char>>
    decreases outs.len(),
{
    if outs.len() == 0 {
        Seq::empty()
    } else {
        let p = message_texts(outs.drop_last());
        match outs.last() {
            DecodedField::StringMessage { text, .. } => p.push(text@),
            _ => p,
        }
    }
}

/// The texts of the non-empty text messages among the outputs, in order.
pub open spec fn nonempty_texts(outs: Seq<DecodedField>) -> Seq<Seq<char>>
    decreases outs.len(),
{
    if outs.len() == 0 {
        Seq::empty()
    } else {
        let p = nonempty_texts(outs.drop_last());
        match outs.last() {
            DecodedField::StringMessage { text, .. } => if text@.len() > 0 {
                p.push(text@)
            } else {
                p
            },
            _ => p,
        }
    }
}

fn collect_texts(outs: &Vec<DecodedField>, skip_empty: bool) -> (r: Vec<String>)
    ensures
        texts(r@) == if skip_empty {
            nonempty_texts(outs@)
        } else {
            message_texts(outs@)
        },
{
    let mut r: Vec<String> = Vec::new();
    let mut i: usize = 0;
    assert(outs@.take(0) =~= Seq::<DecodedField>::empty());
    while i < outs.len()
        invariant
            i <= outs@.len(),
            texts(r@) == if skip_empty {
                nonempty_texts(outs@.take(i as int))
            } else {
                message_texts(outs@.take(i as int))
            },
        decreases outs@.len() - i,
    {
        assert(outs@.take(i + 1).drop_last() =~= outs@.take(i as int));
        assert(outs@.take(i + 1).last() == outs@[i as int]);
        match &outs[i] {
            DecodedField::StringMessage { text, .. } => {
                if !skip_empty || !text.as_str().is_empty() {
                    proof {
                        if skip_empty {
                            assert(text@.len() > 0);
                        }
                    }
                    push_part(&mut r, text.clone());
                } else {
                    proof {
                        assert(text@.len() == 0);
                    }
                }
            },
            _ => {},
        }
        i = i + 1;
    }
    assert(outs@.take(outs@.len() as int) =~= outs@);
    r
}

fn source_dest_string(src: u8, dst: u8) -> (r: String)
    ensures
        r@ == hex_str(src as nat, true) + "->"@ + hex_str(dst as nat, true),
{
    let mut s = String::new();
    push_hex(&mut s, src as u64, true);
    push_str(&mut s, "->");
    push_hex(&mut s, dst as u64, true);
    assert(s@ =~= hex_str(src as nat, true) + "->"@ + hex_str(dst as nat, true));
    s
}

fn hex_string(n: u64) -> (r: String)
    ensures
        r@ == hex_str(n as nat, true),
{
    let mut s = String::new();
    push_hex(&mut s, n, true);
    assert(s@ =~= hex_str(n as nat, true));
    s
}

fn dec_string_of(n: u64) -> (r: String)
    ensures
        r@ == dec_str(n as nat),
{
    let mut s = String::new();
    push_dec(&mut s, n);
    assert(s@ =~= dec_str(n as nat));
    s
}

// ─── Condensed renderer ──────────────────────────────────────────────────────

/// The condensed summary's field for an output: values always, text messages when not
/// empty.
pub open spec fn condensed_field(f: DecodedField) -> Option<Seq<char>> {
    match f {
        DecodedField::Value { title, value, unit, .. } => Some(value_field(title@, value, unit)),
        DecodedField::StringMessage { severity, text } => if text@.len() > 0 {
            Some(message_field(severity, text@))
        } else {
            None
        },
    }
}

/// The condensed summary's fields for the outputs, in order.
pub open spec fn condensed_fields(outs: Seq<DecodedField>) -> Seq<Seq<char>>
    decreases outs.len(),
{
    if outs.len() == 0 {
        Seq::empty()
    } else {
        let p = condensed_fields(outs.drop_last());
        match condensed_field(outs.last()) {
            Some(x) => p.push(x),
            None => p,
        }
    }
}

/// The condensed summary: PGN in hex, `SRC->DST` in hex, the payload in hex, the non-empty
/// text messages joined with `; ` (when there are any), then one field per output, all
/// joined with ` | `.
pub open spec fn condensed_line(m: DecodedMessage) -> Seq<char> {
    let a = m.assembled_message;
    let texts = nonempty_texts(m.outputs@);
    let fixed = seq![
        hex_str(a.pgn as nat, true),
        hex_str(id_source(a.id) as nat, true) + "->"@ + hex_str(id_destination(a.id) as nat, true),
        bytes_hex(a.data@),
    ];
    let with_texts = if texts.len() > 0 {
        fixed.push(join_sep(texts, "; "@))
    } else {
        fixed
    };
    join_sep(with_texts + condensed_fields(m.outputs@), " | "@)
}

/// Renders a message as one line of fields separated by ` | `.
pub struct CondensedRenderer;

impl CondensedRenderer {
    /// The renderer's name.
    pub fn name(&self) -> (r: &'static str)
        ensures
            r@ == "condensed"@,
    {
        "condensed"
    }

    /// The one-line summary of a message (see `condensed_line`).
    pub fn render(&self, message: &DecodedMessage) -> (r: String)
        ensures
            r@ == condensed_line(*message),
    {
        let a = &message.assembled_message;
        let mut parts: Vec<String> = Vec::new();
        push_part(&mut parts, hex_string(message.pgn() as u64));
        push_part(&mut parts, source_dest_string(a.source(), a.destination()));
        push_part(&mut parts, bytes_hex_string(a.data.as_slice(), false));
        let msgs = collect_texts(&message.outputs, true);
        proof {
            lemma_texts_len(msgs@);
        }
        if msgs.len() > 0 {
            let joined = join_parts(&msgs, "; ");
            push_part(&mut parts, joined);
        }
        let ghost fixed = texts(parts@);
        let outs = &message.outputs;
        let mut i: usize = 0;
        assert(outs@.take(0) =~= Seq::<DecodedField>::empty());
        assert(fixed + condensed_fields(outs@.take(0)) =~= fixed);
        while i < outs.len()
            invariant
                i <= outs@.len(),
                outs == message.outputs,
                texts(parts@) == fixed + condensed_fields(outs@.take(i as int)),
            decreases outs@.len() - i,
        {
            assert(outs@.take(i + 1).drop_last() =~= outs@.take(i as int));
            assert(outs@.take(i + 1).last() == outs@[i as int]);
            match &outs[i] {
                DecodedField::Value { title, value, unit, .. } => {
                    let f = value_field_string(title.as_str(), value, unit);
                    push_part(&mut parts, f);
                },
                DecodedField::StringMessage { severity, text } => {
                    if !text.as_str().is_empty() {
                        let f = message_field_string(*severity, text.as_str());
                        push_part(&mut parts, f);
                    }
                },
            }
            proof {
                let p = condensed_fields(outs@.take(i as int));
                match condensed_field(outs@[i as int]) {
                    Some(x) => assert(fixed + p.push(x) =~= (fixed + p).push(x)),
                    None => {},
                }
            }
            i = i + 1;
        }
        assert(outs@.take(outs@.len() as int) =~= outs@);
        let r = join_parts(&parts, " | ");
        proof {
            let texts_ = nonempty_texts(message.outputs@);
            let fx = seq![
                hex_str(a.pgn as nat, true),
                hex_str(id_source(a.id) as nat, true) + "->"@ + hex_str(id_destination(a.id) as nat, true),
                bytes_hex(a.data@),
            ];
            if texts_.len() > 0 {
                assert(fixed =~= fx.push(join_sep(texts_, "; "@)));
            } else {
                assert(fixed =~= fx);
            }
        }
        r
    }
}

// ─── Full condensed renderer ─────────────────────────────────────────────────

/// The full summary's field for an output: values and all text messages.
pub open spec fn full_field(f: DecodedField) -> Seq<char> {
    match f {
        DecodedField::Value { title, value, unit, .. } => value_field(title@, value, unit),
        DecodedField::StringMessage { severity, text } => message_field(severity, text@),
    }
}

/// The full summary's fields for the outputs, in order.
pub open spec fn full_fields(outs: Seq<DecodedField>) -> Seq<Seq<char>>
    decreases outs.len(),
{
    if outs.len() == 0 {
        Seq::empty()
    } else {
        full_fields(outs.drop_last()).push(full_field(outs.last()))
    }
}

/// A device NAME in hex, or `N/A`.
pub open spec fn name_or_na(n: Option<u64>) -> Seq<char> {
    match n {
        Some(v) => hex_str(v as nat, true),
        None => "N/A"@,
    }
}

/// The full summary: time, identifier in hex, priority, PGN in decimal and in hex, the PGN
/// name in bold magenta (when known), `SRC->DST`, `(SRC NAME -> DST NAME)`, the payload in
/// hex with a space after each byte, the title, all text messages joined with `; `, then one
/// field per output, all joined with ` | `.
pub open spec fn full_condensed_line(m: DecodedMessage, pgn_name: Option<Seq<char>>) -> Seq<char> {
    let a = m.assembled_message;
    let head = seq![
        dec_str(a.timestamp as nat),
        hex_str(a.id as nat, true),
        dec_str(id_priority(a.id) as nat),
        dec_str(a.pgn as nat),
        hex_str(a.pgn as nat, true),
    ];
    let named = match pgn_name {
        Some(n) => head.push(magenta_text(bold_text(n))),
        None => head,
    };
    let tail = seq![
        hex_str(id_source(a.id) as nat, true) + "->"@ + hex_str(id_destination(a.id) as nat, true),
        seq!['('] + name_or_na(a.source_name) + " -> "@ + name_or_na(a.dest_name) + seq![')'],
        bytes_hex_spaced(a.data@),
        m.title@,
        join_sep(message_texts(m.outputs@), "; "@),
    ];
    join_sep(named + tail + full_fields(m.outputs@), " | "@)
}

fn name_string(n: Option<u64>) -> (r: String)
    ensures
        r@ == name_or_na(n),
{
    match n {
        Some(v) => hex_string(v),
        None => String::from_str("N/A"),
    }
}

/// Renders a message as one line with every fixed field and one field per output.
pub struct FullCondensedRenderer;

impl FullCondensedRenderer {
    /// The renderer's name.
    pub fn name(&self) -> (r: &'static str)
        ensures
            r@ == "full-condensed"@,
    {
        "full-condensed"
    }

    /// The full one-line summary of a message; `pgn_name` is the name the PGN table gives
    /// the message's PGN, if any (see `full_condensed_line`).
    pub fn render(&self, message: &DecodedMessage, pgn_name: Option<&str>) -> (r: String)
        ensures
            r@ == full_condensed_line(*message, match pgn_name {
                Some(n) => Some(n@),
                None => None,
            }),
    {
        let a = &message.assembled_message;
        let mut parts: Vec<String> = Vec::new();
        push_part(&mut parts, dec_string_of(a.timestamp));
        push_part(&mut parts, hex_string(a.id as u64));
        push_part(&mut parts, dec_string_of(can_id_priority(a.id) as u64));
        push_part(&mut parts, dec_string_of(message.pgn() as u64));
        push_part(&mut parts, hex_string(message.pgn() as u64));
        let ghost head = seq![
            dec_str(a.timestamp as nat),
            hex_str(a.id as nat, true),
            dec_str(id_priority(a.id) as nat),
            dec_str(a.pgn as nat),
            hex_str(a.pgn as nat, true),
        ];
        assert(texts(parts@) =~= head);
        match pgn_name {
            Some(n) => {
                let b = bold(n);
                push_part(&mut parts, magenta(b.as_str()));
            },
            None => {},
        }
        let ghost named = texts(parts@);
        push_part(&mut parts, source_dest_string(a.source(), a.destination()));
        let mut names = String::new();
        push_char(&mut names, '(');
        let sn = name_string(a.source_name);
        push_str(&mut names, sn.as_str());
        push_str(&mut names, " -> ");
        let dn = name_string(a.dest_name);
        push_str(&mut names, dn.as_str());
        push_char(&mut names, ')');
        assert(names@ =~= seq!['('] + name_or_na(a.source_name) + " -> "@ + name_or_na(a.dest_name)
            + seq![')']);
        push_part(&mut parts, names);
        push_part(&mut parts, bytes_hex_string(a.data.as_slice(), true));
        let title = message.title.clone();
        assert(title@ == message.title@);
        push_part(&mut parts, title);
        let msgs = collect_texts(&message.outputs, false);
        push_part(&mut parts, join_parts(&msgs, "; "));
        let ghost fixed = texts(parts@);
        let outs = &message.outputs;
        let mut i: usize = 0;
        assert(outs@.take(0) =~= Seq::<DecodedField>::empty());
        assert(fixed + full_fields(outs@.take(0)) =~= fixed);
        while i < outs.len()
            invariant
                i <= outs@.len(),
                outs == message.outputs,
                texts(parts@) == fixed + full_fields(outs@.take(i as int)),
            decreases outs@.len() - i,
        {
            assert(outs@.take(i + 1).drop_last() =~= outs@.take(i as int));
            assert(outs@.take(i + 1).last() == outs@[i as int]);
            match &outs[i] {
                DecodedField::Value { title, value, unit, .. } => {
                    let f = value_field_string(title.as_str(), value, unit);
                    push_part(&mut parts, f);
                },
                DecodedField::StringMessage { severity, text } => {
                    let f = message_field_string(*severity, text.as_str());
                    push_part(&mut parts, f);
                },
            }
            proof {
                let p = full_fields(outs@.take(i as int));
                let x = full_field(outs@[i as int]);
                assert(fixed + p.push(x) =~= (fixed + p).push(x));
            }
            i = i + 1;
        }
        assert(outs@.take(outs@.len() as int) =~= outs@);
        let r = join_parts(&parts, " | ");
        proof {
            let pn = match pgn_name {
                Some(n) => Some(n@),
                None => None::<Seq<char>>,
            };
            assert(named == match pn {
                Some(n) => head.push(magenta_text(bold_text(n))),
                None => head,
            });
            let tail = seq![
                hex_str(id_source(a.id) as nat, true) + "->"@ + hex_str(id_destination(a.id) as nat, true),
                seq!['('] + name_or_na(a.source_name) + " -> "@ + name_or_na(a.dest_name) + seq![')'],
                bytes_hex_spaced(a.data@),
                message.title@,
                join_sep(message_texts(message.outputs@), "; "@),
            ];
            assert(fixed =~= named + tail);
        }
        r
    }
}

// ─── ANSI code removal ───────────────────────────────────────────────────────

/// Characters allowed between ESC `[` and `m` in a colour code: digits and `;`.
pub open spec fn is_sgr_param(c: char) -> bool {
    ('0' <= c && c <= '9') || c == ';'
}

/// The first position at or after `j` that does not hold a code parameter.
pub open spec fn param_end(s: Seq<char>, j: int) -> int
    decreases s.len() - j,
{
    if 0 <= j < s.len() && is_sgr_param(s[j]) {
        param_end(s, j + 1)
    } else {
        j
    }
}

/// A run of code parameters ends at or after its start, and within the text.
pub proof fn lemma_param_end_bounds(s: Seq<char>, j: int)
    ensures
        param_end(s, j) >= j,
        j <= s.len() ==> param_end(s, j) <= s.len(),
    decreases s.len() - j,
{
    if 0 <= j < s.len() && is_sgr_param(s[j]) {
        lemma_param_end_bounds(s, j + 1);
    }
}

/// One past the `m` of the colour code (ESC `[`, digits and `;`, `m`) that starts at `i`,
/// if one starts there.
pub open spec fn sgr_end(s: Seq<char>, i: int) -> Option<int> {
    if 0 <= i && i + 1 < s.len() && s[i] == '\x1b' && s[i + 1] == '[' {
        let e = param_end(s, i + 2);
        if e < s.len() && s[e] == 'm' {
            Some(e + 1)
        } else {
            None
        }
    } else {
        None
    }
}

/// The text from position `i` on without its colour codes, removed left to right.
pub open spec fn strip_from(s: Seq<char>, i: int) -> Seq<char>
    decreases s.len() - i,
{
    if i < 0 || i >= s.len() {
        Seq::empty()
    } else {
        match sgr_end(s, i) {
            Some(e) => {
                proof {
                    lemma_param_end_bounds(s, i + 2);
                }
                strip_from(s, e)
            },
            None => seq![s[i]] + strip_from(s, i + 1),
        }
    }
}

/// The text without its ANSI colour codes.
pub open spec fn strip_ansi(s: Seq<char>) -> Seq<char> {
    strip_from(s, 0)
}

/// Removes every ANSI colour code (ESC `[`, digits and `;`, `m`) from the text.
pub fn strip_ansi_codes(s: &str) -> (r: String)
    ensures
        r@ == strip_ansi(s@),
{
    let cs = str_chars(s);
    let n = cs.len();
    let mut out = String::new();
    let mut i: usize = 0;
    while i < n
        invariant
            i <= n == cs@.len(),
            cs@ == s@,
            out@ + strip_from(cs@, i as int) == strip_from(cs@, 0),
        decreases n - i,
    {
        let mut end: usize = 0;
        let mut found = false;
        if i + 1 < n && cs[i] == '\x1b' && cs[i + 1] == '[' {
            let mut j: usize = i + 2;
            while j < n && (('0' <= cs[j] && cs[j] <= '9') || cs[j] == ';')
                invariant
                    i + 2 <= j <= n == cs@.len(),
                    param_end(cs@, (i + 2) as int) == param_end(cs@, j as int),
                decreases n - j,
            {
                j = j + 1;
            }
            if j < n && cs[j] == 'm' {
                found = true;
                end = j + 1;
            }
        }
        if found {
            assert(sgr_end(cs@, i as int) == Some(end as int));
            i = end;
        } else {
            assert(sgr_end(cs@, i as int) is None);
            let ghost before = out@;
            push_char(&mut out, cs[i]);
            assert(before + (seq![cs@[i as int]] + strip_from(cs@, i + 1)) =~= out@ + strip_from(
                cs@,
                i + 1,
            ));
            i = i + 1;
        }
    }
    assert(out@ + strip_from(cs@, n as int) =~= out@);
    out
}

// ─── Colour codes come off again ─────────────────────────────────────────────

/// The text holds no escape character.
pub open spec fn no_escape(s: Seq<char>) -> bool {
    forall|i: int| 0 <= i < s.len() ==> s[i] != '\x1b'
}

/// Every character is a code parameter (a digit or `;`).
pub open spec fn all_params(code: Seq<char>) -> bool {
    forall|i: int| 0 <= i < code.len() ==> is_sgr_param(#[trigger] code[i])
}

proof fn lemma_strip_plain(t: Seq<char>, i: int, j: int)
    requires
        0 <= i <= j <= t.len(),
        forall|k: int| i <= k < j ==> t[k] != '\x1b',
    ensures
        strip_from(t, i) == t.subrange(i, j) + strip_from(t, j),
    decreases j - i,
{
    if i < j {
        lemma_strip_plain(t, i + 1, j);
        assert(sgr_end(t, i) is None);
        assert(t.subrange(i, j) =~= seq![t[i]] + t.subrange(i + 1, j));
    } else {
        assert(t.subrange(i, j) =~= Seq::<char>::empty());
    }
}

proof fn lemma_param_run(t: Seq<char>, j: int, n: int)
    requires
        0 <= j,
        0 <= n,
        j + n < t.len(),
        forall|k: int| j <= k < j + n ==> is_sgr_param(t[k]),
        !is_sgr_param(t[j + n]),
    ensures
        param_end(t, j) == j + n,
    decreases n,
{
    if n > 0 {
        lemma_param_run(t, j + 1, n - 1);
    }
}

proof fn lemma_strip_code(t: Seq<char>, i: int, code: Seq<char>)
    requires
        0 <= i,
        i + code.len() + 3 <= t.len(),
        t.subrange(i, i + code.len() + 3) == sgr(code),
        all_params(code),
    ensures
        strip_from(t, i) == strip_from(t, i + code.len() + 3),
{
    let n = code.len() as int;
    assert(t[i] == sgr(code)[0]);
    assert(t[i + 1] == sgr(code)[1]);
    assert forall|k: int| i + 2 <= k < i + 2 + n implies is_sgr_param(t[k]) by {
        assert(t[k] == sgr(code)[k - i]);
        assert(sgr(code)[k - i] == code[k - i - 2]);
    }
    assert(t[i + 2 + n] == sgr(code)[n + 2]);
    lemma_param_run(t, i + 2, n);
}

/// Colouring a text that holds no escape character, then removing the colour codes, gives
/// the text back: one code before and one after (a colour or a style and its reset).
pub proof fn lemma_strip_colored(code: Seq<char>, s: Seq<char>, end: Seq<char>)
    requires
        all_params(code),
        all_params(end),
        no_escape(s),
    ensures
        strip_ansi(sgr(code) + s + sgr(end)) == s,
{
    let t = sgr(code) + s + sgr(end);
    let a: int = code.len() as int + 3;
    let b: int = a + s.len();
    assert(t.subrange(0, a) =~= sgr(code));
    lemma_strip_code(t, 0, code);
    assert forall|k: int| a <= k < b implies t[k] != '\x1b' by {
        assert(t[k] == s[k - a]);
    }
    lemma_strip_plain(t, a, b);
    assert(t.subrange(b, b + end.len() as int + 3) =~= sgr(end));
    lemma_strip_code(t, b, end);
    assert(t.subrange(a, b) =~= s);
    assert(strip_from(t, b + end.len() as int + 3) =~= Seq::<char>::empty());
}

/// The same with two codes before and two after, as a colour around a style gives.
pub proof fn lemma_strip_double_colored(
    c1: Seq<char>,
    c2: Seq<char>,
    s: Seq<char>,
    e2: Seq<char>,
    e1: Seq<char>,
)
    requires
        all_params(c1),
        all_params(c2),
        all_params(e2),
        all_params(e1),
        no_escape(s),
    ensures
        strip_ansi(sgr(c1) + (sgr(c2) + s + sgr(e2)) + sgr(e1)) == s,
{
    let t = sgr(c1) + (sgr(c2) + s + sgr(e2)) + sgr(e1);
    let a1: int = c1.len() as int + 3;
    let a2: int = a1 + c2.len() + 3;
    let b: int = a2 + s.len();
    let b2: int = b + e2.len() + 3;
    assert(t.subrange(0, a1) =~= sgr(c1));
    lemma_strip_code(t, 0, c1);
    assert(t.subrange(a1, a2) =~= sgr(c2));
    lemma_strip_code(t, a1, c2);
    assert forall|k: int| a2 <= k < b implies t[k] != '\x1b' by {
        assert(t[k] == s[k - a2]);
    }
    lemma_strip_plain(t, a2, b);
    assert(t.subrange(b, b2) =~= sgr(e2));
    lemma_strip_code(t, b, e2);
    assert(t.subrange(b2, b2 + e1.len() as int + 3) =~= sgr(e1));
    lemma_strip_code(t, b2, e1);
    assert(t.subrange(a2, b) =~= s);
    assert(strip_from(t, b2 + e1.len() as int + 3) =~= Seq::<char>::empty());
}

// ─── CSV renderer ────────────────────────────────────────────────────────────

/// The text with every `"` doubled.
pub open spec fn escape_quotes(s: Seq<char>) -> Seq<char>
    decreases s.len(),
{
    if s.len() == 0 {
        Seq::empty()
    } else {
        escape_quotes(s.drop_last()) + if s.last() == '"' {
            seq!['"', '"']
        } else {
            seq![s.last()]
        }
    }
}

/// A CSV field in double quotes, inner quotes doubled.
pub open spec fn csv_quote(s: Seq<char>) -> Seq<char> {
    seq!['"'] + escape_quotes(s) + seq!['"']
}

/// Every name as a quoted CSV field.
pub open spec fn quote_each(names: Seq<Seq<char>>) -> Seq<Seq<char>>
    decreases names.len(),
{
    if names.len() == 0 {
        Seq::empty()
    } else {
        quote_each(names.drop_last()).push(csv_quote(names.last()))
    }
}

/// The columns every CSV header starts with.
pub open spec fn csv_fixed_columns() -> Seq<Seq<char>> {
    seq![
        "Timestamp"@,
        "CAN ID"@,
        "Priority"@,
        "PGN"@,
        "PGN Title"@,
        "Source address"@,
        "Destination address"@,
        "Source NAME"@,
        "Destination NAME"@,
        "Data bytes"@,
        "StringMessage"@,
    ]
}

/// `dynamic` extended, in order, by each known column of the PGN that it lacks, except the
/// title being handled.
pub open spec fn add_known(dynamic: Seq<Seq<char>>, known: Seq<Seq<char>>, title: Seq<char>) -> Seq<Seq<char>>
    decreases known.len(),
{
    if known.len() == 0 {
        dynamic
    } else {
        let d = add_known(dynamic, known.drop_last(), title);
        let col = known.last();
        if !d.contains(col) && col != title {
            d.push(col)
        } else {
            d
        }
    }
}

/// One output's effect on (the message's columns, the PGN's known columns). A value's title
/// joins the columns after the PGN's known columns; the first value of a PGN never seen
/// makes its title the PGN's one known column.
pub open spec fn column_step(
    state: (Seq<Seq<char>>, Option<Seq<Seq<char>>>),
    f: DecodedField,
) -> (Seq<Seq<char>>, Option<Seq<Seq<char>>>) {
    match f {
        DecodedField::Value { title, .. } => {
            let t = title@;
            let (d1, k1) = match state.1 {
                Some(known) => (add_known(state.0, known, t), state.1),
                None => (state.0.push(t), Some(seq![t])),
            };
            (
                if d1.contains(t) {
                    d1
                } else {
                    d1.push(t)
                },
                k1,
            )
        },
        _ => state,
    }
}

/// The state after the outputs, one by one.
pub open spec fn columns_after(
    state: (Seq<Seq<char>>, Option<Seq<Seq<char>>>),
    outs: Seq<DecodedField>,
) -> (Seq<Seq<char>>, Option<Seq<Seq<char>>>)
    decreases outs.len(),
{
    if outs.len() == 0 {
        state
    } else {
        column_step(columns_after(state, outs.drop_last()), outs.last())
    }
}

/// The value columns of a message whose PGN had the known columns `known` (none if the PGN
/// was never seen).
pub open spec fn csv_columns(known: Option<Seq<Seq<char>>>, outs: Seq<DecodedField>) -> Seq<Seq<char>> {
    columns_after((Seq::empty(), known), outs).0
}

/// The header line: the fixed columns, then the value columns, quoted and comma-separated.
pub open spec fn csv_header(cols: Seq<Seq<char>>) -> Seq<char> {
    join_sep(quote_each(csv_fixed_columns() + cols), ","@)
}

/// A device NAME in hex, or nothing.
pub open spec fn name_hex_or_empty(n: Option<u64>) -> Seq<char> {
    match n {
        Some(v) => hex_str(v as nat, true),
        None => Seq::empty(),
    }
}

/// The data row's fixed fields.
pub open spec fn csv_fixed_values(m: DecodedMessage, pgn_title: Seq<char>) -> Seq<Seq<char>> {
    let a = m.assembled_message;
    seq![
        dec_str(a.timestamp as nat),
        hex_str(a.id as nat, true),
        dec_str(id_priority(a.id) as nat),
        hex_str(a.pgn as nat, true),
        csv_quote(pgn_title),
        hex_str(id_source(a.id) as nat, true),
        hex_str(id_destination(a.id) as nat, true),
        csv_quote(name_hex_or_empty(a.source_name)),
        csv_quote(name_hex_or_empty(a.dest_name)),
        bytes_hex(a.data@),
        csv_quote(join_sep(message_texts(m.outputs@), "; "@)),
    ]
}

/// The data row's field for one output: a value whose title is a column gives its quoted
/// text (with unit); anything else an empty field.
pub open spec fn csv_value_cell(f: DecodedField, cols: Seq<Seq<char>>) -> Seq<char> {
    match f {
        DecodedField::Value { title, value, unit, .. } => if cols.contains(title@) {
            csv_quote(with_unit(plain_value_text(value, title@), unit))
        } else {
            Seq::empty()
        },
        DecodedField::StringMessage { .. } => Seq::empty(),
    }
}

/// The data row's fields for the outputs, one per value (text messages already stand in
/// their fixed field and take no cell of their own).
pub open spec fn csv_value_cells(outs: Seq<DecodedField>, cols: Seq<Seq<char>>) -> Seq<Seq<char>>
    decreases outs.len(),
{
    if outs.len() == 0 {
        Seq::empty()
    } else if outs.last() is StringMessage {
        csv_value_cells(outs.drop_last(), cols)
    } else {
        csv_value_cells(outs.drop_last(), cols).push(csv_value_cell(outs.last(), cols))
    }
}

/// Header line, newline, data row.
pub open spec fn csv_text(m: DecodedMessage, pgn_title: Seq<char>, cols: Seq<Seq<char>>) -> Seq<char> {
    csv_header(cols) + seq!['\n'] + join_sep(
        csv_fixed_values(m, pgn_title) + csv_value_cells(m.outputs@, cols),
        ","@,
    )
}

/// The entry of a map at a key, if it has one.
pub open spec fn entry_at(m: Map<u32, Seq<Seq<char>>>, k: u32) -> Option<Seq<Seq<char>>> {
    if m.dom().contains(k) {
        Some(m[k])
    } else {
        None
    }
}

proof fn lemma_texts_index(v: Seq<String>)
    ensures
        texts(v).len() == v.len(),
        forall|i: int| 0 <= i < v.len() ==> #[trigger] texts(v)[i] == v[i]@,
    decreases v.len(),
{
    if v.len() > 0 {
        lemma_texts_index(v.drop_last());
        assert forall|i: int| 0 <= i < v.len() implies #[trigger] texts(v)[i] == v[i]@ by {
            if i < v.len() - 1 {
                assert(texts(v.drop_last())[i] == v.drop_last()[i]@);
            }
        }
    }
}

fn has_text(v: &Vec<String>, t: &String) -> (r: bool)
    ensures
        r == texts(v@).contains(t@),
{
    proof {
        lemma_texts_index(v@);
    }
    let mut i: usize = 0;
    while i < v.len()
        invariant
            i <= v@.len(),
            texts(v@).len() == v@.len(),
            forall|k: int| 0 <= k < v@.len() ==> #[trigger] texts(v@)[k] == v@[k]@,
            forall|k: int| 0 <= k < i ==> texts(v@)[k] != t@,
        decreases v@.len() - i,
    {
        if v[i] == *t {
            assert(texts(v@)[i as int] == t@);
            return true;
        }
        i = i + 1;
    }
    false
}

fn copy_strings(v: &Vec<String>) -> (r: Vec<String>)
    ensures
        texts(r@) == texts(v@),
{
    let mut r: Vec<String> = Vec::new();
    let mut i: usize = 0;
    assert(v@.take(0) =~= Seq::<String>::empty());
    while i < v.len()
        invariant
            i <= v@.len(),
            texts(r@) == texts(v@.take(i as int)),
        decreases v@.len() - i,
    {
        assert(v@.take(i + 1) =~= v@.take(i as int).push(v@[i as int]));
        proof {
            lemma_texts_push(v@.take(i as int), v@[i as int]);
        }
        push_part(&mut r, v[i].clone());
        i = i + 1;
    }
    assert(v@.take(v@.len() as int) =~= v@);
    r
}

/// The texts of an optional list of strings.
pub open spec fn opt_texts(e: Option<Vec<String>>) -> Option<Seq<Seq<char>>> {
    match e {
        Some(v) => Some(texts(v@)),
        None => None,
    }
}

fn quoted(t: &str) -> (r: String)
    ensures
        r@ == csv_quote(t@),
{
    let cs = str_chars(t);
    let mut s = String::new();
    push_char(&mut s, '"');
    let mut i: usize = 0;
    assert(cs@.take(0) =~= Seq::<char>::empty());
    while i < cs.len()
        invariant
            i <= cs@.len(),
            s@ == seq!['"'] + escape_quotes(cs@.take(i as int)),
        decreases cs@.len() - i,
    {
        assert(cs@.take(i + 1).drop_last() =~= cs@.take(i as int));
        let ghost before = s@;
        if cs[i] == '"' {
            push_char(&mut s, '"');
            push_char(&mut s, '"');
        } else {
            push_char(&mut s, cs[i]);
        }
        assert(s@ =~= seq!['"'] + escape_quotes(cs@.take(i + 1)));
        i = i + 1;
    }
    assert(cs@.take(cs@.len() as int) =~= cs@);
    push_char(&mut s, '"');
    assert(s@ =~= csv_quote(t@));
    s
}

/// Renders messages as CSV: a header line and a data row per message. The value columns
/// are tracked per PGN, so a PGN's columns persist from one message to the next.
pub struct CsvRenderer {
    column_registry: HashMap<u32, Vec<String>>,
}

impl CsvRenderer {
    /// The known value columns of each PGN seen.
    pub closed spec fn columns(&self) -> Map<u32, Seq<Seq<char>>> {
        self.column_registry@.map_values(|v: Vec<String>| texts(v@))
    }

    /// A renderer that has seen no PGN.
    pub fn new() -> (r: Self)
        ensures
            r.columns() == Map::<u32, Seq<Seq<char>>>::empty(),
    {
        let r = CsvRenderer { column_registry: HashMap::new() };
        assert(r.columns() =~= Map::<u32, Seq<Seq<char>>>::empty());
        r
    }

    /// The renderer's name.
    pub fn name(&self) -> (r: &'static str)
        ensures
            r@ == "csv"@,
    {
        "csv"
    }

    /// The header line and data row of a message; `pgn_title` is the name the PGN table
    /// gives the message's PGN, if any. The message's value columns become the PGN's known
    /// columns.
    pub fn render(&mut self, message: &DecodedMessage, pgn_title: Option<&str>) -> (r: String)
        ensures
            final(self).columns() == old(self).columns().insert(
                message.assembled_message.pgn,
                csv_columns(
                    entry_at(old(self).columns(), message.assembled_message.pgn),
                    message.outputs@,
                ),
            ),
            r@ == csv_text(
                *message,
                match pgn_title {
                    Some(t) => t@,
                    None => Seq::empty(),
                },
                csv_columns(
                    entry_at(old(self).columns(), message.assembled_message.pgn),
                    message.outputs@,
                ),
            ),
    {
        broadcast use vstd::std_specs::hash::group_hash_axioms;

        let pgn = message.pgn();
        let known: Option<Vec<String>> = match self.column_registry.get(&pgn) {
            Some(v) => Some(copy_strings(v)),
            None => None,
        };
        assert(opt_texts(known) == entry_at(old(self).columns(), pgn));
        let dynamic = message_columns(known, &message.outputs);
        let saved = copy_strings(&dynamic);
        self.column_registry.insert(pgn, saved);
        assert(self.columns() =~= old(self).columns().insert(pgn, texts(dynamic@)));
        let mut text = header_line(&dynamic);
        push_char(&mut text, '\n');
        let row = data_row(message, pgn_title, &dynamic);
        push_str(&mut text, row.as_str());
        text
    }
}

fn add_known_columns(dynamic: &mut Vec<String>, known: &Vec<String>, title: &String)
    ensures
        texts(final(dynamic)@) == add_known(texts(old(dynamic)@), texts(known@), title@),
{
    let ghost d0 = texts(dynamic@);
    let mut j: usize = 0;
    assert(known@.take(0) =~= Seq::<String>::empty());
    while j < known.len()
        invariant
            j <= known@.len(),
            texts(dynamic@) == add_known(d0, texts(known@.take(j as int)), title@),
        decreases known@.len() - j,
    {
        assert(known@.take(j + 1) =~= known@.take(j as int).push(known@[j as int]));
        proof {
            lemma_texts_push(known@.take(j as int), known@[j as int]);
            let kt = texts(known@.take(j as int));
            assert(kt.push(known@[j as int]@).drop_last() =~= kt);
        }
        let col = &known[j];
        if !has_text(dynamic, col) && !(*col == *title) {
            push_part(dynamic, col.clone());
        }
        j = j + 1;
    }
    assert(known@.take(known@.len() as int) =~= known@);
}

fn message_columns(known: Option<Vec<String>>, outs: &Vec<DecodedField>) -> (r: Vec<String>)
    ensures
        texts(r@) == csv_columns(opt_texts(known), outs@),
{
    let ghost known0 = opt_texts(known);
    let mut known = known;
    let mut dynamic: Vec<String> = Vec::new();
    let mut i: usize = 0;
    assert(outs@.take(0) =~= Seq::<DecodedField>::empty());
    assert(texts(dynamic@) =~= Seq::<Seq<char>>::empty());
    while i < outs.len()
        invariant
            i <= outs@.len(),
            (texts(dynamic@), opt_texts(known)) == columns_after(
                (Seq::empty(), known0),
                outs@.take(i as int),
            ),
        decreases outs@.len() - i,
    {
        assert(outs@.take(i + 1).drop_last() =~= outs@.take(i as int));
        assert(outs@.take(i + 1).last() == outs@[i as int]);
        match &outs[i] {
            DecodedField::Value { title, .. } => {
                match &known {
                    Some(k) => {
                        add_known_columns(&mut dynamic, k, title);
                    },
                    None => {
                        push_part(&mut dynamic, title.clone());
                        let mut first: Vec<String> = Vec::new();
                        push_part(&mut first, title.clone());
                        assert(texts(first@) =~= seq![title@]);
                        known = Some(first);
                    },
                }
                if !has_text(&dynamic, title) {
                    push_part(&mut dynamic, title.clone());
                }
            },
            _ => {},
        }
        i = i + 1;
    }
    assert(outs@.take(outs@.len() as int) =~= outs@);
    dynamic
}

fn header_line(dynamic: &Vec<String>) -> (r: String)
    ensures
        r@ == csv_header(texts(dynamic@)),
{
    let mut header: Vec<String> = Vec::new();
    push_part(&mut header, quoted("Timestamp"));
    push_part(&mut header, quoted("CAN ID"));
    push_part(&mut header, quoted("Priority"));
    push_part(&mut header, quoted("PGN"));
    push_part(&mut header, quoted("PGN Title"));
    push_part(&mut header, quoted("Source address"));
    push_part(&mut header, quoted("Destination address"));
    push_part(&mut header, quoted("Source NAME"));
    push_part(&mut header, quoted("Destination NAME"));
    push_part(&mut header, quoted("Data bytes"));
    push_part(&mut header, quoted("StringMessage"));
    proof {
        reveal_with_fuel(quote_each, 12);
        assert(texts(header@) =~= quote_each(csv_fixed_columns()));
    }
    let mut j: usize = 0;
    assert(dynamic@.take(0) =~= Seq::<String>::empty());
    assert(csv_fixed_columns() + texts(dynamic@.take(0)) =~= csv_fixed_columns());
    while j < dynamic.len()
        invariant
            j <= dynamic@.len(),
            texts(header@) == quote_each(csv_fixed_columns() + texts(dynamic@.take(j as int))),
        decreases dynamic@.len() - j,
    {
        assert(dynamic@.take(j + 1) =~= dynamic@.take(j as int).push(dynamic@[j as int]));
        proof {
            lemma_texts_push(dynamic@.take(j as int), dynamic@[j as int]);
            let pre = csv_fixed_columns() + texts(dynamic@.take(j as int));
            assert(csv_fixed_columns() + texts(dynamic@.take(j + 1)) =~= pre.push(
                dynamic@[j as int]@,
            ));
            assert(pre.push(dynamic@[j as int]@).drop_last() =~= pre);
        }
        push_part(&mut header, quoted(dynamic[j].as_str()));
        j = j + 1;
    }
    assert(dynamic@.take(dynamic@.len() as int) =~= dynamic@);
    join_parts(&header, ",")
}

fn fixed_row(message: &DecodedMessage, title_text: &str) -> (r: Vec<String>)
    ensures
        texts(r@) == csv_fixed_values(*message, title_text@),
{
    let a = &message.assembled_message;
    let mut row: Vec<String> = Vec::new();
    push_part(&mut row, dec_string_of(a.timestamp));
    push_part(&mut row, hex_string(a.id as u64));
    push_part(&mut row, dec_string_of(can_id_priority(a.id) as u64));
    push_part(&mut row, hex_string(message.pgn() as u64));
    push_part(&mut row, quoted(title_text));
    push_part(&mut row, hex_string(a.source() as u64));
    push_part(&mut row, hex_string(a.destination() as u64));
    let sn = match a.source_name {
        Some(v) => hex_string(v),
        None => String::new(),
    };
    push_part(&mut row, quoted(sn.as_str()));
    let dn = match a.dest_name {
        Some(v) => hex_string(v),
        None => String::new(),
    };
    push_part(&mut row, quoted(dn.as_str()));
    push_part(&mut row, bytes_hex_string(a.data.as_slice(), false));
    let msgs = collect_texts(&message.outputs, false);
    let joined = join_parts(&msgs, "; ");
    push_part(&mut row, quoted(joined.as_str()));
    assert(texts(row@) =~= csv_fixed_values(*message, title_text@));
    row
}

fn data_row(message: &DecodedMessage, pgn_title: Option<&str>, dynamic: &Vec<String>) -> (r: String)
    ensures
        r@ == join_sep(
            csv_fixed_values(
                *message,
                match pgn_title {
                    Some(t) => t@,
                    None => Seq::empty(),
                },
            ) + csv_value_cells(message.outputs@, texts(dynamic@)),
            ","@,
        ),
{
    let title_text = match pgn_title {
        Some(t) => t,
        None => "",
    };
    proof {
        reveal_strlit("");
    }
    assert(title_text@ == match pgn_title {
        Some(t) => t@,
        None => Seq::<char>::empty(),
    });
    let mut row = fixed_row(message, title_text);
    let ghost fixed = texts(row@);
    let ghost cols = texts(dynamic@);
    let outs = &message.outputs;
    let mut i: usize = 0;
    assert(outs@.take(0) =~= Seq::<DecodedField>::empty());
    assert(fixed + csv_value_cells(outs@.take(0), cols) =~= fixed);
    while i < outs.len()
        invariant
            i <= outs@.len(),
            outs == message.outputs,
            cols == texts(dynamic@),
            texts(row@) == fixed + csv_value_cells(outs@.take(i as int), cols),
        decreases outs@.len() - i,
    {
        assert(outs@.take(i + 1).drop_last() =~= outs@.take(i as int));
        assert(outs@.take(i + 1).last() == outs@[i as int]);
        match &outs[i] {
            DecodedField::Value { title, value, unit, .. } => {
                if has_text(dynamic, title) {
                    let mut d = String::new();
                    push_plain_value(&mut d, value, title.as_str());
                    push_unit(&mut d, unit);
                    push_part(&mut row, quoted(d.as_str()));
                } else {
                    push_part(&mut row, String::new());
                }
            },
            DecodedField::StringMessage { .. } => {},
        }
        proof {
            let p = csv_value_cells(outs@.take(i as int), cols);
            let x = csv_value_cell(outs@[i as int], cols);
            assert(fixed + p.push(x) =~= (fixed + p).push(x));
        }
        i = i + 1;
    }
    assert(outs@.take(outs@.len() as int) =~= outs@);
    join_parts(&row, ",")
}

impl Default for CsvRenderer {
    fn default() -> (r: Self)
        ensures
            r.columns() == Map::<u32, Seq<Seq<char>>>::empty(),
    {
        CsvRenderer::new()
    }
}

// ─── What the CSV columns keep ───────────────────────────────────────────────

/// No entry occurs twice.
pub open spec fn no_repeats(s: Seq<Seq<char>>) -> bool {
    forall|i: int, j: int| 0 <= i < j < s.len() ==> s[i] != s[j]
}

proof fn lemma_push_new_keeps(s: Seq<Seq<char>>, x: Seq<char>)
    requires
        no_repeats(s),
        !s.contains(x),
    ensures
        no_repeats(s.push(x)),
{
    assert forall|i: int, j: int| 0 <= i < j < s.push(x).len() implies s.push(x)[i] != s.push(x)[j] by {
        if j == s.len() {
            assert(s[i] == s.push(x)[i]);
        }
    }
}

proof fn lemma_add_known(d: Seq<Seq<char>>, known: Seq<Seq<char>>, t: Seq<char>)
    requires
        no_repeats(d),
    ensures
        no_repeats(add_known(d, known, t)),
        forall|x: Seq<char>| d.contains(x) ==> #[trigger] add_known(d, known, t).contains(x),
    decreases known.len(),
{
    if known.len() > 0 {
        lemma_add_known(d, known.drop_last(), t);
        let d1 = add_known(d, known.drop_last(), t);
        let col = known.last();
        if !d1.contains(col) && col != t {
            lemma_push_new_keeps(d1, col);
            assert forall|x: Seq<char>| d.contains(x) implies #[trigger] d1.push(col).contains(x) by {
                assert(d1.contains(x));
                let k = choose|k: int| 0 <= k < d1.len() && d1[k] == x;
                assert(d1.push(col)[k] == x);
            }
        }
    }
}

/// What every state of the column computation keeps: no repeated column, and no column
/// before the PGN has known columns.
pub open spec fn column_state_ok(state: (Seq<Seq<char>>, Option<Seq<Seq<char>>>)) -> bool {
    no_repeats(state.0) && (state.1 is None ==> state.0.len() == 0)
}

proof fn lemma_column_step(state: (Seq<Seq<char>>, Option<Seq<Seq<char>>>), f: DecodedField)
    requires
        column_state_ok(state),
    ensures
        column_state_ok(column_step(state, f)),
        forall|x: Seq<char>| state.0.contains(x) ==> #[trigger] column_step(state, f).0.contains(x),
        f matches DecodedField::Value { title, .. } ==> column_step(state, f).0.contains(title@),
{
    match f {
        DecodedField::Value { title, .. } => {
            let t = title@;
            let d1 = match state.1 {
                Some(known) => add_known(state.0, known, t),
                None => state.0.push(t),
            };
            match state.1 {
                Some(known) => {
                    lemma_add_known(state.0, known, t);
                },
                None => {
                    assert(no_repeats(d1));
                    assert(d1[0] == t);
                },
            }
            if !d1.contains(t) {
                lemma_push_new_keeps(d1, t);
                assert(d1.push(t)[d1.len() as int] == t);
                assert forall|x: Seq<char>| d1.contains(x) implies #[trigger] d1.push(t).contains(x) by {
                    let k = choose|k: int| 0 <= k < d1.len() && d1[k] == x;
                    assert(d1.push(t)[k] == x);
                }
            }
            assert forall|x: Seq<char>| state.0.contains(x) implies #[trigger] column_step(
                state,
                f,
            ).0.contains(x) by {
                match state.1 {
                    Some(known) => {
                        assert(d1.contains(x));
                    },
                    None => {
                        assert(state.0.len() == 0);
                    },
                }
            }
        },
        _ => {},
    }
}

/// Every value's title among the outputs is one of the message's CSV columns, and no column
/// occurs twice, whatever columns the PGN had before.
pub proof fn lemma_csv_columns_cover_values(known: Option<Seq<Seq<char>>>, outs: Seq<DecodedField>)
    ensures
        no_repeats(csv_columns(known, outs)),
        forall|j: int|
            0 <= j < outs.len() ==> (#[trigger] outs[j] matches DecodedField::Value { title, .. }
                ==> csv_columns(known, outs).contains(title@)),
{
    lemma_columns_after(known, outs);
}

proof fn lemma_columns_after(known: Option<Seq<Seq<char>>>, outs: Seq<DecodedField>)
    ensures
        column_state_ok(columns_after((Seq::empty(), known), outs)),
        forall|j: int|
            0 <= j < outs.len() ==> (#[trigger] outs[j] matches DecodedField::Value { title, .. }
                ==> columns_after((Seq::empty(), known), outs).0.contains(title@)),
    decreases outs.len(),
{
    if outs.len() > 0 {
        let pre = outs.drop_last();
        lemma_columns_after(known, pre);
        let st = columns_after((Seq::empty(), known), pre);
        lemma_column_step(st, outs.last());
        assert forall|j: int|
            0 <= j < outs.len() implies (#[trigger] outs[j] matches DecodedField::Value { title, .. }
                ==> columns_after((Seq::empty(), known), outs).0.contains(title@)) by {
            if j < outs.len() - 1 {
                assert(outs[j] == pre[j]);
                match outs[j] {
                    DecodedField::Value { title, .. } => {
                        assert(st.0.contains(title@));
                    },
                    _ => {},
                }
            }
        }
    }
}

} // verus!
