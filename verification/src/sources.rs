//! Frame sources: the names of the live-bus and capture-file sources, and the line format
//! of candump capture files (`(sec.usec) iface can_id#data`).
use vstd::prelude::*;
use crate::numparse::{is_ws, trim, radix_result, trim_chars, is_whitespace, parse_radix_checked, all_digits, digits_value, is_digit};
use crate::text::{utf8_len, find_first, find_first_char, find_char, slice_vec, str_chars, char_utf8_len, push_str, first_index_of, dec_str, hex_str, pad_left};
use crate::formats::byte_hex;
use crate::renderers::bytes_hex;
use crate::types::{RawFrame, id_priority, id_pdu_specific, id_source};

verus! {

// ─── The line format ─────────────────────────────────────────────────────────

/// What one line of a capture file holds: nothing to read (blank, comment or malformed),
/// a frame (time in microseconds, identifier, payload), or text on which the reader faults
/// (a cut that falls inside a character or past the end, or a time beyond 64 bits).
pub enum CandumpLine {
    Skipped,
    Frame(u64, u32, Seq<u8>),
    Fault,
}

/// Whether `c` is a one-byte (ASCII) character.
pub open spec fn is_ascii_char(c: char) -> bool {
    (c as u32) < 0x80
}

/// The byte that `p` spells in hexadecimal (std's `u8::from_str_radix(p, 16)`), as a
/// sequence of one byte, or of none when `p` spells no byte.
pub open spec fn hex_byte(p: Seq<char>) -> Seq<u8> {
    match radix_result(p, 16, 255) {
        Ok(v) => seq![v as u8],
        Err(_) => Seq::empty(),
    }
}

/// Payload bytes of whitespace-separated hexadecimal tokens: each token that spells a byte
/// gives one, the others give none. `cur` is the part of a token read before `s`.
pub open spec fn spaced_hex(s: Seq<char>, cur: Seq<char>) -> Seq<u8>
    decreases s.len(),
{
    if s.len() == 0 {
        hex_byte(cur)
    } else if is_ws(s[0]) {
        hex_byte(cur) + spaced_hex(s.drop_first(), Seq::empty())
    } else {
        spaced_hex(s.drop_first(), cur.push(s[0]))
    }
}

/// Payload bytes of an unbroken hexadecimal string read two bytes of text at a time (a
/// trailing single byte is dropped); `None` where such a cut falls inside a character.
pub open spec fn paired_hex(d: Seq<char>) -> Option<Seq<u8>>
    decreases d.len(),
{
    if d.len() == 0 {
        Some(Seq::empty())
    } else if utf8_len(d[0]) == 1 {
        if d.len() == 1 {
            Some(Seq::empty())
        } else if utf8_len(d[1]) == 1 {
            match paired_hex(d.skip(2)) {
                Some(rest) => Some(hex_byte(d.take(2)) + rest),
                None => None,
            }
        } else {
            None
        }
    } else if utf8_len(d[0]) == 2 {
        paired_hex(d.skip(1))
    } else {
        None
    }
}

/// Payload bytes of the text after `#`: token by token when it holds a space, else in
/// pairs.
pub open spec fn payload_bytes(d: Seq<char>) -> Option<Seq<u8>> {
    if d.contains(' ') {
        Some(spaced_hex(d, Seq::empty()))
    } else {
        paired_hex(d)
    }
}

/// The two sides of the only dot in `ts`; `None` unless `ts` holds exactly one dot.
pub open spec fn split_at_dot(ts: Seq<char>) -> Option<(Seq<char>, Seq<char>)> {
    match find_first(ts, '.') {
        Some(p) => if find_first(ts.skip(p + 1), '.') is None {
            Some((ts.take(p), ts.skip(p + 1)))
        } else {
            None
        },
        None => None,
    }
}

/// Time, identifier and payload read from their texts.
pub open spec fn frame_fields(ts: Seq<char>, id_text: Seq<char>, data_text: Seq<char>) -> CandumpLine {
    match split_at_dot(ts) {
        None => CandumpLine::Skipped,
        Some((s, u)) => match (radix_result(s, 10, u64::MAX as nat), radix_result(u, 10, u64::MAX as nat)) {
            (Ok(sec), Ok(usec)) => {
                let time = sec * 1000000 + usec % 1000000;
                if time > u64::MAX {
                    CandumpLine::Fault
                } else {
                    match radix_result(trim(id_text), 16, u32::MAX as nat) {
                        Err(_) => CandumpLine::Skipped,
                        Ok(id) => match payload_bytes(data_text) {
                            None => CandumpLine::Fault,
                            Some(b) => CandumpLine::Frame(time as u64, id as u32, b),
                        },
                    }
                }
            },
            _ => CandumpLine::Skipped,
        },
    }
}

/// The fields after `(time)`: an interface name, a space, then `id#data`.
pub open spec fn after_time(ts: Seq<char>, rest: Seq<char>) -> CandumpLine {
    match find_first(rest, ' ') {
        None => CandumpLine::Skipped,
        Some(sp) => {
            let id_data = rest.skip(sp + 1);
            match find_first(id_data, '#') {
                None => CandumpLine::Skipped,
                Some(h) => frame_fields(ts, id_data.take(h), id_data.skip(h + 1)),
            }
        },
    }
}

/// What a line of a capture file holds. The line is trimmed; blank lines and lines that
/// start with `#` hold nothing. The time sits between the first `(` and the first `)`;
/// the text after `)` and one more character is the rest.
pub open spec fn candump_line(line: Seq<char>) -> CandumpLine {
    let t = trim(line);
    if t.len() == 0 || t[0] == '#' {
        CandumpLine::Skipped
    } else {
        match (find_first(t, '('), find_first(t, ')')) {
            (Some(o), Some(c)) => if c < o || c + 1 >= t.len() || !is_ascii_char(t[c + 1]) {
                CandumpLine::Fault
            } else {
                after_time(t.subrange(o + 1, c), t.skip(c + 2))
            },
            _ => CandumpLine::Skipped,
        }
    }
}

/// What reading a line gave.
#[derive(Debug, Clone, PartialEq, Eq)]
pub enum LineOutcome {
    /// Blank, comment, or not a frame.
    Skipped,
    /// A frame.
    Parsed(RawFrame),
    /// The line cannot be cut apart as the format describes (see `CandumpLine::Fault`).
    Fault,
}

/// Whether an outcome is what the format says of the line.
pub open spec fn outcome_matches(r: LineOutcome, line: Seq<char>) -> bool {
    match r {
        LineOutcome::Skipped => candump_line(line) is Skipped,
        LineOutcome::Fault => candump_line(line) is Fault,
        LineOutcome::Parsed(f) => candump_line(line) == CandumpLine::Frame(f.timestamp, f.can_id, f.data@),
    }
}

fn hex_byte_of(p: &[char]) -> (r: Vec<u8>)
    ensures
        r@ == hex_byte(p@),
{
    let mut r: Vec<u8> = Vec::new();
    match parse_radix_checked(p, 16, 255) {
        Ok(v) => {
            r.push(v as u8);
        },
        Err(_) => {},
    }
    proof {
        match radix_result(p@, 16, 255) {
            Ok(v) => assert(r@ =~= seq![v as u8]),
            Err(_) => assert(r@ =~= Seq::<u8>::empty()),
        }
    }
    r
}

fn spaced_bytes(d: &[char]) -> (r: Vec<u8>)
    ensures
        r@ == spaced_hex(d@, Seq::empty()),
{
    let mut out: Vec<u8> = Vec::new();
    let mut cur: Vec<char> = Vec::new();
    let mut i: usize = 0;
    assert(d@.skip(0) =~= d@);
    while i < d.len()
        invariant
            i <= d@.len(),
            out@ + spaced_hex(d@.skip(i as int), cur@) == spaced_hex(d@, Seq::empty()),
        decreases d@.len() - i,
    {
        let ghost s = d@.skip(i as int);
        assert(s.drop_first() =~= d@.skip(i + 1));
        assert(s[0] == d@[i as int]);
        if is_whitespace(d[i]) {
            let hb = hex_byte_of(&cur);
            assert(out@ + (hb@ + spaced_hex(s.drop_first(), Seq::empty())) =~= (out@ + hb@)
                + spaced_hex(s.drop_first(), Seq::empty()));
            out.extend_from_slice(&hb);
            cur = Vec::new();
            assert(cur@ =~= Seq::<char>::empty());
        } else {
            cur.push(d[i]);
        }
        i = i + 1;
    }
    assert(d@.skip(i as int) =~= Seq::<char>::empty());
    let hb = hex_byte_of(&cur);
    out.extend_from_slice(&hb);
    out
}

/// `prefix` put before a payload that may be missing.
pub open spec fn prepend_bytes(prefix: Seq<u8>, rest: Option<Seq<u8>>) -> Option<Seq<u8>> {
    match rest {
        Some(b) => Some(prefix + b),
        None => None,
    }
}

fn paired_bytes(d: &[char]) -> (r: Option<Vec<u8>>)
    ensures
        match r {
            Some(v) => paired_hex(d@) == Some(v@),
            None => paired_hex(d@) is None,
        },
{
    let n = d.len();
    let mut out: Vec<u8> = Vec::new();
    let mut i: usize = 0;
    assert(d@.skip(0) =~= d@);
    assert(out@ + Seq::<u8>::empty() =~= out@);
    while i < n
        invariant
            i <= n == d@.len(),
            paired_hex(d@) == prepend_bytes(out@, paired_hex(d@.skip(i as int))),
        decreases n - i,
    {
        let ghost s = d@.skip(i as int);
        assert(s[0] == d@[i as int]);
        let l0 = char_utf8_len(d[i]);
        if l0 == 1 {
            if i + 1 == n {
                assert(s.len() == 1);
                assert(out@ + Seq::<u8>::empty() =~= out@);
                return Some(out);
            }
            assert(s[1] == d@[i + 1]);
            let l1 = char_utf8_len(d[i + 1]);
            if l1 != 1 {
                return None;
            }
            let pair = slice_vec(d, i, i + 2);
            assert(pair@ =~= s.take(2));
            assert(s.skip(2) =~= d@.skip(i + 2));
            let hb = hex_byte_of(&pair);
            proof {
                match paired_hex(d@.skip(i + 2)) {
                    Some(b) => assert(out@ + (hb@ + b) =~= (out@ + hb@) + b),
                    None => {},
                }
            }
            out.extend_from_slice(&hb);
            i = i + 2;
        } else if l0 == 2 {
            assert(s.skip(1) =~= d@.skip(i + 1));
            i = i + 1;
        } else {
            return None;
        }
    }
    assert(d@.skip(i as int) =~= Seq::<char>::empty());
    assert(out@ + Seq::<u8>::empty() =~= out@);
    Some(out)
}

fn payload(d: &[char]) -> (r: Option<Vec<u8>>)
    ensures
        match r {
            Some(v) => payload_bytes(d@) == Some(v@),
            None => payload_bytes(d@) is None,
        },
{
    match find_char(d, ' ') {
        Some(k) => {
            assert(d@[k as int] == ' ');
            Some(spaced_bytes(d))
        },
        None => {
            assert(!d@.contains(' '));
            paired_bytes(d)
        },
    }
}

fn fields(ts: &[char], id_text: &[char], data_text: &[char]) -> (r: LineOutcome)
    ensures
        match r {
            LineOutcome::Skipped => frame_fields(ts@, id_text@, data_text@) is Skipped,
            LineOutcome::Fault => frame_fields(ts@, id_text@, data_text@) is Fault,
            LineOutcome::Parsed(f) => frame_fields(ts@, id_text@, data_text@) == CandumpLine::Frame(
                f.timestamp,
                f.can_id,
                f.data@,
            ),
        },
{
    let p = match find_first_char(ts, '.') {
        Some(p) => p,
        None => return LineOutcome::Skipped,
    };
    let after = slice_vec(ts, p + 1, ts.len());
    assert(after@ =~= ts@.skip(p + 1));
    if find_first_char(&after, '.').is_some() {
        return LineOutcome::Skipped;
    }
    let sec_text = slice_vec(ts, 0, p);
    assert(sec_text@ =~= ts@.take(p as int));
    let sec = match parse_radix_checked(&sec_text, 10, u64::MAX) {
        Ok(v) => v,
        Err(_) => return LineOutcome::Skipped,
    };
    let usec = match parse_radix_checked(&after, 10, u64::MAX) {
        Ok(v) => v,
        Err(_) => return LineOutcome::Skipped,
    };
    let time = match sec.checked_mul(1_000_000) {
        Some(m) => match m.checked_add(usec % 1_000_000) {
            Some(t) => t,
            None => return LineOutcome::Fault,
        },
        None => return LineOutcome::Fault,
    };
    let id_trimmed = trim_chars(id_text);
    let can_id = match parse_radix_checked(&id_trimmed, 16, 0xFFFF_FFFF) {
        Ok(v) => v as u32,
        Err(_) => return LineOutcome::Skipped,
    };
    match payload(data_text) {
        Some(bytes) => LineOutcome::Parsed(RawFrame::new(can_id, bytes, time)),
        None => LineOutcome::Fault,
    }
}

/// Reads one line of a capture file, telling a frame from a line with nothing to read and
/// from a line the format cannot cut apart.
pub fn classify_line(line: &str) -> (r: LineOutcome)
    ensures
        outcome_matches(r, line@),
{
    let chars = str_chars(line);
    let t = trim_chars(&chars);
    if t.len() == 0 || t[0] == '#' {
        return LineOutcome::Skipped;
    }
    let o = match find_first_char(&t, '(') {
        Some(o) => o,
        None => return LineOutcome::Skipped,
    };
    let c = match find_first_char(&t, ')') {
        Some(c) => c,
        None => return LineOutcome::Skipped,
    };
    if c < o || c + 1 >= t.len() || (t[c + 1] as u32) >= 0x80 {
        return LineOutcome::Fault;
    }
    let ts = slice_vec(&t, o + 1, c);
    let rest = slice_vec(&t, c + 2, t.len());
    assert(rest@ =~= t@.skip(c + 2));
    let sp = match find_first_char(&rest, ' ') {
        Some(sp) => sp,
        None => return LineOutcome::Skipped,
    };
    let id_data = slice_vec(&rest, sp + 1, rest.len());
    assert(id_data@ =~= rest@.skip(sp + 1));
    let h = match find_first_char(&id_data, '#') {
        Some(h) => h,
        None => return LineOutcome::Skipped,
    };
    let id_text = slice_vec(&id_data, 0, h);
    assert(id_text@ =~= id_data@.take(h as int));
    let data_text = slice_vec(&id_data, h + 1, id_data.len());
    assert(data_text@ =~= id_data@.skip(h + 1));
    fields(&ts, &id_text, &data_text)
}

// ─── Writing a frame in the format reads back ────────────────────────────────

/// A frame in the capture format: `(sec.usec) iface ID#DATA`, the microseconds zero-padded
/// to six digits, the identifier and each payload byte in uppercase hex.
pub open spec fn candump_text(sec: nat, usec: nat, iface: Seq<char>, id: u32, data: Seq<u8>) -> Seq<char> {
    seq!['('] + dec_str(sec) + seq!['.'] + pad_left(dec_str(usec), 6, '0') + seq![')', ' '] + iface
        + seq![' '] + hex_str(id as nat, true) + seq!['#'] + bytes_hex(data)
}

proof fn lemma_find_first_at(s: Seq<char>, c: char, i: int)
    requires
        first_index_of(s, c, i),
    ensures
        find_first(s, c) == Some(i),
{
    let j = choose|j: int| first_index_of(s, c, j);
    assert(first_index_of(s, c, j));
    if j < i {
        assert(s[j] != c);
    }
    if i < j {
        assert(s[i] != c);
    }
}

proof fn lemma_find_first_none(s: Seq<char>, c: char)
    requires
        forall|k: int| 0 <= k < s.len() ==> s[k] != c,
    ensures
        find_first(s, c) is None,
{
}

/// Two hex digits of a byte: ASCII, and they parse back as the byte.
proof fn lemma_byte_hex(b: u8)
    ensures
        byte_hex(b).len() == 2,
        all_digits(byte_hex(b), 16),
        radix_result(byte_hex(b), 16, 255) == Ok::<nat, crate::numparse::IntErrorKind>(b as nat),
        utf8_len(byte_hex(b)[0]) == 1 && utf8_len(byte_hex(b)[1]) == 1,
{
    crate::numparse::lemma_padded_hex(b as nat, 2);
    reveal_with_fuel(hex_str, 3);
    assert(hex_str(b as nat, true).len() <= 2);
    crate::numparse::lemma_radix_result_digits(byte_hex(b), 16, 255);
    crate::numparse::lemma_digit_is_plain(byte_hex(b)[0], 16);
    crate::numparse::lemma_digit_is_plain(byte_hex(b)[1], 16);
}

proof fn lemma_bytes_hex_cons(b: u8, rest: Seq<u8>)
    ensures
        bytes_hex(seq![b] + rest) == byte_hex(b) + bytes_hex(rest),
    decreases rest.len(),
{
    if rest.len() == 0 {
        assert(seq![b] + rest =~= seq![b]);
        assert(seq![b].drop_last() =~= Seq::<u8>::empty());
        assert(seq![b].last() == b);
        assert(bytes_hex(Seq::<u8>::empty()) =~= Seq::<char>::empty());
        assert(bytes_hex(seq![b]) =~= byte_hex(b));
        assert(byte_hex(b) + bytes_hex(rest) =~= byte_hex(b));
    } else {
        lemma_bytes_hex_cons(b, rest.drop_last());
        assert((seq![b] + rest).drop_last() =~= seq![b] + rest.drop_last());
        assert(byte_hex(b) + bytes_hex(rest) =~= byte_hex(b) + bytes_hex(rest.drop_last()) + byte_hex(
            rest.last(),
        ));
    }
}

/// Hex payload text holds only hex digits.
proof fn lemma_bytes_hex_digits(data: Seq<u8>)
    ensures
        all_digits(bytes_hex(data), 16),
    decreases data.len(),
{
    if data.len() > 0 {
        lemma_bytes_hex_digits(data.drop_last());
        lemma_byte_hex(data.last());
        let p = bytes_hex(data.drop_last());
        let q = byte_hex(data.last());
        assert forall|i: int| 0 <= i < (p + q).len() implies is_digit(#[trigger] (p + q)[i], 16) by {
            if i < p.len() {
                assert((p + q)[i] == p[i]);
            } else {
                assert((p + q)[i] == q[i - p.len()]);
            }
        }
    }
}

/// The hex payload text reads back, two characters at a time, as the payload.
proof fn lemma_paired_bytes_hex(data: Seq<u8>)
    ensures
        paired_hex(bytes_hex(data)) == Some(data),
    decreases data.len(),
{
    if data.len() == 0 {
        assert(bytes_hex(data) =~= Seq::<char>::empty());
    } else {
        let b = data[0];
        let rest = data.drop_first();
        assert(data =~= seq![b] + rest);
        lemma_bytes_hex_cons(b, rest);
        lemma_byte_hex(b);
        lemma_paired_bytes_hex(rest);
        let d = byte_hex(b) + bytes_hex(rest);
        assert(d[0] == byte_hex(b)[0] && d[1] == byte_hex(b)[1]);
        assert(d.take(2) =~= byte_hex(b));
        assert(d.skip(2) =~= bytes_hex(rest));
        assert(hex_byte(byte_hex(b)) =~= seq![b]);
        assert(seq![b] + rest =~= data);
    }
}

/// Decimal and hexadecimal digits hold none of the format's punctuation.
proof fn lemma_texts_plain(sec: nat, usec: nat, id: u32, data: Seq<u8>)
    ensures
        forall|i: int| 0 <= i < dec_str(sec).len() ==> #[trigger] dec_str(sec)[i] != ')' && dec_str(sec)[i]
            != '.' && dec_str(sec)[i] != '(',
        forall|i: int| 0 <= i < pad_left(dec_str(usec), 6, '0').len() ==> #[trigger] pad_left(
            dec_str(usec),
            6,
            '0',
        )[i] != ')' && pad_left(dec_str(usec), 6, '0')[i] != '.' && pad_left(dec_str(usec), 6, '0')[i]
            != '(',
        forall|i: int| 0 <= i < hex_str(id as nat, true).len() ==> #[trigger] hex_str(id as nat, true)[i]
            != '#' && !is_ws(hex_str(id as nat, true)[i]),
        forall|i: int| 0 <= i < bytes_hex(data).len() ==> #[trigger] bytes_hex(data)[i] != ' ' && !is_ws(
            bytes_hex(data)[i],
        ),
{
    let a = dec_str(sec);
    let u = pad_left(dec_str(usec), 6, '0');
    let h = hex_str(id as nat, true);
    let d = bytes_hex(data);
    crate::numparse::lemma_dec_str_value(sec);
    crate::numparse::lemma_padded_dec(usec, 6);
    crate::numparse::lemma_hex_str_value(id as nat, true);
    lemma_bytes_hex_digits(data);
    assert forall|i: int| 0 <= i < a.len() implies #[trigger] a[i] != ')' && a[i] != '.' && a[i] != '(' by {
        crate::numparse::lemma_digit_is_plain(a[i], 10);
    }
    assert forall|i: int| 0 <= i < u.len() implies #[trigger] u[i] != ')' && u[i] != '.' && u[i] != '(' by {
        crate::numparse::lemma_digit_is_plain(u[i], 10);
    }
    assert forall|i: int| 0 <= i < h.len() implies #[trigger] h[i] != '#' && !is_ws(h[i]) by {
        crate::numparse::lemma_digit_is_plain(h[i], 16);
    }
    assert forall|i: int| 0 <= i < d.len() implies #[trigger] d[i] != ' ' && !is_ws(d[i]) by {
        crate::numparse::lemma_digit_is_plain(d[i], 16);
    }
}

/// The time text `sec.usec` reads back as `sec * 10^6 + usec`.
proof fn lemma_time_reads_back(sec: nat, usec: nat)
    requires
        usec < 1_000_000,
        sec * 1_000_000 + usec <= u64::MAX,
    ensures
        split_at_dot(dec_str(sec) + seq!['.'] + pad_left(dec_str(usec), 6, '0')) == Some(
            (dec_str(sec), pad_left(dec_str(usec), 6, '0')),
        ),
        radix_result(dec_str(sec), 10, u64::MAX as nat) == Ok::<nat, crate::numparse::IntErrorKind>(sec),
        radix_result(pad_left(dec_str(usec), 6, '0'), 10, u64::MAX as nat) == Ok::<
            nat,
            crate::numparse::IntErrorKind,
        >(usec),
{
    let a = dec_str(sec);
    let u = pad_left(dec_str(usec), 6, '0');
    let ts = a + seq!['.'] + u;
    lemma_texts_plain(sec, usec, 0, Seq::empty());
    crate::numparse::lemma_dec_str_value(sec);
    crate::numparse::lemma_padded_dec(usec, 6);
    assert forall|k: int| 0 <= k < a.len() implies ts[k] != '.' by {
        assert(ts[k] == a[k]);
    }
    assert(ts[a.len() as int] == '.');
    assert(first_index_of(ts, '.', a.len() as int));
    lemma_find_first_at(ts, '.', a.len() as int);
    assert(ts.skip(a.len() as int + 1) =~= u);
    assert(ts.take(a.len() as int) =~= a);
    lemma_find_first_none(u, '.');
    assert(sec <= u64::MAX);
    crate::numparse::lemma_radix_result_digits(a, 10, u64::MAX as nat);
    crate::numparse::lemma_radix_result_digits(u, 10, u64::MAX as nat);
}

/// The fields after the time: interface, identifier and payload read back.
proof fn lemma_fields_read_back(sec: nat, usec: nat, iface: Seq<char>, id: u32, data: Seq<u8>)
    requires
        usec < 1_000_000,
        sec * 1_000_000 + usec <= u64::MAX,
        !iface.contains(' '),
    ensures
        after_time(
            dec_str(sec) + seq!['.'] + pad_left(dec_str(usec), 6, '0'),
            iface + seq![' '] + hex_str(id as nat, true) + seq!['#'] + bytes_hex(data),
        ) == CandumpLine::Frame((sec * 1_000_000 + usec) as u64, id, data),
{
    let h = hex_str(id as nat, true);
    let d = bytes_hex(data);
    let ts = dec_str(sec) + seq!['.'] + pad_left(dec_str(usec), 6, '0');
    let rest = iface + seq![' '] + h + seq!['#'] + d;
    lemma_texts_plain(sec, usec, id, data);
    assert(rest[iface.len() as int] == ' ');
    assert forall|k: int| 0 <= k < iface.len() implies rest[k] != ' ' by {
        assert(rest[k] == iface[k]);
    }
    assert(first_index_of(rest, ' ', iface.len() as int));
    lemma_find_first_at(rest, ' ', iface.len() as int);
    let id_data = h + seq!['#'] + d;
    assert(rest.skip(iface.len() as int + 1) =~= id_data);
    assert forall|k: int| 0 <= k < h.len() implies id_data[k] != '#' by {
        assert(id_data[k] == h[k]);
    }
    assert(id_data[h.len() as int] == '#');
    assert(first_index_of(id_data, '#', h.len() as int));
    lemma_find_first_at(id_data, '#', h.len() as int);
    assert(id_data.take(h.len() as int) =~= h);
    assert(id_data.skip(h.len() as int + 1) =~= d);
    lemma_time_reads_back(sec, usec);
    crate::numparse::lemma_hex_str_value(id as nat, true);
    assert(!is_ws(h[0]) && !is_ws(h.last()));
    crate::numparse::lemma_trim_unchanged(h);
    crate::numparse::lemma_radix_result_digits(h, 16, u32::MAX as nat);
    assert(!d.contains(' '));
    lemma_paired_bytes_hex(data);
    assert(usec % 1_000_000 == usec);
}

/// A frame written in the capture format reads back as that frame: its time
/// `sec * 10^6 + usec`, its identifier and its payload, whatever the interface name, so long
/// as the name holds no space.
pub proof fn lemma_candump_round_trip(sec: nat, usec: nat, iface: Seq<char>, id: u32, data: Seq<u8>)
    requires
        usec < 1_000_000,
        sec * 1_000_000 + usec <= u64::MAX,
        !iface.contains(' '),
    ensures
        candump_line(candump_text(sec, usec, iface, id, data)) == CandumpLine::Frame(
            (sec * 1_000_000 + usec) as u64,
            id,
            data,
        ),
{
    let h = hex_str(id as nat, true);
    let d = bytes_hex(data);
    let ts = dec_str(sec) + seq!['.'] + pad_left(dec_str(usec), 6, '0');
    let rest = iface + seq![' '] + h + seq!['#'] + d;
    let line = candump_text(sec, usec, iface, id, data);
    lemma_texts_plain(sec, usec, id, data);
    assert(line =~= seq!['('] + ts + seq![')', ' '] + rest);
    let c: int = ts.len() as int + 1;
    assert(line[0] == '(');
    if d.len() > 0 {
        assert(line.last() == d.last());
    } else {
        assert(line.last() == '#');
    }
    crate::numparse::lemma_trim_unchanged(line);
    let a = dec_str(sec);
    let u = pad_left(dec_str(usec), 6, '0');
    assert forall|i: int| 0 <= i < ts.len() implies #[trigger] ts[i] != ')' && ts[i] != '(' by {
        if i < a.len() {
            assert(ts[i] == a[i]);
        } else if i > a.len() {
            assert(ts[i] == u[i - a.len() - 1]);
        }
    }
    assert(first_index_of(line, '(', 0));
    assert forall|k: int| 0 <= k < c implies line[k] != ')' by {
        if k > 0 {
            assert(line[k] == ts[k - 1]);
        }
    }
    assert(line[c] == ')');
    assert(first_index_of(line, ')', c));
    lemma_find_first_at(line, '(', 0);
    lemma_find_first_at(line, ')', c);
    assert(line[c + 1] == ' ');
    assert(line.subrange(1, c) =~= ts);
    assert(line.skip(c + 2) =~= rest);
    lemma_fields_read_back(sec, usec, iface, id, data);
}

// ─── Sources ─────────────────────────────────────────────────────────────────

/// Frames read from a candump capture file.
pub struct CandumpFileSource {
    name: String,
    input_file: String,
}

impl CandumpFileSource {
    /// A source for the file at `input_file`, named `candump:` and the path.
    pub fn new(input_file: &str) -> (r: Self)
        ensures
            r.name()@ == "candump:"@ + input_file@,
            r.input_file()@ == input_file@,
    {
        let mut name = String::from_str("candump:");
        push_str(&mut name, input_file);
        CandumpFileSource { name, input_file: String::from_str(input_file) }
    }

    /// The source's name.
    pub closed spec fn name(&self) -> String {
        self.name
    }

    /// The path of the capture file.
    pub closed spec fn input_file(&self) -> String {
        self.input_file
    }

    /// The source's name.
    pub fn get_name(&self) -> (r: &str)
        ensures
            r@ == self.name()@,
    {
        self.name.as_str()
    }

    /// The path of the capture file.
    pub fn get_input_file(&self) -> (r: &str)
        ensures
            r@ == self.input_file()@,
    {
        self.input_file.as_str()
    }

    /// The frame a capture-file line holds, if any: blank lines, comments and malformed
    /// lines give `None`.
    pub fn parse_line(line: &str) -> (r: Option<RawFrame>)
        ensures
            r is None <==> !(candump_line(line@) is Frame),
            r matches Some(f) ==> candump_line(line@) == CandumpLine::Frame(f.timestamp, f.can_id, f.data@),
    {
        match classify_line(line) {
            LineOutcome::Parsed(f) => Some(f),
            _ => None,
        }
    }
}

/// Frames read live from a SocketCAN interface.
pub struct SocketCanSource {
    name: String,
    iface: String,
}

impl SocketCanSource {
    /// A source for the interface `iface` (such as `can0`), named `socketcan:` and the
    /// interface.
    pub fn new(iface: &str) -> (r: Self)
        ensures
            r.name()@ == "socketcan:"@ + iface@,
            r.iface()@ == iface@,
    {
        let mut name = String::from_str("socketcan:");
        push_str(&mut name, iface);
        SocketCanSource { name, iface: String::from_str(iface) }
    }

    /// The source's name.
    pub closed spec fn name(&self) -> String {
        self.name
    }

    /// The interface the source reads.
    pub closed spec fn iface(&self) -> String {
        self.iface
    }

    /// The source's name.
    pub fn get_name(&self) -> (r: &str)
        ensures
            r@ == self.name()@,
    {
        self.name.as_str()
    }

    /// The interface the source reads.
    pub fn get_iface(&self) -> (r: &str)
        ensures
            r@ == self.iface()@,
    {
        self.iface.as_str()
    }

    /// Identifier of the request for all address claims that a live source sends when it
    /// starts: priority 6 above the request PGN 0xEA00 taken as the low 21 bits, so the
    /// identifier's PF byte is 0x00, its PS byte 0xEA and its source address 0x00.
    pub fn request_all_address_claims_id() -> (r: u32)
        ensures
            r == (6u32 << 26u32) | (0xEA00u32 & 0x1F_FFFFu32),
            r == 0x1800_EA00u32,
            id_priority(r) == 6,
            id_pdu_specific(r) == 0xEA,
            id_source(r) == 0,
    {
        let priority: u32 = 6;
        let pgn: u32 = 0xEA00;
        let id = (priority << 26u32) | (pgn & 0x1F_FFFFu32);
        assert(id == 0x1800_EA00u32) by (bit_vector)
            requires
                priority == 6u32,
                pgn == 0xEA00u32,
                id == (priority << 26u32) | (pgn & 0x1F_FFFFu32),
        ;
        assert(((0x1800_EA00u32 >> 26u32) & 7u32) == 6u32) by (bit_vector);
        assert(((0x1800_EA00u32 >> 8u32) & 0xFFu32) == 0xEAu32) by (bit_vector);
        assert((0x1800_EA00u32 & 0xFFu32) == 0u32) by (bit_vector);
        id
    }
}

} // verus!
