//! Whitespace trimming and parsing of unsigned integers written in decimal or hexadecimal,
//! with the syntax that std's integer parsing accepts: an optional `+`, then one or more
//! digits of the radix, the value bounded by the target type.
use vstd::prelude::*;

verus! {

// ─── Whitespace ──────────────────────────────────────────────────────────────

/// Unicode `White_Space` characters, the ones `char::is_whitespace` accepts.
pub open spec fn is_ws(c: char) -> bool {
    let v = c as u32;
    ||| 9 <= v <= 13
    ||| v == 32
    ||| v == 0x85
    ||| v == 0xA0
    ||| v == 0x1680
    ||| 0x2000 <= v <= 0x200A
    ||| v == 0x2028
    ||| v == 0x2029
    ||| v == 0x202F
    ||| v == 0x205F
    ||| v == 0x3000
}

/// `s` without its leading whitespace.
pub open spec fn trim_start(s: Seq<char>) -> Seq<char>
    decreases s.len(),
{
    if s.len() > 0 && is_ws(s[0]) {
        trim_start(s.drop_first())
    } else {
        s
    }
}

/// `s` without its trailing whitespace.
pub open spec fn trim_end(s: Seq<char>) -> Seq<char>
    decreases s.len(),
{
    if s.len() > 0 && is_ws(s.last()) {
        trim_end(s.drop_last())
    } else {
        s
    }
}

/// `s` without leading and trailing whitespace (`str::trim`).
pub open spec fn trim(s: Seq<char>) -> Seq<char> {
    trim_end(trim_start(s))
}

/// Whether `c` is whitespace.
pub fn is_whitespace(c: char) -> (r: bool)
    ensures
        r == is_ws(c),
{
    let v = c as u32;
    (9 <= v && v <= 13) || v == 32 || v == 0x85 || v == 0xA0 || v == 0x1680 || (0x2000 <= v && v
        <= 0x200A) || v == 0x2028 || v == 0x2029 || v == 0x202F || v == 0x205F || v == 0x3000
}

/// The characters of `s` without leading and trailing whitespace.
pub fn trim_chars(s: &[char]) -> (r: Vec<char>)
    ensures
        r@ == trim(s@),
{
    let n = s.len();
    let mut lo: usize = 0;
    assert(s@.subrange(0, n as int) =~= s@);
    while lo < n && is_whitespace(s[lo])
        invariant
            lo <= n == s@.len(),
            trim_start(s@) == trim_start(s@.subrange(lo as int, n as int)),
        decreases n - lo,
    {
        assert(s@.subrange(lo as int, n as int).drop_first() =~= s@.subrange(lo + 1, n as int));
        lo = lo + 1;
    }
    assert(trim_start(s@) == s@.subrange(lo as int, n as int));
    let mut hi: usize = n;
    while hi > lo && is_whitespace(s[hi - 1])
        invariant
            lo <= hi <= n == s@.len(),
            trim_end(s@.subrange(lo as int, n as int)) == trim_end(
                s@.subrange(lo as int, hi as int),
            ),
        decreases hi,
    {
        assert(s@.subrange(lo as int, hi as int).drop_last() =~= s@.subrange(
            lo as int,
            hi - 1,
        ));
        hi = hi - 1;
    }
    let mut r: Vec<char> = Vec::new();
    let mut i: usize = lo;
    while i < hi
        invariant
            lo <= i <= hi <= n == s@.len(),
            r@ == s@.subrange(lo as int, i as int),
        decreases hi - i,
    {
        r.push(s[i]);
        assert(r@ =~= s@.subrange(lo as int, i + 1));
        i = i + 1;
    }
    r
}

// ─── Digits ──────────────────────────────────────────────────────────────────

/// Value of a digit character: `0`-`9`, then `a`-`z` and `A`-`Z` from ten on; 99 for
/// anything else.
pub open spec fn char_digit(c: char) -> nat {
    let v = c as u32;
    if 48 <= v <= 57 {
        (v - 48) as nat
    } else if 97 <= v <= 122 {
        (v - 87) as nat
    } else if 65 <= v <= 90 {
        (v - 55) as nat
    } else {
        99
    }
}

/// Whether `c` is a digit of the radix.
pub open spec fn is_digit(c: char, radix: nat) -> bool {
    char_digit(c) < radix
}

/// Every character of `d` is a digit of the radix.
pub open spec fn all_digits(d: Seq<char>, radix: nat) -> bool {
    forall|i: int| 0 <= i < d.len() ==> is_digit(#[trigger] d[i], radix)
}

/// The number that the digits `d` spell in the radix, most significant first.
pub open spec fn digits_value(d: Seq<char>, radix: nat) -> nat
    decreases d.len(),
{
    if d.len() == 0 {
        0
    } else {
        digits_value(d.drop_last(), radix) * radix + char_digit(d.last())
    }
}

/// The digits of `s`, after one optional leading `+`.
pub open spec fn unsigned_digits(s: Seq<char>) -> Seq<char> {
    if s.len() > 0 && s[0] == '+' {
        s.drop_first()
    } else {
        s
    }
}

/// What an unsigned number in the radix spells, unbounded: `None` unless `s` is an optional
/// `+` followed by at least one digit.
pub open spec fn radix_value(s: Seq<char>, radix: nat) -> Option<nat> {
    let d = unsigned_digits(s);
    if d.len() > 0 && all_digits(d, radix) {
        Some(digits_value(d, radix))
    } else {
        None
    }
}

/// A value kept only when it does not exceed `max`.
pub open spec fn bounded(v: Option<nat>, max: nat) -> Option<nat> {
    match v {
        Some(x) => if x <= max {
            Some(x)
        } else {
            None
        },
        None => None,
    }
}

/// The characters after a leading `0x` or `0X`, if there is one.
pub open spec fn strip_hex_prefix(t: Seq<char>) -> Option<Seq<char>> {
    if t.len() >= 2 && t[0] == '0' && (t[1] == 'x' || t[1] == 'X') {
        Some(t.skip(2))
    } else {
        None
    }
}

/// A number in decimal, or failing that in hexadecimal after a required `0x`/`0X`.
pub open spec fn dec_or_prefixed_hex(t: Seq<char>, max: nat) -> Option<nat> {
    match bounded(radix_value(t, 10), max) {
        Some(v) => Some(v),
        None => match strip_hex_prefix(t) {
            Some(h) => bounded(radix_value(h, 16), max),
            None => None,
        },
    }
}

/// A number in decimal, or failing that in hexadecimal with an optional `0x`/`0X`.
pub open spec fn dec_or_hex(t: Seq<char>, max: nat) -> Option<nat> {
    match bounded(radix_value(t, 10), max) {
        Some(v) => Some(v),
        None => match strip_hex_prefix(t) {
            Some(h) => bounded(radix_value(h, 16), max),
            None => bounded(radix_value(t, 16), max),
        },
    }
}

fn digit_of(c: char) -> (r: u64)
    ensures
        r == char_digit(c),
{
    let v = c as u32;
    if 48 <= v && v <= 57 {
        (v - 48) as u64
    } else if 97 <= v && v <= 122 {
        (v - 87) as u64
    } else if 65 <= v && v <= 90 {
        (v - 55) as u64
    } else {
        99
    }
}

proof fn lemma_value_mono(d: Seq<char>, i: int, j: int, radix: nat)
    requires
        0 <= i <= j <= d.len(),
        radix >= 1,
    ensures
        digits_value(d.take(i), radix) <= digits_value(d.take(j), radix),
    decreases j - i,
{
    if i < j {
        lemma_value_mono(d, i, j - 1, radix);
        assert(d.take(j).drop_last() =~= d.take(j - 1));
        let p = digits_value(d.take(j - 1), radix);
        assert(p * radix >= p) by (nonlinear_arith)
            requires
                radix >= 1,
        ;
    }
}

proof fn lemma_step_fits(acc: nat, radix: nat, dv: nat, max: nat)
    requires
        radix >= 1,
    ensures
        (acc * radix + dv <= max) == (dv <= max && acc <= (max - dv) / (radix as int)),
{
    if dv <= max {
        let q = (max - dv) / (radix as int);
        assert(acc * radix + dv <= max <==> acc <= q) by (nonlinear_arith)
            requires
                radix >= 1,
                dv <= max,
                q == (max - dv) / (radix as int),
        ;
    } else {
        assert(acc * radix >= 0) by (nonlinear_arith)
            requires
                radix >= 1,
        ;
    }
}

/// Parses an optional `+` and digits of the radix, keeping values up to `max`.
pub fn parse_radix(s: &[char], radix: u64, max: u64) -> (r: Option<u64>)
    requires
        radix == 10 || radix == 16,
    ensures
        r is Some <==> bounded(radix_value(s@, radix as nat), max as nat) is Some,
        r is Some ==> r->0 == bounded(radix_value(s@, radix as nat), max as nat)->0,
{
    let n = s.len();
    let off: usize = if n > 0 && s[0] == '+' {
        1
    } else {
        0
    };
    let ghost d = unsigned_digits(s@);
    assert(d =~= s@.subrange(off as int, n as int));
    if off >= n {
        return None;
    }
    let mut acc: u64 = 0;
    let mut j: usize = off;
    while j < n
        invariant
            off <= j <= n == s@.len(),
            off < n,
            d == s@.subrange(off as int, n as int),
            d == unsigned_digits(s@),
            radix == 10 || radix == 16,
            forall|k: int| 0 <= k < j - off ==> is_digit(#[trigger] d[k], radix as nat),
            acc == digits_value(d.take(j - off), radix as nat),
            acc <= max,
        decreases n - j,
    {
        let dv = digit_of(s[j]);
        assert(d[j - off] == s@[j as int]);
        if dv >= radix {
            assert(!is_digit(d[j - off], radix as nat));
            return None;
        }
        proof {
            lemma_step_fits(acc as nat, radix as nat, dv as nat, max as nat);
            assert(d.take(j + 1 - off).drop_last() =~= d.take(j - off));
            assert(d.take(j + 1 - off).last() == d[j - off]);
            assert(digits_value(d.take(j + 1 - off), radix as nat) == acc * radix + dv);
        }
        if dv > max || acc > (max - dv) / radix {
            proof {
                if all_digits(d, radix as nat) {
                    lemma_value_mono(d, j + 1 - off, d.len() as int, radix as nat);
                    assert(d.take(d.len() as int) =~= d);
                }
            }
            return None;
        }
        proof {
            assert(acc * radix <= max) by (nonlinear_arith)
                requires
                    acc <= (max - dv) / (radix as int),
                    dv <= max,
                    radix >= 1,
            ;
        }
        acc = acc * radix + dv;
        j = j + 1;
    }
    assert(d.take(d.len() as int) =~= d);
    Some(acc)
}

/// Parses a number in decimal, or failing that in hexadecimal after a required `0x`/`0X`.
pub fn parse_dec_or_prefixed_hex(t: &[char], max: u64) -> (r: Option<u64>)
    ensures
        r is Some <==> dec_or_prefixed_hex(t@, max as nat) is Some,
        r is Some ==> r->0 == dec_or_prefixed_hex(t@, max as nat)->0,
{
    match parse_radix(t, 10, max) {
        Some(v) => Some(v),
        None => {
            if t.len() >= 2 && t[0] == '0' && (t[1] == 'x' || t[1] == 'X') {
                let h = skip_two(t);
                parse_radix(&h, 16, max)
            } else {
                None
            }
        },
    }
}

/// Parses a number in decimal, or failing that in hexadecimal with an optional `0x`/`0X`.
pub fn parse_dec_or_hex(t: &[char], max: u64) -> (r: Option<u64>)
    ensures
        r is Some <==> dec_or_hex(t@, max as nat) is Some,
        r is Some ==> r->0 == dec_or_hex(t@, max as nat)->0,
{
    match parse_radix(t, 10, max) {
        Some(v) => Some(v),
        None => {
            if t.len() >= 2 && t[0] == '0' && (t[1] == 'x' || t[1] == 'X') {
                let h = skip_two(t);
                parse_radix(&h, 16, max)
            } else {
                parse_radix(t, 16, max)
            }
        },
    }
}

fn skip_two(t: &[char]) -> (r: Vec<char>)
    requires
        t@.len() >= 2,
    ensures
        r@ == t@.skip(2),
{
    let mut r: Vec<char> = Vec::new();
    let mut i: usize = 2;
    while i < t.len()
        invariant
            2 <= i <= t@.len(),
            r@ == t@.subrange(2, i as int),
        decreases t@.len() - i,
    {
        r.push(t[i]);
        assert(r@ =~= t@.subrange(2, i + 1));
        i = i + 1;
    }
    r
}

// ─── Parsing with the reason for failure ─────────────────────────────────────

/// Why integer text was rejected (std's `IntErrorKind` for unsigned targets).
#[derive(Debug, Clone, Copy, PartialEq, Eq, Structural)]
pub enum IntErrorKind {
    /// The text is empty.
    Empty,
    /// A character is not a digit of the radix (or a sign stands alone).
    InvalidDigit,
    /// The value exceeds the target type.
    PosOverflow,
}

impl IntErrorKind {
    /// The message std prints for this failure.
    pub fn description(&self) -> (r: &'static str)
        ensures
            r@ == int_error_text(*self),
    {
        match self {
            IntErrorKind::Empty => "cannot parse integer from empty string",
            IntErrorKind::InvalidDigit => "invalid digit found in string",
            IntErrorKind::PosOverflow => "number too large to fit in target type",
        }
    }
}

/// The message std prints for a failure kind.
pub open spec fn int_error_text(k: IntErrorKind) -> Seq<char> {
    match k {
        IntErrorKind::Empty => "cannot parse integer from empty string"@,
        IntErrorKind::InvalidDigit => "invalid digit found in string"@,
        IntErrorKind::PosOverflow => "number too large to fit in target type"@,
    }
}

/// Digits read left to right, stopping at the first non-digit or at the first value above
/// `max`.
pub open spec fn digits_scan(d: Seq<char>, radix: nat, max: nat) -> Result<nat, IntErrorKind>
    decreases d.len(),
{
    if d.len() == 0 {
        Ok(0)
    } else {
        match digits_scan(d.drop_last(), radix, max) {
            Err(e) => Err(e),
            Ok(v) => if !is_digit(d.last(), radix) {
                Err(IntErrorKind::InvalidDigit)
            } else if v * radix + char_digit(d.last()) > max {
                Err(IntErrorKind::PosOverflow)
            } else {
                Ok(v * radix + char_digit(d.last()))
            },
        }
    }
}

/// What std's `from_str_radix` gives for an unsigned type whose largest value is `max`.
pub open spec fn radix_result(s: Seq<char>, radix: nat, max: nat) -> Result<nat, IntErrorKind> {
    if s.len() == 0 {
        Err(IntErrorKind::Empty)
    } else if s.len() == 1 && (s[0] == '+' || s[0] == '-') {
        Err(IntErrorKind::InvalidDigit)
    } else {
        digits_scan(unsigned_digits(s), radix, max)
    }
}

proof fn lemma_scan_err_sticks(d: Seq<char>, i: int, j: int, radix: nat, max: nat)
    requires
        0 <= i <= j <= d.len(),
        digits_scan(d.take(i), radix, max) is Err,
    ensures
        digits_scan(d.take(j), radix, max) == digits_scan(d.take(i), radix, max),
    decreases j - i,
{
    if i < j {
        lemma_scan_err_sticks(d, i, j - 1, radix, max);
        assert(d.take(j).drop_last() =~= d.take(j - 1));
    }
}

/// Parses an unsigned number in the radix up to `max`, reporting why it failed.
pub fn parse_radix_checked(s: &[char], radix: u64, max: u64) -> (r: Result<u64, IntErrorKind>)
    requires
        radix == 10 || radix == 16,
    ensures
        match r {
            Ok(v) => radix_result(s@, radix as nat, max as nat) == Ok::<nat, IntErrorKind>(v as nat),
            Err(e) => radix_result(s@, radix as nat, max as nat) == Err::<nat, IntErrorKind>(e),
        },
{
    let n = s.len();
    if n == 0 {
        return Err(IntErrorKind::Empty);
    }
    if n == 1 && (s[0] == '+' || s[0] == '-') {
        return Err(IntErrorKind::InvalidDigit);
    }
    let off: usize = if s[0] == '+' {
        1
    } else {
        0
    };
    let ghost d = unsigned_digits(s@);
    assert(d =~= s@.subrange(off as int, n as int));
    let mut acc: u64 = 0;
    let mut j: usize = off;
    assert(d.take(0) =~= Seq::<char>::empty());
    while j < n
        invariant
            off <= j <= n == s@.len(),
            d == s@.subrange(off as int, n as int),
            d == unsigned_digits(s@),
            radix == 10 || radix == 16,
            digits_scan(d.take(j - off), radix as nat, max as nat) == Ok::<nat, IntErrorKind>(
                acc as nat,
            ),
            acc <= max,
        decreases n - j,
    {
        let dv = digit_of(s[j]);
        proof {
            assert(d[j - off] == s@[j as int]);
            assert(d.take(j + 1 - off).drop_last() =~= d.take(j - off));
            assert(d.take(j + 1 - off).last() == d[j - off]);
        }
        if dv >= radix {
            proof {
                lemma_scan_err_sticks(d, j + 1 - off, d.len() as int, radix as nat, max as nat);
                assert(d.take(d.len() as int) =~= d);
            }
            return Err(IntErrorKind::InvalidDigit);
        }
        proof {
            lemma_step_fits(acc as nat, radix as nat, dv as nat, max as nat);
        }
        if dv > max || acc > (max - dv) / radix {
            proof {
                lemma_scan_err_sticks(d, j + 1 - off, d.len() as int, radix as nat, max as nat);
                assert(d.take(d.len() as int) =~= d);
            }
            return Err(IntErrorKind::PosOverflow);
        }
        proof {
            assert(acc * radix <= max) by (nonlinear_arith)
                requires
                    acc <= (max - dv) / (radix as int),
                    dv <= max,
                    radix >= 1,
            ;
        }
        acc = acc * radix + dv;
        j = j + 1;
    }
    assert(d.take(d.len() as int) =~= d);
    Ok(acc)
}

// ─── Rendered numbers read back ─────────────────────────────────────────────

proof fn lemma_digit_char_value(d: nat, upper: bool)
    requires
        d < 16,
    ensures
        char_digit(crate::text::digit_char(d, upper)) == d,
        !is_ws(crate::text::digit_char(d, upper)),
        crate::text::digit_char(d, upper) != '+',
{
}

/// Appending a digit multiplies the value by the radix and adds the digit.
proof fn lemma_digits_push(s: Seq<char>, c: char, radix: nat)
    ensures
        digits_value(s.push(c), radix) == digits_value(s, radix) * radix + char_digit(c),
{
    assert(s.push(c).drop_last() =~= s);
}

/// Decimal rendering reads back as the number.
pub proof fn lemma_dec_str_value(n: nat)
    ensures
        crate::text::dec_str(n).len() > 0,
        all_digits(crate::text::dec_str(n), 10),
        digits_value(crate::text::dec_str(n), 10) == n,
    decreases n,
{
    reveal_with_fuel(crate::text::dec_str, 2);
    if n < 10 {
        lemma_digit_char_value(n, true);
        lemma_digits_push(Seq::empty(), crate::text::digit_char(n, true), 10);
        assert(seq![crate::text::digit_char(n, true)] =~= Seq::<char>::empty().push(
            crate::text::digit_char(n, true),
        ));
    } else {
        lemma_dec_str_value(n / 10);
        lemma_digit_char_value(n % 10, true);
        lemma_digits_push(crate::text::dec_str(n / 10), crate::text::digit_char(n % 10, true), 10);
        let s = crate::text::dec_str(n);
        assert forall|i: int| 0 <= i < s.len() implies is_digit(#[trigger] s[i], 10) by {
            if i < s.len() - 1 {
                assert(s[i] == crate::text::dec_str(n / 10)[i]);
            }
        }
    }
}

/// Hexadecimal rendering reads back as the number.
pub proof fn lemma_hex_str_value(n: nat, upper: bool)
    ensures
        crate::text::hex_str(n, upper).len() > 0,
        all_digits(crate::text::hex_str(n, upper), 16),
        digits_value(crate::text::hex_str(n, upper), 16) == n,
    decreases n,
{
    reveal_with_fuel(crate::text::hex_str, 2);
    if n < 16 {
        lemma_digit_char_value(n, upper);
        lemma_digits_push(Seq::empty(), crate::text::digit_char(n, upper), 16);
        assert(seq![crate::text::digit_char(n, upper)] =~= Seq::<char>::empty().push(
            crate::text::digit_char(n, upper),
        ));
    } else {
        lemma_hex_str_value(n / 16, upper);
        lemma_digit_char_value(n % 16, upper);
        lemma_digits_push(crate::text::hex_str(n / 16, upper), crate::text::digit_char(n % 16, upper), 16);
        let s = crate::text::hex_str(n, upper);
        assert forall|i: int| 0 <= i < s.len() implies is_digit(#[trigger] s[i], 16) by {
            if i < s.len() - 1 {
                assert(s[i] == crate::text::hex_str(n / 16, upper)[i]);
            }
        }
    }
}

/// Leading zeros do not change the value of digits.
proof fn lemma_leading_zeros(k: nat, s: Seq<char>, radix: nat)
    ensures
        digits_value(crate::text::repeat_char(k, '0') + s, radix) == digits_value(s, radix),
    decreases s.len(),
{
    let z = crate::text::repeat_char(k, '0');
    if s.len() == 0 {
        assert(z + s =~= z);
        lemma_zeros_value(k, radix);
    } else {
        lemma_leading_zeros(k, s.drop_last(), radix);
        assert((z + s).drop_last() =~= z + s.drop_last());
    }
}

proof fn lemma_zeros_value(k: nat, radix: nat)
    ensures
        digits_value(crate::text::repeat_char(k, '0'), radix) == 0,
    decreases k,
{
    if k > 0 {
        lemma_zeros_value((k - 1) as nat, radix);
        assert(crate::text::repeat_char(k, '0').drop_last() =~= crate::text::repeat_char((k - 1) as nat, '0'));
        assert(crate::text::repeat_char(k, '0').last() == '0');
        assert(char_digit('0') == 0);
        let prev = digits_value(crate::text::repeat_char((k - 1) as nat, '0'), radix);
        assert(prev * radix == 0) by (nonlinear_arith)
            requires
                prev == 0,
        ;
    }
}

/// Digits whose value fits read back, under overflow checks, as that value.
pub(crate) proof fn lemma_scan_value(d: Seq<char>, radix: nat, max: nat)
    requires
        radix >= 1,
        all_digits(d, radix),
        digits_value(d, radix) <= max,
    ensures
        digits_scan(d, radix, max) == Ok::<nat, IntErrorKind>(digits_value(d, radix)),
    decreases d.len(),
{
    if d.len() > 0 {
        let p = d.drop_last();
        assert forall|i: int| 0 <= i < p.len() implies is_digit(#[trigger] p[i], radix) by {
            assert(p[i] == d[i]);
        }
        let v = digits_value(p, radix);
        assert(v <= v * radix) by (nonlinear_arith)
            requires
                radix >= 1,
        ;
        lemma_scan_value(p, radix, max);
    }
}

/// A text of digits whose value fits parses (std `from_str_radix`) as that value.
pub(crate) proof fn lemma_radix_result_digits(s: Seq<char>, radix: nat, max: nat)
    requires
        radix >= 1,
        s.len() > 0,
        all_digits(s, radix),
        digits_value(s, radix) <= max,
        radix <= 36,
    ensures
        radix_result(s, radix, max) == Ok::<nat, IntErrorKind>(digits_value(s, radix)),
{
    assert(is_digit(s[0], radix));
    assert(char_digit('+') == 99 && char_digit('-') == 99);
    assert(unsigned_digits(s) == s);
    lemma_scan_value(s, radix, max);
}

/// A digit of radix at most 16 is ASCII and none of the line format's punctuation.
pub(crate) proof fn lemma_digit_is_plain(c: char, radix: nat)
    requires
        radix <= 16,
        is_digit(c, radix),
    ensures
        (c as u32) < 0x80,
        !is_ws(c),
        c != '(' && c != ')' && c != '.' && c != ' ' && c != '#' && c != '+' && c != '-',
{
}

/// Zero-padded decimal rendering: all digits, with the number's value.
pub(crate) proof fn lemma_padded_dec(n: nat, width: nat)
    ensures
        crate::text::pad_left(crate::text::dec_str(n), width, '0').len() > 0,
        all_digits(crate::text::pad_left(crate::text::dec_str(n), width, '0'), 10),
        digits_value(crate::text::pad_left(crate::text::dec_str(n), width, '0'), 10) == n,
{
    let d = crate::text::dec_str(n);
    lemma_dec_str_value(n);
    if d.len() < width {
        let k = (width - d.len()) as nat;
        let z = crate::text::repeat_char(k, '0');
        lemma_leading_zeros(k, d, 10);
        let p = z + d;
        assert(crate::text::pad_left(d, width, '0') == p);
        assert forall|i: int| 0 <= i < p.len() implies is_digit(#[trigger] p[i], 10) by {
            if i < k {
                assert(p[i] == '0');
            } else {
                assert(p[i] == d[i - k]);
            }
        }
    }
}

/// Zero-padded hexadecimal rendering: all digits, with the number's value.
pub(crate) proof fn lemma_padded_hex(n: nat, width: nat)
    ensures
        crate::text::pad_left(crate::text::hex_str(n, true), width, '0').len() > 0,
        all_digits(crate::text::pad_left(crate::text::hex_str(n, true), width, '0'), 16),
        digits_value(crate::text::pad_left(crate::text::hex_str(n, true), width, '0'), 16) == n,
{
    let d = crate::text::hex_str(n, true);
    lemma_hex_str_value(n, true);
    if d.len() < width {
        let k = (width - d.len()) as nat;
        let z = crate::text::repeat_char(k, '0');
        lemma_leading_zeros(k, d, 16);
        let p = z + d;
        assert(crate::text::pad_left(d, width, '0') == p);
        assert forall|i: int| 0 <= i < p.len() implies is_digit(#[trigger] p[i], 16) by {
            if i < k {
                assert(p[i] == '0');
            } else {
                assert(p[i] == d[i - k]);
            }
        }
    }
}

/// Text that neither starts nor ends with whitespace is unchanged by trimming.
pub proof fn lemma_trim_unchanged(s: Seq<char>)
    requires
        s.len() > 0,
        !is_ws(s[0]),
        !is_ws(s.last()),
    ensures
        trim(s) == s,
{
}

/// A decimal rendering parses back, decimal first.
pub proof fn lemma_dec_parses_back(n: nat, max: nat)
    requires
        n <= max,
    ensures
        dec_or_prefixed_hex(trim(crate::text::dec_str(n)), max) == Some(n),
{
    let s = crate::text::dec_str(n);
    lemma_dec_str_value(n);
    assert(is_digit(s[0], 10) && is_digit(s.last(), 10));
    lemma_trim_unchanged(s);
    assert(unsigned_digits(s) == s);
}

/// `0x` followed by a zero-padded hexadecimal rendering parses back as hexadecimal.
pub proof fn lemma_prefixed_hex_parses_back(n: nat, width: nat, max: nat)
    requires
        n <= max,
    ensures
        dec_or_prefixed_hex(
            trim(seq!['0', 'x'] + crate::text::pad_left(crate::text::hex_str(n, true), width, '0')),
            max,
        ) == Some(n),
{
    let h = crate::text::hex_str(n, true);
    let p = crate::text::pad_left(h, width, '0');
    let s = seq!['0', 'x'] + p;
    lemma_hex_str_value(n, true);
    if h.len() < width {
        lemma_leading_zeros((width - h.len()) as nat, h, 16);
        assert(p == crate::text::repeat_char((width - h.len()) as nat, '0') + h);
        assert forall|i: int| 0 <= i < p.len() implies is_digit(#[trigger] p[i], 16) by {
            if i >= width - h.len() {
                assert(p[i] == h[i - (width - h.len())]);
            }
        }
    }
    assert(all_digits(p, 16));
    assert(p.len() > 0);
    assert(is_digit(p.last(), 16));
    assert(s.last() == p.last());
    lemma_trim_unchanged(s);
    assert(!is_digit(s[1], 10));
    assert(s.skip(2) =~= p);
    assert(p[0] != '+');
}

} // verus!
