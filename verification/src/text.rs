//! Text building blocks: decimal and hexadecimal rendering of integers, character
//! access to strings, and small searches over character sequences.
use vstd::prelude::*;
use vstd::string::*;

verus! {

// ─── Character-level access to std strings ──────────────────────────────────

/// Appends one character (std `String::push`).
#[verifier::external_body]
pub(crate) fn push_char(s: &mut String, c: char)
    ensures
        final(s)@ == old(s)@.push(c),
{
    s.push(c);
}

/// Appends a string slice.
pub fn push_str(s: &mut String, t: &str)
    ensures
        final(s)@ == old(s)@ + t@,
{
    s.append(t);
}

/// The characters of a string slice, in order.
pub fn str_chars(s: &str) -> (v: Vec<char>)
    ensures
        v@ == s@,
{
    broadcast use vstd::string::group_string_axioms;

    let mut v: Vec<char> = Vec::new();
    for c in it: s.chars()
        invariant
            it.seq() == s@,
            v@ == it.seq().take(it.index() as int),
    {
        v.push(c);
    }
    v
}

/// A string holding the given characters.
pub fn string_from_chars(cs: &[char]) -> (s: String)
    ensures
        s@ == cs@,
{
    let mut s = String::new();
    let mut i: usize = 0;
    while i < cs.len()
        invariant
            i <= cs@.len(),
            s@ == cs@.take(i as int),
        decreases cs@.len() - i,
    {
        push_char(&mut s, cs[i]);
        assert(cs@.take(i as int).push(cs@[i as int]) =~= cs@.take(i + 1));
        i = i + 1;
    }
    assert(cs@.take(cs@.len() as int) =~= cs@);
    s
}

/// A copy of a string.
pub fn copy_string(s: &String) -> (r: String)
    ensures
        r@ == s@,
{
    s.clone()
}

/// A `String` holding a string slice.
pub fn to_owned_string(s: &str) -> (r: String)
    ensures
        r@ == s@,
{
    String::from_str(s)
}

// ─── Integer rendering ───────────────────────────────────────────────────────

/// The ASCII digit (or uppercase/lowercase letter) for a value below 16.
pub open spec fn digit_char(d: nat, upper: bool) -> char {
    if d < 10 {
        ((d + 48) as u8) as char
    } else if upper {
        ((d + 55) as u8) as char
    } else {
        ((d + 87) as u8) as char
    }
}

/// Decimal rendering of a natural number, without leading zeros.
pub open spec fn dec_str(n: nat) -> Seq<char>
    decreases n,
{
    if n < 10 {
        seq![digit_char(n, true)]
    } else {
        dec_str(n / 10).push(digit_char(n % 10, true))
    }
}

/// Hexadecimal rendering of a natural number, without leading zeros.
pub open spec fn hex_str(n: nat, upper: bool) -> Seq<char>
    decreases n,
{
    if n < 16 {
        seq![digit_char(n, upper)]
    } else {
        hex_str(n / 16, upper).push(digit_char(n % 16, upper))
    }
}

/// `k` copies of `c`.
pub open spec fn repeat_char(k: nat, c: char) -> Seq<char> {
    Seq::new(k, |_i: int| c)
}

/// `s` padded on the left with `c` up to `width` characters.
pub open spec fn pad_left(s: Seq<char>, width: nat, c: char) -> Seq<char> {
    if s.len() >= width {
        s
    } else {
        repeat_char((width - s.len()) as nat, c) + s
    }
}

/// Decimal rendering of a signed integer.
pub open spec fn signed_dec_str(v: int) -> Seq<char> {
    if v < 0 {
        seq!['-'] + dec_str((-v) as nat)
    } else {
        dec_str(v as nat)
    }
}

fn digit(d: u64, upper: bool) -> (c: char)
    requires
        d < 16,
    ensures
        c == digit_char(d as nat, upper),
{
    if d < 10 {
        ((d + 48) as u8) as char
    } else if upper {
        ((d + 55) as u8) as char
    } else {
        ((d + 87) as u8) as char
    }
}

/// Appends the decimal rendering of `n`.
pub fn push_dec(s: &mut String, n: u64)
    ensures
        final(s)@ == old(s)@ + dec_str(n as nat),
    decreases n,
{
    if n >= 10 {
        push_dec(s, n / 10);
    }
    push_char(s, digit(n % 10, true));
    assert(final(s)@ =~= old(s)@ + dec_str(n as nat)) by {
        reveal_with_fuel(dec_str, 2);
    }
}

/// Appends the hexadecimal rendering of `n`.
pub fn push_hex(s: &mut String, n: u64, upper: bool)
    ensures
        final(s)@ == old(s)@ + hex_str(n as nat, upper),
    decreases n,
{
    if n >= 16 {
        push_hex(s, n / 16, upper);
    }
    push_char(s, digit(n % 16, upper));
    assert(final(s)@ =~= old(s)@ + hex_str(n as nat, upper)) by {
        reveal_with_fuel(hex_str, 2);
    }
}

/// Number of decimal digits of `n`.
pub fn dec_len(n: u64) -> (r: usize)
    ensures
        r as nat == dec_str(n as nat).len(),
        1 <= r <= 20,
    decreases n,
{
    if n < 10 {
        1
    } else {
        let k = dec_len(n / 10);
        proof {
            lemma_dec_len_bound((n / 10) as nat);
        }
        k + 1
    }
}

/// Number of hexadecimal digits of `n`.
pub fn hex_len(n: u64) -> (r: usize)
    ensures
        r as nat == hex_str(n as nat, true).len(),
        r as nat == hex_str(n as nat, false).len(),
        1 <= r <= 16,
    decreases n,
{
    if n < 16 {
        1
    } else {
        let k = hex_len(n / 16);
        proof {
            lemma_hex_len_bound((n / 16) as nat);
        }
        k + 1
    }
}

proof fn lemma_dec_len_bound(n: nat)
    requires
        n <= 0xFFFF_FFFF_FFFF_FFFFnat / 10,
    ensures
        dec_str(n).len() <= 19,
{
    assert(pow10(19) == 10_000_000_000_000_000_000nat) by { reveal_with_fuel(pow10, 20); }
    lemma_dec_len_bound_gen(n, 18);
}

proof fn lemma_dec_len_bound_gen(n: nat, k: nat)
    requires
        k <= 18,
        n < 10 * pow10(k),
    ensures
        dec_str(n).len() <= k + 1,
    decreases n,
{
    if n >= 10 {
        if k == 0 {
            assert(pow10(0) == 1);
        } else {
            assert(pow10(k) == 10 * pow10((k - 1) as nat));
            lemma_dec_len_bound_gen(n / 10, (k - 1) as nat);
        }
    }
}

/// Powers of ten.
pub open spec fn pow10(k: nat) -> nat
    decreases k,
{
    if k == 0 {
        1
    } else {
        10 * pow10((k - 1) as nat)
    }
}

proof fn lemma_hex_len_bound(n: nat)
    requires
        n <= 0xFFFF_FFFF_FFFF_FFFFnat / 16,
    ensures
        hex_str(n, true).len() <= 15,
        hex_str(n, false).len() <= 15,
        hex_str(n, true).len() == hex_str(n, false).len(),
{
    assert(pow16(15) == 0x1000_0000_0000_0000nat) by { reveal_with_fuel(pow16, 16); }
    lemma_hex_len_bound_gen(n, 15);
}

/// Powers of sixteen.
pub open spec fn pow16(k: nat) -> nat
    decreases k,
{
    if k == 0 {
        1
    } else {
        16 * pow16((k - 1) as nat)
    }
}

proof fn lemma_hex_len_bound_gen(n: nat, k: nat)
    requires
        k <= 15,
        n < pow16(k),
    ensures
        hex_str(n, true).len() <= if k == 0 { 1 } else { k },
        hex_str(n, false).len() == hex_str(n, true).len(),
    decreases n,
{
    if n >= 16 {
        if k == 0 {
            assert(pow16(0) == 1);
        } else {
            assert(pow16(k) == 16 * pow16((k - 1) as nat));
            lemma_hex_len_bound_gen(n / 16, (k - 1) as nat);
            if k == 1 {
                assert(pow16(0) == 1);
            }
        }
    }
}

/// Appends `count` copies of `c`.
pub fn push_repeat(s: &mut String, c: char, count: usize)
    ensures
        final(s)@ == old(s)@ + repeat_char(count as nat, c),
{
    let ghost start = s@;
    let mut i: usize = 0;
    while i < count
        invariant
            i <= count,
            s@ == start + repeat_char(i as nat, c),
        decreases count - i,
    {
        push_char(s, c);
        assert(start + repeat_char((i + 1) as nat, c) =~= (start + repeat_char(i as nat, c)).push(c));
        i = i + 1;
    }
}

/// Appends the decimal rendering of `n`, left-padded with zeros to `width` characters.
pub fn push_dec_padded(s: &mut String, n: u64, width: usize)
    ensures
        final(s)@ == old(s)@ + pad_left(dec_str(n as nat), width as nat, '0'),
{
    let len = dec_len(n);
    let ghost start = s@;
    if len < width {
        push_repeat(s, '0', width - len);
    }
    push_dec(s, n);
    assert(s@ =~= start + pad_left(dec_str(n as nat), width as nat, '0'));
}

/// Appends the hexadecimal rendering of `n`, left-padded with zeros to `width` characters.
pub fn push_hex_padded(s: &mut String, n: u64, width: usize, upper: bool)
    ensures
        final(s)@ == old(s)@ + pad_left(hex_str(n as nat, upper), width as nat, '0'),
{
    let len = hex_len(n);
    let ghost start = s@;
    if len < width {
        push_repeat(s, '0', width - len);
    }
    push_hex(s, n, upper);
    assert(s@ =~= start + pad_left(hex_str(n as nat, upper), width as nat, '0'));
}

/// Appends the decimal rendering of a signed integer.
pub fn push_signed_dec(s: &mut String, v: i64)
    ensures
        final(s)@ == old(s)@ + signed_dec_str(v as int),
{
    if v < 0 {
        push_char(s, '-');
        let m: u64 = if v == i64::MIN {
            0x8000_0000_0000_0000u64
        } else {
            (-v) as u64
        };
        push_dec(s, m);
        assert(s@ =~= old(s)@ + signed_dec_str(v as int));
    } else {
        push_dec(s, v as u64);
    }
}

/// Decimal rendering of `n` as a new string.
pub fn dec_string(n: u64) -> (r: String)
    ensures
        r@ == dec_str(n as nat),
{
    let mut s = String::new();
    push_dec(&mut s, n);
    assert(s@ =~= dec_str(n as nat));
    s
}

// ─── Searching character sequences ───────────────────────────────────────────

/// `needle` occurs in `hay` starting at position `i`.
pub open spec fn occurs_at(hay: Seq<char>, needle: Seq<char>, i: int) -> bool {
    0 <= i && i + needle.len() <= hay.len() && hay.subrange(i, i + needle.len()) == needle
}

/// `needle` occurs somewhere in `hay` (the empty sequence occurs everywhere).
pub open spec fn contains_seq(hay: Seq<char>, needle: Seq<char>) -> bool {
    exists|i: int| occurs_at(hay, needle, i)
}

/// Whether `needle` occurs at position `i` of `hay`.
fn matches_at(hay: &[char], needle: &[char], i: usize) -> (r: bool)
    requires
        i + needle@.len() <= hay@.len(),
    ensures
        r == occurs_at(hay@, needle@, i as int),
{
    let n = hay.len();
    let mut j: usize = 0;
    while j < needle.len()
        invariant
            j <= needle@.len(),
            n == hay@.len(),
            i + needle@.len() <= hay@.len(),
            forall|k: int| 0 <= k < j ==> hay@[i + k] == needle@[k],
        decreases needle@.len() - j,
    {
        if hay[i + j] != needle[j] {
            assert(hay@.subrange(i as int, i + needle@.len())[j as int] != needle@[j as int]);
            return false;
        }
        j = j + 1;
    }
    assert(hay@.subrange(i as int, i + needle@.len()) =~= needle@);
    true
}

/// Substring search.
pub fn contains_chars(hay: &[char], needle: &[char]) -> (r: bool)
    ensures
        r == contains_seq(hay@, needle@),
{
    if needle.len() > hay.len() {
        assert forall|i: int| !occurs_at(hay@, needle@, i) by {}
        return false;
    }
    let last = hay.len() - needle.len();
    let mut i: usize = 0;
    loop
        invariant
            last == hay@.len() - needle@.len(),
            i <= last,
            forall|k: int| 0 <= k < i ==> !occurs_at(hay@, needle@, k),
        ensures
            forall|k: int| 0 <= k <= last ==> !occurs_at(hay@, needle@, k),
        decreases last - i,
    {
        if matches_at(hay, needle, i) {
            return true;
        }
        if i == last {
            break;
        }
        i = i + 1;
    }
    false
}

/// Position of the first occurrence of `c` in `s`.
pub open spec fn first_index_of(s: Seq<char>, c: char, i: int) -> bool {
    0 <= i < s.len() && s[i] == c && forall|k: int| 0 <= k < i ==> s[k] != c
}

/// Finds the first position of a character.
pub fn find_char(s: &[char], c: char) -> (r: Option<usize>)
    ensures
        r matches Some(i) ==> first_index_of(s@, c, i as int),
        r is None ==> forall|k: int| 0 <= k < s@.len() ==> s@[k] != c,
{
    let mut i: usize = 0;
    while i < s.len()
        invariant
            i <= s@.len(),
            forall|k: int| 0 <= k < i ==> s@[k] != c,
        decreases s@.len() - i,
    {
        if s[i] == c {
            return Some(i);
        }
        i = i + 1;
    }
    None
}

/// A copy of `s[lo..hi]`.
pub fn slice_vec(s: &[char], lo: usize, hi: usize) -> (r: Vec<char>)
    requires
        lo <= hi <= s@.len(),
    ensures
        r@ == s@.subrange(lo as int, hi as int),
{
    let mut r: Vec<char> = Vec::new();
    let mut i: usize = lo;
    while i < hi
        invariant
            lo <= i <= hi,
            hi <= s@.len(),
            r@ == s@.subrange(lo as int, i as int),
        decreases hi - i,
    {
        r.push(s[i]);
        assert(r@ =~= s@.subrange(lo as int, i + 1));
        i = i + 1;
    }
    r
}

/// Whether `s` begins with `p`.
pub open spec fn starts_with(s: Seq<char>, p: Seq<char>) -> bool {
    p.len() <= s.len() && s.take(p.len() as int) == p
}

/// Whether `s` begins with `p`.
pub fn starts_with_chars(s: &[char], p: &[char]) -> (r: bool)
    ensures
        r == starts_with(s@, p@),
{
    if p.len() > s.len() {
        return false;
    }
    let mut i: usize = 0;
    while i < p.len()
        invariant
            i <= p@.len() <= s@.len(),
            forall|k: int| 0 <= k < i ==> s@[k] == p@[k],
        decreases p@.len() - i,
    {
        if s[i] != p[i] {
            assert(s@.take(p@.len() as int)[i as int] != p@[i as int]);
            return false;
        }
        i = i + 1;
    }
    assert(s@.take(p@.len() as int) =~= p@);
    true
}

/// The position of the first `c` in `s`, if any.
pub open spec fn find_first(s: Seq<char>, c: char) -> Option<int> {
    if exists|i: int| first_index_of(s, c, i) {
        Some(choose|i: int| first_index_of(s, c, i))
    } else {
        None
    }
}

/// Finds the first position of a character, as `find_first` describes it.
pub fn find_first_char(s: &[char], c: char) -> (r: Option<usize>)
    ensures
        r matches Some(i) ==> i < s.len() && s@[i as int] == c,
        match r {
            Some(i) => find_first(s@, c) == Some(i as int),
            None => find_first(s@, c) is None,
        },
{
    let r = find_char(s, c);
    match r {
        Some(i) => {
            proof {
                let j = choose|j: int| first_index_of(s@, c, j);
                assert(first_index_of(s@, c, j));
                if j < i {
                    assert(s@[j] != c);
                }
                if i < j {
                    assert(s@[i as int] != c);
                }
            }
            r
        },
        None => r,
    }
}

/// Lowercase mapping of a string (std `str::to_lowercase`).
pub uninterp spec fn lowercase(s: Seq<char>) -> Seq<char>;

/// The string in lowercase (std `str::to_lowercase`, full Unicode case mapping).
#[verifier::external_body]
pub(crate) fn to_lowercase(s: &str) -> (r: String)
    ensures
        r@ == lowercase(s@),
{
    s.to_lowercase()
}

/// The pieces of `s` between commas (`str::split(',')`): one more piece than commas.
pub open spec fn split_commas(s: Seq<char>) -> Seq<Seq<char>>
    decreases s.len(),
{
    if s.len() == 0 {
        seq![Seq::<char>::empty()]
    } else {
        let p = split_commas(s.drop_last());
        if s.last() == ',' {
            p.push(Seq::<char>::empty())
        } else {
            p.update(p.len() - 1, p.last().push(s.last()))
        }
    }
}

pub proof fn lemma_split_nonempty(s: Seq<char>)
    ensures
        split_commas(s).len() >= 1,
    decreases s.len(),
{
    if s.len() > 0 {
        lemma_split_nonempty(s.drop_last());
    }
}

/// The pieces of `s` between commas.
pub fn split_on_commas(s: &[char]) -> (r: Vec<Vec<char>>)
    ensures
        r@.len() == split_commas(s@).len(),
        forall|i: int| 0 <= i < r@.len() ==> #[trigger] r@[i]@ == split_commas(s@)[i],
{
    let mut done: Vec<Vec<char>> = Vec::new();
    let mut cur: Vec<char> = Vec::new();
    let mut i: usize = 0;
    assert(s@.take(0) =~= Seq::<char>::empty());
    while i < s.len()
        invariant
            i <= s@.len(),
            split_commas(s@.take(i as int)).len() == done@.len() + 1,
            forall|k: int|
                0 <= k < done@.len() ==> #[trigger] done@[k]@ == split_commas(s@.take(i as int))[k],
            cur@ == split_commas(s@.take(i as int)).last(),
        decreases s@.len() - i,
    {
        let c = s[i];
        proof {
            assert(s@.take(i + 1).drop_last() =~= s@.take(i as int));
            assert(s@.take(i + 1).last() == c);
        }
        if c == ',' {
            let finished = cur;
            done.push(finished);
            cur = Vec::new();
        } else {
            cur.push(c);
        }
        i = i + 1;
    }
    assert(s@.take(s@.len() as int) =~= s@);
    done.push(cur);
    done
}

/// The pieces joined with a separator.
pub open spec fn join_sep(parts: Seq<Seq<char>>, sep: Seq<char>) -> Seq<char>
    decreases parts.len(),
{
    if parts.len() == 0 {
        Seq::empty()
    } else if parts.len() == 1 {
        parts[0]
    } else {
        join_sep(parts.drop_last(), sep) + sep + parts.last()
    }
}

/// UTF-8 length of a character.
pub open spec fn utf8_len(c: char) -> nat {
    if (c as u32) < 0x80 {
        1
    } else if (c as u32) < 0x800 {
        2
    } else if (c as u32) < 0x10000 {
        3
    } else {
        4
    }
}

/// UTF-8 length of a character sequence.
pub open spec fn utf8_total(s: Seq<char>) -> nat
    decreases s.len(),
{
    if s.len() == 0 {
        0
    } else {
        utf8_total(s.drop_last()) + utf8_len(s.last())
    }
}

pub fn char_utf8_len(c: char) -> (r: usize)
    ensures
        r == utf8_len(c),
{
    let v = c as u32;
    if v < 0x80 {
        1
    } else if v < 0x800 {
        2
    } else if v < 0x10000 {
        3
    } else {
        4
    }
}

pub proof fn lemma_utf8_total_mono(s: Seq<char>, i: int, j: int)
    requires
        0 <= i <= j <= s.len(),
    ensures
        utf8_total(s.take(i)) <= utf8_total(s.take(j)),
    decreases j - i,
{
    if i < j {
        lemma_utf8_total_mono(s, i, j - 1);
        assert(s.take(j).drop_last() =~= s.take(j - 1));
    }
}

/// Joining one more piece appends the separator and the piece (the piece alone when it is
/// the first).
pub proof fn lemma_join_push(parts: Seq<Seq<char>>, x: Seq<char>, sep: Seq<char>)
    ensures
        join_sep(parts.push(x), sep) == if parts.len() == 0 {
            x
        } else {
            join_sep(parts, sep) + sep + x
        },
{
    assert(parts.push(x).drop_last() =~= parts);
}

/// Each character takes at least one byte, so longer prefixes take strictly more bytes.
pub proof fn lemma_utf8_total_strict(s: Seq<char>, i: int, j: int)
    requires
        0 <= i < j <= s.len(),
    ensures
        utf8_total(s.take(i)) < utf8_total(s.take(j)),
    decreases j - i,
{
    assert(s.take(j).drop_last() =~= s.take(j - 1));
    if i < j - 1 {
        lemma_utf8_total_strict(s, i, j - 1);
    }
}


/// The UTF-8 length of a concatenation is the sum of the lengths.
pub proof fn lemma_utf8_total_concat(a: Seq<char>, b: Seq<char>)
    ensures
        utf8_total(a + b) == utf8_total(a) + utf8_total(b),
    decreases b.len(),
{
    if b.len() == 0 {
        assert(a + b =~= a);
    } else {
        lemma_utf8_total_concat(a, b.drop_last());
        assert((a + b).drop_last() =~= a + b.drop_last());
    }
}

} // verus!
