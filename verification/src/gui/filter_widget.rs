//! A one-line filter input: its text, a cursor counted in bytes, and whether it is enabled.
use vstd::prelude::*;
use crate::filter_editor::FieldType;
use crate::formats::byte_boundary;
use crate::text::{
    utf8_total,
    char_utf8_len,
    lemma_utf8_total_strict,
    lemma_utf8_total_mono,
    push_char,
    str_chars,
};

verus! {

/// The character position at which `b` bytes of `t` end (where `b` is such a boundary).
pub open spec fn boundary_index(t: Seq<char>, b: nat) -> int {
    choose|k: int| 0 <= k <= t.len() && #[trigger] utf8_total(t.take(k)) == b
}

/// The cursor as the widget uses it: at most the text's byte length.
pub open spec fn effective_cursor(t: Seq<char>, cursor: usize) -> nat {
    if (cursor as nat) < utf8_total(t) {
        cursor as nat
    } else {
        utf8_total(t)
    }
}

proof fn lemma_boundary_index(t: Seq<char>, b: nat, k: int)
    requires
        0 <= k <= t.len(),
        utf8_total(t.take(k)) == b,
    ensures
        boundary_index(t, b) == k,
{
    let j = boundary_index(t, b);
    assert(0 <= j <= t.len() && utf8_total(t.take(j)) == b);
    if j < k {
        lemma_utf8_total_strict(t, j, k);
    }
    if k < j {
        lemma_utf8_total_strict(t, k, j);
    }
}

/// Byte length of the characters.
fn byte_len(cs: &[char]) -> (r: usize)
    requires
        utf8_total(cs@) <= usize::MAX,
    ensures
        r == utf8_total(cs@),
{
    let mut acc: usize = 0;
    let mut i: usize = 0;
    assert(cs@.take(0) =~= Seq::<char>::empty());
    while i < cs.len()
        invariant
            i <= cs@.len(),
            acc == utf8_total(cs@.take(i as int)),
            utf8_total(cs@) <= usize::MAX,
        decreases cs@.len() - i,
    {
        assert(cs@.take(i + 1).drop_last() =~= cs@.take(i as int));
        proof {
            lemma_utf8_total_mono(cs@, i + 1, cs@.len() as int);
            assert(cs@.take(cs@.len() as int) =~= cs@);
        }
        acc = acc + char_utf8_len(cs[i]);
        i = i + 1;
    }
    assert(cs@.take(cs@.len() as int) =~= cs@);
    acc
}

/// The character position where `b` bytes end.
fn char_index_at(cs: &[char], b: usize) -> (k: usize)
    requires
        byte_boundary(cs@, b as nat),
    ensures
        k == boundary_index(cs@, b as nat),
        k <= cs@.len(),
{
    let ghost kk = choose|k: int| 0 <= k <= cs@.len() && #[trigger] utf8_total(cs@.take(k)) == b;
    let mut k: usize = 0;
    let mut bytes: usize = 0;
    assert(cs@.take(0) =~= Seq::<char>::empty());
    while bytes < b
        invariant
            k <= kk <= cs@.len(),
            utf8_total(cs@.take(kk)) == b,
            bytes == utf8_total(cs@.take(k as int)),
            bytes <= b,
        decreases b - bytes,
    {
        proof {
            if (k as int) == kk {
                assert(false);
            }
            assert(cs@.take(k + 1).drop_last() =~= cs@.take(k as int));
            if (k + 1) < kk {
                lemma_utf8_total_strict(cs@, k + 1, kk);
            }
        }
        bytes = bytes + char_utf8_len(cs[k]);
        k = k + 1;
    }
    proof {
        if (k as int) < kk {
            lemma_utf8_total_strict(cs@, k as int, kk);
        }
        lemma_boundary_index(cs@, b as nat, k as int);
    }
    k
}

fn string_of(cs: &[char]) -> (s: String)
    ensures
        s@ == cs@,
{
    crate::text::string_from_chars(cs)
}

/// An editable filter field of the graphical front end.
#[derive(Debug, Clone)]
pub struct FilterWidget {
    field_type: FieldType,
    input_text: String,
    cursor_pos: usize,
    enabled: bool,
    label: String,
}

impl FilterWidget {
    /// The field the widget filters on.
    pub closed spec fn kind(&self) -> FieldType {
        self.field_type
    }

    /// The text typed so far.
    pub closed spec fn text(&self) -> Seq<char> {
        self.input_text@
    }

    /// The cursor, in bytes.
    pub closed spec fn cursor(&self) -> usize {
        self.cursor_pos
    }

    /// Whether the widget takes input.
    pub closed spec fn on(&self) -> bool {
        self.enabled
    }

    /// The widget's label.
    pub closed spec fn caption(&self) -> Seq<char> {
        self.label@
    }

    /// An enabled, empty widget labelled with the field's label.
    pub fn new(field_type: FieldType) -> (r: Self)
        ensures
            r.kind() == field_type,
            r.text() == Seq::<char>::empty(),
            r.cursor() == 0,
            r.on(),
            r.caption() == crate::filter_editor::label_text(field_type),
    {
        FilterWidget {
            field_type,
            input_text: String::new(),
            cursor_pos: 0,
            enabled: true,
            label: String::from_str(field_type.label()),
        }
    }

    /// Enable a disabled widget or disable an enabled one.
    pub fn toggle_enabled(&mut self)
        ensures
            final(self).on() == !old(self).on(),
            final(self).text() == old(self).text(),
            final(self).cursor() == old(self).cursor(),
            final(self).kind() == old(self).kind(),
            final(self).caption() == old(self).caption(),
    {
        self.enabled = !self.enabled;
    }

    /// Whether the widget takes input.
    pub fn is_enabled(&self) -> (r: bool)
        ensures
            r == self.on(),
    {
        self.enabled
    }

    /// The field the widget filters on.
    pub fn field_type(&self) -> (r: FieldType)
        ensures
            r == self.kind(),
    {
        self.field_type
    }

    /// The text typed so far.
    pub fn input_text(&self) -> (r: &str)
        ensures
            r@ == self.text(),
    {
        self.input_text.as_str()
    }

    /// The widget's label.
    pub fn label(&self) -> (r: &str)
        ensures
            r@ == self.caption(),
    {
        self.label.as_str()
    }

    /// Replace the text; when it changes, the cursor moves to its end (its byte length).
    pub fn set_input_text(&mut self, text: String)
        requires
            utf8_total(text@) <= usize::MAX,
        ensures
            old(self).text() != text@ ==> final(self).text() == text@ && final(self).cursor()
                == utf8_total(text@),
            old(self).text() == text@ ==> final(self).text() == old(self).text() && final(self).cursor()
                == old(self).cursor(),
            final(self).on() == old(self).on(),
            final(self).kind() == old(self).kind(),
            final(self).caption() == old(self).caption(),
    {
        let cs = str_chars(text.as_str());
        let len = byte_len(&cs);
        if self.input_text != text {
            self.input_text = text;
            self.cursor_pos = len;
        }
    }

    /// Insert a character at the cursor (at the end when the cursor is past it) and move
    /// the cursor one byte on; a disabled widget ignores it.
    pub fn append_char(&mut self, ch: char)
        requires
            old(self).on() ==> byte_boundary(
                old(self).text(),
                effective_cursor(old(self).text(), old(self).cursor()),
            ),
            old(self).on() ==> old(self).cursor() < usize::MAX,
            utf8_total(old(self).text()) <= usize::MAX,
        ensures
            !old(self).on() ==> final(self).text() == old(self).text() && final(self).cursor() == old(
                self,
            ).cursor(),
            old(self).on() ==> ({
                let t = old(self).text();
                let k = boundary_index(t, effective_cursor(t, old(self).cursor()));
                &&& final(self).text() == t.take(k) + seq![ch] + t.skip(k)
                &&& final(self).cursor() == old(self).cursor() + 1
            }),
            final(self).on() == old(self).on(),
            final(self).kind() == old(self).kind(),
            final(self).caption() == old(self).caption(),
    {
        if !self.enabled {
            return;
        }
        let cs = str_chars(self.input_text.as_str());
        let len = byte_len(&cs);
        let pos = if self.cursor_pos < len {
            self.cursor_pos
        } else {
            len
        };
        let k = char_index_at(&cs, pos);
        let mut new_cs: Vec<char> = Vec::new();
        let mut i: usize = 0;
        while i < k
            invariant
                i <= k <= cs@.len(),
                new_cs@ == cs@.take(i as int),
            decreases k - i,
        {
            new_cs.push(cs[i]);
            assert(new_cs@ =~= cs@.take(i + 1));
            i = i + 1;
        }
        new_cs.push(ch);
        let mut j: usize = k;
        while j < cs.len()
            invariant
                k <= j <= cs@.len(),
                new_cs@ == cs@.take(k as int) + seq![ch] + cs@.subrange(k as int, j as int),
            decreases cs@.len() - j,
        {
            new_cs.push(cs[j]);
            assert(new_cs@ =~= cs@.take(k as int) + seq![ch] + cs@.subrange(k as int, j + 1));
            j = j + 1;
        }
        assert(cs@.subrange(k as int, cs@.len() as int) =~= cs@.skip(k as int));
        self.input_text = string_of(&new_cs);
        self.cursor_pos = self.cursor_pos + 1;
    }

    /// Delete the character before the cursor (the first one when the cursor is at the
    /// start), moving the cursor one byte back; a disabled or empty widget ignores it.
    pub fn delete_char(&mut self)
        requires
            utf8_total(old(self).text()) <= usize::MAX,
            old(self).on() && old(self).text().len() > 0 && effective_cursor(old(self).text(), old(self).cursor()) > 0
                ==> byte_boundary(
                old(self).text(),
                (effective_cursor(old(self).text(), old(self).cursor()) - 1) as nat,
            ),
        ensures
            !old(self).on() || old(self).text().len() == 0 ==> final(self).text() == old(self).text()
                && final(self).cursor() == old(self).cursor(),
            old(self).on() && old(self).text().len() > 0 ==> ({
                let t = old(self).text();
                let p = effective_cursor(t, old(self).cursor());
                if p > 0 {
                    let k = boundary_index(t, (p - 1) as nat);
                    &&& final(self).text() == t.take(k) + t.skip(k + 1)
                    &&& final(self).cursor() == old(self).cursor() - 1
                } else {
                    &&& final(self).text() == t.drop_first()
                    &&& final(self).cursor() == old(self).cursor()
                }
            }),
            final(self).on() == old(self).on(),
            final(self).kind() == old(self).kind(),
            final(self).caption() == old(self).caption(),
    {
        if !self.enabled || self.input_text.as_str().is_empty() {
            return;
        }
        let cs = str_chars(self.input_text.as_str());
        let len = byte_len(&cs);
        let pos = if self.cursor_pos < len {
            self.cursor_pos
        } else {
            len
        };
        let k: usize;
        if pos > 0 {
            k = char_index_at(&cs, pos - 1);
            proof {
                if (k as int) == cs@.len() {
                    assert(cs@.take(k as int) =~= cs@);
                }
            }
        } else {
            k = 0;
        }
        let mut new_cs: Vec<char> = Vec::new();
        let mut i: usize = 0;
        while i < cs.len()
            invariant
                i <= cs@.len(),
                k < cs@.len(),
                new_cs@ == if i <= k {
                    cs@.take(i as int)
                } else {
                    cs@.take(k as int) + cs@.subrange(k + 1, i as int)
                },
            decreases cs@.len() - i,
        {
            if i != k {
                new_cs.push(cs[i]);
            }
            proof {
                if i < k {
                    assert(new_cs@ =~= cs@.take(i + 1));
                } else if i == k {
                    assert(cs@.take(k as int) + cs@.subrange(k + 1, i + 1) =~= cs@.take(k as int));
                } else {
                    assert(new_cs@ =~= cs@.take(k as int) + cs@.subrange(k + 1, i + 1));
                }
            }
            i = i + 1;
        }
        assert(cs@.subrange(k + 1, cs@.len() as int) =~= cs@.skip(k + 1));
        if k == 0 {
            assert(cs@.take(0) + cs@.skip(1) =~= cs@.drop_first());
        }
        self.input_text = string_of(&new_cs);
        if pos > 0 {
            self.cursor_pos = self.cursor_pos - 1;
        }
    }
}

} // verus!
