//! The filter panel: which sections are open, which values and titles are chosen, and the
//! filter those choices give the message list.
use vstd::prelude::*;
use crate::filter_editor::FieldType;
use crate::filters::FilterRule;
use crate::filter_engine::all_accept;
use crate::types::DecodedMessage;
use crate::text::copy_string;
use crate::gui::message_list::{MessageList, message_filter_accepts};

verus! {

/// Filter sections that can be expanded or collapsed.
#[derive(Debug, Clone, Copy, PartialEq, Eq, Hash, Structural)]
pub enum FilterSection {
    SourceAddr,
    DestAddr,
    Pgn,
    Title,
    SourceName,
    DestName,
}

/// The heading of a section.
pub open spec fn section_label(s: FilterSection) -> Seq<char> {
    match s {
        FilterSection::SourceAddr => "Source Addr"@,
        FilterSection::DestAddr => "Dest Addr"@,
        FilterSection::Pgn => "PGN"@,
        FilterSection::Title => "Title"@,
        FilterSection::SourceName => "Src NAME"@,
        FilterSection::DestName => "Dst NAME"@,
    }
}

/// The editor field type of a section: the PGN section edits PGNs, every other section
/// source addresses.
pub open spec fn section_field_type(s: FilterSection) -> FieldType {
    match s {
        FilterSection::Pgn => FieldType::Pgn,
        _ => FieldType::SourceAddr,
    }
}

impl FilterSection {
    /// The heading of the section.
    pub fn label(&self) -> (r: &'static str)
        ensures
            r@ == section_label(*self),
    {
        match self {
            FilterSection::SourceAddr => "Source Addr",
            FilterSection::DestAddr => "Dest Addr",
            FilterSection::Pgn => "PGN",
            FilterSection::Title => "Title",
            FilterSection::SourceName => "Src NAME",
            FilterSection::DestName => "Dst NAME",
        }
    }

    /// The editor field type of the section.
    pub fn field_type(&self) -> (r: FieldType)
        ensures
            r == section_field_type(*self),
    {
        match self {
            FilterSection::SourceAddr => FieldType::SourceAddr,
            FilterSection::Pgn => FieldType::Pgn,
            _ => FieldType::SourceAddr,
        }
    }

    /// All filter sections in display order.
    pub fn all_sections() -> (r: &'static [Self])
        ensures
            r@ == seq![
                FilterSection::SourceAddr,
                FilterSection::DestAddr,
                FilterSection::Pgn,
                FilterSection::Title,
                FilterSection::SourceName,
                FilterSection::DestName,
            ],
    {
        &[
            FilterSection::SourceAddr,
            FilterSection::DestAddr,
            FilterSection::Pgn,
            FilterSection::Title,
            FilterSection::SourceName,
            FilterSection::DestName,
        ]
    }
}

// ─── Toggling membership ─────────────────────────────────────────────────────

/// The first position of `x` in `s` (where it occurs).
pub open spec fn first_index<T>(s: Seq<T>, x: T) -> int {
    choose|i: int| 0 <= i < s.len() && s[i] == x && forall|j: int| 0 <= j < i ==> #[trigger] s[j] != x
}

/// `s` with `x` toggled: its first occurrence removed, or `x` appended when absent.
pub open spec fn toggled<T>(s: Seq<T>, x: T) -> Seq<T> {
    if s.contains(x) {
        s.remove(first_index(s, x))
    } else {
        s.push(x)
    }
}

proof fn lemma_first_index<T>(s: Seq<T>, x: T, i: int)
    requires
        0 <= i < s.len(),
        s[i] == x,
        forall|j: int| 0 <= j < i ==> #[trigger] s[j] != x,
    ensures
        first_index(s, x) == i,
{
    let k = first_index(s, x);
    assert(0 <= k < s.len() && s[k] == x && forall|j: int| 0 <= j < k ==> #[trigger] s[j] != x);
    if k < i {
        assert(s[k] != x);
    }
    if i < k {
        assert(s[i] != x);
    }
}

/// Toggling twice gives back the same members: an absent value is appended and removed
/// again; a present value moves to the end.
pub proof fn lemma_toggle_twice<T>(s: Seq<T>, x: T)
    requires
        s.no_duplicates(),
    ensures
        toggled(s, x).no_duplicates(),
        toggled(toggled(s, x), x).to_set() == s.to_set(),
        !s.contains(x) ==> toggled(toggled(s, x), x) == s,
        toggled(s, x).contains(x) == !s.contains(x),
{
    let t = toggled(s, x);
    if s.contains(x) {
        let i = choose|i: int| 0 <= i < s.len() && s[i] == x;
        assert forall|j: int| 0 <= j < i implies #[trigger] s[j] != x by {}
        lemma_first_index(s, x, i);
        assert(t == s.remove(i));
        assert(!t.contains(x)) by {
            if t.contains(x) {
                let j = choose|j: int| 0 <= j < t.len() && t[j] == x;
                if j < i {
                    assert(s[j] == x);
                } else {
                    assert(s[j + 1] == x);
                }
            }
        }
        assert(t.no_duplicates()) by {
            assert forall|a: int, b: int| 0 <= a < t.len() && 0 <= b < t.len() && a != b implies t[a] != t[b] by {
                let a2 = if a < i { a } else { a + 1 };
                let b2 = if b < i { b } else { b + 1 };
                assert(t[a] == s[a2] && t[b] == s[b2]);
            }
        }
        let u = toggled(t, x);
        assert(u == t.push(x));
        assert(u.to_set() =~= s.to_set()) by {
            assert forall|y: T| u.to_set().contains(y) implies s.to_set().contains(y) by {
                let j = choose|j: int| 0 <= j < u.len() && u[j] == y;
                if j < t.len() {
                    assert(t[j] == y);
                    if j < i {
                        assert(s[j] == y);
                    } else {
                        assert(s[j + 1] == y);
                    }
                } else {
                    assert(s[i] == y);
                }
            }
            assert forall|y: T| s.to_set().contains(y) implies u.to_set().contains(y) by {
                let j = choose|j: int| 0 <= j < s.len() && s[j] == y;
                if j < i {
                    assert(u[j] == y);
                } else if j == i {
                    assert(u[t.len() as int] == y);
                } else {
                    assert(u[j - 1] == y);
                }
            }
        }
    } else {
        assert(t == s.push(x));
        assert(t[s.len() as int] == x);
        assert(t.no_duplicates()) by {
            assert forall|a: int, b: int| 0 <= a < t.len() && 0 <= b < t.len() && a != b implies t[a] != t[b] by {
                if a < s.len() && b < s.len() {
                    assert(t[a] == s[a] && t[b] == s[b]);
                } else if a < s.len() {
                    assert(t[a] == s[a]);
                } else {
                    assert(t[b] == s[b]);
                }
            }
        }
        assert forall|j: int| 0 <= j < s.len() implies #[trigger] t[j] != x by {
            assert(t[j] == s[j]);
        }
        lemma_first_index(t, x, s.len() as int);
        assert(t.remove(s.len() as int) =~= s);
    }
}

// ─── The panel ───────────────────────────────────────────────────────────────

/// The last value chosen in `section`.
pub open spec fn last_value(active: Seq<(FilterSection, u64)>, section: FilterSection) -> Option<
    u64,
>
    decreases active.len(),
{
    if active.len() == 0 {
        None
    } else if active.last().0 == section {
        Some(active.last().1)
    } else {
        last_value(active.drop_last(), section)
    }
}

/// An address value as the panel hands it on (its low byte).
pub open spec fn as_address(v: Option<u64>) -> Option<u8> {
    match v {
        Some(x) => Some(x as u8),
        None => None,
    }
}

/// A PGN value as the panel hands it on (its low 32 bits).
pub open spec fn as_pgn(v: Option<u64>) -> Option<u32> {
    match v {
        Some(x) => Some(x as u32),
        None => None,
    }
}

/// The views of the strings.
pub open spec fn string_views(s: Seq<String>) -> Seq<Seq<char>> {
    s.map_values(|t: String| t@)
}

/// State of the filter panel: open sections, chosen values and chosen titles.
pub struct FilterPanel {
    expanded_sections: Vec<FilterSection>,
    active_filters: Vec<(FilterSection, u64)>,
    selected_titles: Vec<String>,
}

impl FilterPanel {
    /// The open sections.
    pub closed spec fn expanded(&self) -> Seq<FilterSection> {
        self.expanded_sections@
    }

    /// The chosen values, with their sections.
    pub closed spec fn active(&self) -> Seq<(FilterSection, u64)> {
        self.active_filters@
    }

    /// The chosen titles.
    pub closed spec fn titles(&self) -> Seq<Seq<char>> {
        string_views(self.selected_titles@)
    }

    /// A panel with every section open and nothing chosen.
    pub fn new() -> (r: Self)
        ensures
            r.expanded() == seq![
                FilterSection::SourceAddr,
                FilterSection::DestAddr,
                FilterSection::Pgn,
                FilterSection::Title,
                FilterSection::SourceName,
                FilterSection::DestName,
            ],
            r.active() == Seq::<(FilterSection, u64)>::empty(),
            r.titles() == Seq::<Seq<char>>::empty(),
    {
        let r = FilterPanel {
            expanded_sections: vec![
                FilterSection::SourceAddr,
                FilterSection::DestAddr,
                FilterSection::Pgn,
                FilterSection::Title,
                FilterSection::SourceName,
                FilterSection::DestName,
            ],
            active_filters: Vec::new(),
            selected_titles: Vec::new(),
        };
        assert(r.titles() =~= Seq::<Seq<char>>::empty());
        r
    }

    /// Opens a closed section, or closes an open one.
    pub fn toggle_section(&mut self, section: FilterSection)
        ensures
            final(self).expanded() == toggled(old(self).expanded(), section),
            final(self).active() == old(self).active(),
            final(self).titles() == old(self).titles(),
    {
        let mut i: usize = 0;
        while i < self.expanded_sections.len()
            invariant
                i <= self.expanded_sections@.len(),
                self.expanded_sections@ == old(self).expanded_sections@,
                self.active_filters@ == old(self).active_filters@,
                self.selected_titles@ == old(self).selected_titles@,
                forall|j: int| 0 <= j < i ==> #[trigger] self.expanded_sections@[j] != section,
            decreases self.expanded_sections@.len() - i,
        {
            if self.expanded_sections[i] == section {
                proof {
                    lemma_first_index(self.expanded_sections@, section, i as int);
                }
                self.expanded_sections.remove(i);
                return;
            }
            i = i + 1;
        }
        self.expanded_sections.push(section);
    }

    /// Chooses a value of a section, or drops it when it is chosen.
    pub fn toggle_filter(&mut self, section: FilterSection, raw_value: u64)
        ensures
            final(self).active() == toggled(old(self).active(), (section, raw_value)),
            final(self).expanded() == old(self).expanded(),
            final(self).titles() == old(self).titles(),
    {
        let mut i: usize = 0;
        while i < self.active_filters.len()
            invariant
                i <= self.active_filters@.len(),
                self.expanded_sections@ == old(self).expanded_sections@,
                self.active_filters@ == old(self).active_filters@,
                self.selected_titles@ == old(self).selected_titles@,
                forall|j: int|
                    0 <= j < i ==> #[trigger] self.active_filters@[j] != (section, raw_value),
            decreases self.active_filters@.len() - i,
        {
            let (s, v) = self.active_filters[i];
            if s == section && v == raw_value {
                proof {
                    lemma_first_index(self.active_filters@, (section, raw_value), i as int);
                }
                self.active_filters.remove(i);
                return;
            }
            i = i + 1;
        }
        self.active_filters.push((section, raw_value));
    }

    /// Chooses a title, or drops it when it is chosen.
    pub fn toggle_title_filter(&mut self, title: String)
        ensures
            final(self).titles() == toggled(old(self).titles(), title@),
            final(self).expanded() == old(self).expanded(),
            final(self).active() == old(self).active(),
    {
        let ghost views = old(self).titles();
        let mut i: usize = 0;
        while i < self.selected_titles.len()
            invariant
                i <= self.selected_titles@.len(),
                self.expanded_sections@ == old(self).expanded_sections@,
                self.active_filters@ == old(self).active_filters@,
                self.selected_titles@ == old(self).selected_titles@,
                views == string_views(self.selected_titles@),
                views.len() == self.selected_titles@.len(),
                forall|j: int| 0 <= j < i ==> #[trigger] views[j] != title@,
            decreases self.selected_titles@.len() - i,
        {
            if self.selected_titles[i] == title {
                proof {
                    assert(views[i as int] == title@);
                    lemma_first_index(views, title@, i as int);
                }
                self.selected_titles.remove(i);
                assert(string_views(self.selected_titles@) =~= views.remove(i as int));
                return;
            }
            i = i + 1;
        }
        proof {
            assert(!views.contains(title@)) by {
                if views.contains(title@) {
                    let j = choose|j: int| 0 <= j < views.len() && views[j] == title@;
                    assert(views[j] != title@);
                }
            }
        }
        self.selected_titles.push(title);
        assert(string_views(self.selected_titles@) =~= views.push(title@));
    }

    /// The last value chosen in `section`.
    fn chosen(&self, section: FilterSection) -> (r: Option<u64>)
        ensures
            r == last_value(self.active(), section),
    {
        let mut r: Option<u64> = None;
        let mut i: usize = 0;
        assert(self.active_filters@.take(0) =~= Seq::<(FilterSection, u64)>::empty());
        while i < self.active_filters.len()
            invariant
                i <= self.active_filters@.len(),
                r == last_value(self.active_filters@.take(i as int), section),
            decreases self.active_filters@.len() - i,
        {
            let (s, v) = self.active_filters[i];
            proof {
                assert(self.active_filters@.take(i + 1).drop_last() =~= self.active_filters@.take(
                    i as int,
                ));
            }
            if s == section {
                r = Some(v);
            }
            i = i + 1;
        }
        assert(self.active_filters@.take(self.active_filters@.len() as int)
            =~= self.active_filters@);
        r
    }

    /// Filters the message list by the chosen values: the last chosen source address,
    /// destination address and PGN, and every chosen title.
    pub fn apply_to_message_list(&self, list: &mut MessageList<FilterRule>)
        requires
            old(list).wf(),
        ensures
            final(list).wf(),
            final(list).messages() == old(list).messages(),
            final(list).indices() == old(list).indices(),
            final(list).dirty(),
            final(list).view_kept(old(list)),
            forall|m: DecodedMessage|
                #[trigger] all_accept(final(list).filters(), m) == {
                    let titles = self.titles();
                    &&& message_filter_accepts(
                        as_address(last_value(self.active(), FilterSection::SourceAddr)),
                        as_pgn(last_value(self.active(), FilterSection::Pgn)),
                        Seq::<String>::empty(),
                        Seq::<u64>::empty(),
                        Seq::<u64>::empty(),
                        m,
                    )
                    &&& forall|i: int|
                        0 <= i < titles.len() ==> crate::filters::title_matches(
                            m,
                            crate::text::lowercase(#[trigger] titles[i]),
                        )
                },
    {
        let source_addr = match self.chosen(FilterSection::SourceAddr) {
            Some(v) => Some(v as u8),
            None => None,
        };
        let dest_addr = match self.chosen(FilterSection::DestAddr) {
            Some(v) => Some(v as u8),
            None => None,
        };
        let pgn = match self.chosen(FilterSection::Pgn) {
            Some(v) => Some(v as u32),
            None => None,
        };
        let mut titles: Vec<String> = Vec::new();
        let mut i: usize = 0;
        while i < self.selected_titles.len()
            invariant
                i <= self.selected_titles@.len(),
                titles@.len() == i,
                forall|j: int| 0 <= j < i ==> #[trigger] titles@[j]@ == self.selected_titles@[j]@,
            decreases self.selected_titles@.len() - i,
        {
            titles.push(copy_string(&self.selected_titles[i]));
            i = i + 1;
        }
        let ghost copied = titles@;
        let ghost views = self.titles();
        let ghost src = as_address(last_value(self.active(), FilterSection::SourceAddr));
        let ghost pg = as_pgn(last_value(self.active(), FilterSection::Pgn));
        assert(source_addr == src);
        assert(pgn == pg);
        assert(views.len() == copied.len());
        assert forall|i: int| 0 <= i < views.len() implies #[trigger] views[i] == copied[i]@ by {}
        list.set_filter(source_addr, dest_addr, pgn, titles, Vec::new(), Vec::new());
        proof {
            let e = Seq::<u64>::empty();
            assert forall|m: DecodedMessage| #[trigger] all_accept(list.filters(), m) == {
                &&& message_filter_accepts(src, pg, Seq::<String>::empty(), e, e, m)
                &&& forall|i: int|
                    0 <= i < views.len() ==> crate::filters::title_matches(
                        m,
                        crate::text::lowercase(#[trigger] views[i]),
                    )
            } by {
                assert(all_accept(list.filters(), m) == message_filter_accepts(src, pg, copied, e, e, m));
                if forall|i: int|
                    0 <= i < views.len() ==> crate::filters::title_matches(
                        m,
                        crate::text::lowercase(#[trigger] views[i]),
                    ) {
                    assert forall|i: int| 0 <= i < copied.len() implies crate::filters::title_matches(
                        m,
                        crate::text::lowercase(#[trigger] copied[i]@),
                    ) by {
                        assert(views[i] == copied[i]@);
                    }
                }
                if forall|i: int|
                    0 <= i < copied.len() ==> crate::filters::title_matches(
                        m,
                        crate::text::lowercase(#[trigger] copied[i]@),
                    ) {
                    assert forall|i: int| 0 <= i < views.len() implies crate::filters::title_matches(
                        m,
                        crate::text::lowercase(#[trigger] views[i]),
                    ) by {
                        assert(views[i] == copied[i]@);
                    }
                }
            }
        }
    }
}

} // verus!
