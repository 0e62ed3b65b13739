//! Scrolling state for list views: which rows are visible and which one is selected.
use vstd::prelude::*;

verus! {

/// Manages scrolling state for the message list view.
///
/// Keeps track of which messages are visible in the viewport and keeps the selected
/// message in view with look-ahead margins above and below it.
#[derive(Debug, Clone, Copy, PartialEq, Eq)]
pub struct MessageScrollManager {
    /// Maximum number of rows visible in the widget (viewport height).
    pub num_rows: usize,
    /// Total number of messages that pass the filter.
    pub num_messages: usize,
    /// Index of the currently selected message (0-based).
    pub selected_index: usize,
    /// Index of the top visible message in the viewport.
    pub first_visible_message: usize,
    /// Minimum number of messages to show above the selection when possible.
    pub look_ahead_top: usize,
    /// Minimum number of messages to show below the selection when possible.
    pub look_ahead_bottom: usize,
}

/// `a - b`, or zero when `b > a`.
pub open spec fn sat_sub(a: int, b: int) -> int {
    if a >= b {
        a - b
    } else {
        0
    }
}

/// Look-ahead margins trimmed to fit a viewport of `rows` rows: while they do not fit, the
/// larger one (the bottom one on a tie) shrinks by one.
pub open spec fn trim_look_ahead(top: nat, bottom: nat, rows: nat) -> (nat, nat)
    decreases top + bottom,
{
    if top + bottom <= rows {
        (top, bottom)
    } else if top > bottom {
        trim_look_ahead((top - 1) as nat, bottom, rows)
    } else {
        trim_look_ahead(top, (bottom - 1) as nat, rows)
    }
}

/// The selection after clamping to the message count.
pub open spec fn clamped_selection(s: MessageScrollManager) -> int {
    if s.num_messages == 0 {
        0
    } else if s.selected_index < s.num_messages - 1 {
        s.selected_index as int
    } else {
        s.num_messages - 1
    }
}

/// Lowest first row that keeps the top margin above the selection.
pub open spec fn top_limit(s: MessageScrollManager) -> int {
    let t = trim_look_ahead(s.look_ahead_top as nat, s.look_ahead_bottom as nat, s.num_rows as nat);
    sat_sub(clamped_selection(s), t.0 as int)
}

/// Last row that should be visible below the selection.
pub open spec fn bottom_limit(s: MessageScrollManager) -> int {
    let t = trim_look_ahead(s.look_ahead_top as nat, s.look_ahead_bottom as nat, s.num_rows as nat);
    let b = clamped_selection(s) + t.1 + 1;
    if b < s.num_messages - 1 {
        b
    } else {
        s.num_messages - 1
    }
}

/// The first visible row after the top margin was enforced.
pub open spec fn first_after_top(s: MessageScrollManager) -> int {
    if s.first_visible_message > top_limit(s) {
        top_limit(s)
    } else {
        s.first_visible_message as int
    }
}

/// Clamping cannot overflow machine arithmetic.
pub open spec fn clamp_fits(s: MessageScrollManager) -> bool {
    s.num_messages == 0 || {
        &&& s.look_ahead_top + s.look_ahead_bottom <= usize::MAX
        &&& clamped_selection(s) + trim_look_ahead(
            s.look_ahead_top as nat,
            s.look_ahead_bottom as nat,
            s.num_rows as nat,
        ).1 + 1 <= usize::MAX
        &&& first_after_top(s) + s.num_rows + 1 <= usize::MAX
    }
}

/// The state after clamping selection and first row to valid, margin-respecting values.
pub open spec fn spec_clamp(s: MessageScrollManager) -> MessageScrollManager {
    if s.num_messages == 0 {
        MessageScrollManager { selected_index: 0, first_visible_message: 0, ..s }
    } else {
        let f1 = first_after_top(s);
        let f2 = if f1 + s.num_rows + 1 <= bottom_limit(s) {
            let g = sat_sub(bottom_limit(s), s.num_rows as int);
            if g + s.num_rows + 1 >= s.num_messages {
                sat_sub(s.num_messages as int, s.num_rows as int)
            } else {
                g
            }
        } else {
            f1
        };
        MessageScrollManager {
            selected_index: clamped_selection(s) as usize,
            first_visible_message: f2 as usize,
            ..s
        }
    }
}

/// The state with the first visible row moved, where needed, so that the selected row is
/// in view: to the selection when it lies above the view, or so that the selection is the
/// last visible row when it lies below. With no messages or no rows nothing moves.
pub open spec fn spec_show_selected(c: MessageScrollManager) -> MessageScrollManager {
    let r = spec_visible_range(c);
    if c.num_messages == 0 || c.num_rows == 0 || (r.0 <= c.selected_index && c.selected_index < r.1) {
        c
    } else if c.selected_index < r.0 {
        MessageScrollManager { first_visible_message: c.selected_index, ..c }
    } else {
        MessageScrollManager {
            first_visible_message: (c.selected_index + 1 - c.num_rows) as usize,
            ..c
        }
    }
}

/// The state after clamping and then bringing the selected row into view.
pub open spec fn spec_ensure_visible(s: MessageScrollManager) -> MessageScrollManager {
    spec_show_selected(spec_clamp(s))
}

/// The selected row lies in the visible range (there being messages).
pub open spec fn selected_visible(s: MessageScrollManager) -> bool {
    s.num_messages > 0 && spec_visible_range(s).0 <= s.selected_index < spec_visible_range(s).1
}

/// The state once a message is counted: the selection follows it when the last message
/// was selected.
pub open spec fn added_state(s: MessageScrollManager) -> MessageScrollManager {
    MessageScrollManager {
        num_messages: (s.num_messages + 1) as usize,
        selected_index: if s.num_messages > 0 && s.selected_index == s.num_messages - 1 {
            s.num_messages
        } else {
            s.selected_index
        },
        ..s
    }
}

/// The selection `delta` rows away from `selected`, kept within `[0, count - 1]`.
pub open spec fn moved_selection(selected: usize, count: usize, delta: isize) -> int {
    let max_idx: int = ((sat_sub(count as int, 1) as usize) as isize) as int;
    let t: int = (selected as isize) + delta;
    let t0: int = if t > 0 {
        t
    } else {
        0
    };
    ((if t0 < max_idx {
        t0
    } else {
        max_idx
    }) as isize) as usize as int
}

/// Moving the selection cannot overflow signed arithmetic.
pub open spec fn move_fits(selected: usize, delta: isize) -> bool {
    isize::MIN <= (selected as isize) + delta <= isize::MAX
}

/// Visible range `[start, end)` of a state.
pub open spec fn spec_visible_range(s: MessageScrollManager) -> (int, int) {
    let last = sat_sub(s.num_messages as int, 1);
    let start = if s.first_visible_message < last {
        s.first_visible_message as int
    } else {
        last
    };
    let end = if start + s.num_rows < s.num_messages {
        start + s.num_rows
    } else {
        s.num_messages as int
    };
    (start, end)
}

/// The state after moving the selection by `delta` (unchanged when the target equals it).
pub open spec fn spec_move(s: MessageScrollManager, delta: isize) -> MessageScrollManager {
    let target = moved_selection(s.selected_index, s.num_messages, delta);
    if target == s.selected_index {
        s
    } else {
        spec_ensure_visible(MessageScrollManager { selected_index: target as usize, ..s })
    }
}

/// Moving the selection from state `s` is free of overflow.
pub open spec fn move_ok(s: MessageScrollManager, delta: isize) -> bool {
    &&& move_fits(s.selected_index, delta)
    &&& clamp_fits(
        MessageScrollManager {
            selected_index: moved_selection(s.selected_index, s.num_messages, delta) as usize,
            ..s
        },
    )
}

impl MessageScrollManager {
    /// Create a new MessageScrollManager with default settings.
    pub fn new() -> (r: Self)
        ensures
            r == (MessageScrollManager {
                num_rows: 20,
                num_messages: 0,
                selected_index: 0,
                first_visible_message: 0,
                look_ahead_top: 3,
                look_ahead_bottom: 3,
            }),
    {
        MessageScrollManager {
            num_rows: 20,
            num_messages: 0,
            selected_index: 0,
            first_visible_message: 0,
            look_ahead_top: 3,
            look_ahead_bottom: 3,
        }
    }

    /// Set the viewport height (number of visible rows).
    pub fn set_num_rows(&mut self, num_rows: usize)
        requires
            clamp_fits(MessageScrollManager { num_rows, ..*old(self) }),
        ensures
            *final(self) == spec_clamp(MessageScrollManager { num_rows, ..*old(self) }),
    {
        self.num_rows = num_rows;
        self.clamp();
    }

    /// Set the total number of messages and clamp all state.
    pub fn set_num_messages(&mut self, num_messages: usize)
        requires
            clamp_fits(MessageScrollManager { num_messages, ..*old(self) }),
        ensures
            *final(self) == spec_clamp(MessageScrollManager { num_messages, ..*old(self) }),
    {
        self.num_messages = num_messages;
        self.clamp();
    }

    /// Bring the first visible row in line with the selection and its margins, then make
    /// sure the selected row itself is in view.
    pub fn ensure_selected_visible(&mut self)
        requires
            clamp_fits(*old(self)),
        ensures
            *final(self) == spec_ensure_visible(*old(self)),
            old(self).num_messages > 0 && old(self).num_rows > 0 ==> selected_visible(*final(self)),
    {
        self.clamp();
        if self.num_messages > 0 && self.num_rows > 0 {
            let last = self.num_messages - 1;
            let start = if self.first_visible_message < last {
                self.first_visible_message
            } else {
                last
            };
            let end = if self.num_messages - start > self.num_rows {
                start + self.num_rows
            } else {
                self.num_messages
            };
            if self.selected_index < start {
                self.first_visible_message = self.selected_index;
            } else if self.selected_index >= end {
                self.first_visible_message = self.selected_index - self.num_rows + 1;
            }
        }
    }

    /// Add a delta to selected_index, kept within the message range, and keep it in view.
    pub fn move_selection(&mut self, delta: isize)
        requires
            move_ok(*old(self), delta),
        ensures
            *final(self) == spec_move(*old(self), delta),
    {
        let current: isize = self.selected_index as isize;
        let max_idx: isize = (if self.num_messages >= 1 {
            self.num_messages - 1
        } else {
            0
        }) as isize;
        let t = current + delta;
        let t0 = if t > 0 {
            t
        } else {
            0
        };
        let new_selected = (if t0 < max_idx {
            t0
        } else {
            max_idx
        }) as usize;
        if new_selected != self.selected_index {
            self.selected_index = new_selected;
            self.ensure_selected_visible();
        }
    }

    /// Move selection down by one.
    pub fn scroll_down(&mut self)
        requires
            move_ok(*old(self), 1),
        ensures
            *final(self) == spec_move(*old(self), 1),
    {
        self.move_selection(1);
    }

    /// Move selection up by one.
    pub fn scroll_up(&mut self)
        requires
            move_ok(*old(self), -1isize),
        ensures
            *final(self) == spec_move(*old(self), -1isize),
    {
        self.move_selection(-1);
    }

    /// Page down (move the selection by the viewport height).
    pub fn page_down(&mut self)
        requires
            move_ok(*old(self), old(self).num_rows as isize),
        ensures
            *final(self) == spec_move(*old(self), old(self).num_rows as isize),
    {
        self.move_selection(self.num_rows as isize);
    }

    /// Page up (move the selection back by the viewport height).
    pub fn page_up(&mut self)
        requires
            (old(self).num_rows as isize) > isize::MIN,
            move_ok(*old(self), (-(old(self).num_rows as isize)) as isize),
        ensures
            *final(self) == spec_move(*old(self), (-(old(self).num_rows as isize)) as isize),
    {
        let rows = self.num_rows as isize;
        self.move_selection(-rows);
    }

    /// Move selection to the first message.
    pub fn go_to_top(&mut self)
        ensures
            *final(self) == if old(self).num_messages > 0 {
                MessageScrollManager { selected_index: 0, first_visible_message: 0, ..*old(self) }
            } else {
                *old(self)
            },
    {
        if self.num_messages > 0 {
            self.selected_index = 0;
            self.first_visible_message = 0;
        }
    }

    /// Move selection to the last message.
    pub fn go_to_bottom(&mut self)
        requires
            old(self).num_messages > 0 ==> clamp_fits(
                MessageScrollManager {
                    selected_index: (old(self).num_messages - 1) as usize,
                    ..*old(self)
                },
            ),
        ensures
            *final(self) == if old(self).num_messages > 0 {
                spec_ensure_visible(
                    MessageScrollManager {
                        selected_index: (old(self).num_messages - 1) as usize,
                        ..*old(self)
                    },
                )
            } else {
                *old(self)
            },
    {
        if self.num_messages > 0 {
            self.selected_index = self.num_messages - 1;
            self.ensure_selected_visible();
        }
    }

    /// Get the range of visible message indices [start, end).
    pub fn get_visible_range(&self) -> (r: (usize, usize))
        requires
            self.first_visible_message + self.num_rows <= usize::MAX
                || self.num_messages <= self.first_visible_message,
        ensures
            (r.0 as int, r.1 as int) == spec_visible_range(*self),
    {
        let last = if self.num_messages >= 1 {
            self.num_messages - 1
        } else {
            0
        };
        let start = if self.first_visible_message < last {
            self.first_visible_message
        } else {
            last
        };
        let end = if self.num_messages - start > self.num_rows {
            start + self.num_rows
        } else {
            self.num_messages
        };
        (start, end)
    }

    /// Get the index of the selected message relative to the viewport.
    pub fn get_selected_viewport_index(&self) -> (r: Option<usize>)
        requires
            self.first_visible_message + self.num_rows <= usize::MAX
                || self.num_messages <= self.first_visible_message,
        ensures
            ({
                let start = spec_visible_range(*self).0;
                if self.selected_index >= start && self.selected_index < start + self.num_rows
                    && self.num_messages > 0 {
                    r == Some((self.selected_index - start) as usize)
                } else {
                    r is None
                }
            }),
    {
        let (start, _) = self.get_visible_range();
        if self.selected_index >= start && self.selected_index - start < self.num_rows
            && self.num_messages > 0 {
            Some(self.selected_index - start)
        } else {
            None
        }
    }

    /// Check if the selected message is currently visible in the viewport.
    pub fn is_selected_visible(&self) -> (r: bool)
        requires
            self.first_visible_message + self.num_rows <= usize::MAX
                || self.num_messages <= self.first_visible_message,
        ensures
            r == (spec_visible_range(*self).0 <= self.selected_index < spec_visible_range(*self).1
                && self.num_messages > 0),
    {
        let (start, end) = self.get_visible_range();
        self.selected_index >= start && self.selected_index < end && self.num_messages > 0
    }

    /// Clamp the selection to the message count and the first visible row to the margins.
    pub fn clamp(&mut self)
        requires
            clamp_fits(*old(self)),
        ensures
            *final(self) == spec_clamp(*old(self)),
    {
        if self.num_messages == 0 {
            self.selected_index = 0;
            self.first_visible_message = 0;
            return;
        }
        let ghost s0 = *self;
        if self.selected_index > self.num_messages - 1 {
            self.selected_index = self.num_messages - 1;
        }
        let mut look_ahead_top = self.look_ahead_top;
        let mut look_ahead_bottom = self.look_ahead_bottom;
        while look_ahead_top + look_ahead_bottom > self.num_rows
            invariant
                trim_look_ahead(look_ahead_top as nat, look_ahead_bottom as nat, self.num_rows as nat)
                    == trim_look_ahead(s0.look_ahead_top as nat, s0.look_ahead_bottom as nat, s0.num_rows as nat),
                self.num_rows == s0.num_rows,
                look_ahead_top <= s0.look_ahead_top,
                look_ahead_bottom <= s0.look_ahead_bottom,
                s0.look_ahead_top + s0.look_ahead_bottom <= usize::MAX,
            decreases look_ahead_top + look_ahead_bottom,
        {
            if look_ahead_top > look_ahead_bottom {
                look_ahead_top = look_ahead_top - 1;
            } else {
                look_ahead_bottom = look_ahead_bottom - 1;
            }
        }
        let top_min = if self.selected_index >= look_ahead_top {
            self.selected_index - look_ahead_top
        } else {
            0
        };
        let mut bottom_max = self.selected_index + look_ahead_bottom + 1;
        if bottom_max > self.num_messages - 1 {
            bottom_max = self.num_messages - 1;
        }
        if self.first_visible_message > top_min {
            self.first_visible_message = top_min;
        }
        if self.first_visible_message + self.num_rows + 1 <= bottom_max {
            self.first_visible_message = if bottom_max >= self.num_rows {
                bottom_max - self.num_rows
            } else {
                0
            };
            if self.first_visible_message + self.num_rows + 1 >= self.num_messages {
                self.first_visible_message = if self.num_messages >= self.num_rows {
                    self.num_messages - self.num_rows
                } else {
                    0
                };
            }
        }
    }

    /// Called when a new message is added: count it and follow it if the last one was selected.
    pub fn on_message_added(&mut self)
        requires
            old(self).num_messages < usize::MAX,
            clamp_fits(added_state(*old(self))),
            clamp_fits(spec_clamp(added_state(*old(self)))),
        ensures
            *final(self) == spec_ensure_visible(spec_clamp(added_state(*old(self)))),
    {
        let old_num_messages = self.num_messages;
        self.num_messages = self.num_messages + 1;
        if old_num_messages > 0 && self.selected_index == old_num_messages - 1 {
            self.selected_index = old_num_messages;
        }
        self.clamp();
        self.ensure_selected_visible();
    }

    /// Called when a message is removed (e.g. the buffer dropped its oldest entry).
    pub fn on_message_removed(&mut self)
        requires
            old(self).num_messages > 0 ==> clamp_fits(
                MessageScrollManager {
                    num_messages: (old(self).num_messages - 1) as usize,
                    ..*old(self)
                },
            ),
            old(self).num_messages > 0 ==> clamp_fits(
                spec_clamp(
                    MessageScrollManager {
                        num_messages: (old(self).num_messages - 1) as usize,
                        ..*old(self)
                    },
                ),
            ),
        ensures
            *final(self) == if old(self).num_messages == 0 {
                *old(self)
            } else {
                spec_ensure_visible(
                    spec_clamp(
                        MessageScrollManager {
                            num_messages: (old(self).num_messages - 1) as usize,
                            ..*old(self)
                        },
                    ),
                )
            },
    {
        if self.num_messages == 0 {
            return;
        }
        self.num_messages = self.num_messages - 1;
        self.clamp();
        self.ensure_selected_visible();
    }

    /// Called when the filtered count changes: clamp everything to the new count.
    pub fn on_filter_change(&mut self)
        requires
            clamp_fits(*old(self)),
            clamp_fits(spec_clamp(*old(self))),
        ensures
            *final(self) == spec_ensure_visible(spec_clamp(*old(self))),
    {
        self.clamp();
        self.ensure_selected_visible();
        if self.num_messages > 0 && self.selected_index >= self.num_messages {
            self.selected_index = self.num_messages - 1;
            self.ensure_selected_visible();
        }
    }
}

impl Default for MessageScrollManager {
    fn default() -> (r: Self)
        ensures
            r == (MessageScrollManager {
                num_rows: 20,
                num_messages: 0,
                selected_index: 0,
                first_visible_message: 0,
                look_ahead_top: 3,
                look_ahead_bottom: 3,
            }),
    {
        Self::new()
    }
}

/// Trimmed margins never exceed the originals, and fit the viewport.
pub proof fn lemma_trim_bounded(top: nat, bottom: nat, rows: nat)
    ensures
        trim_look_ahead(top, bottom, rows).0 <= top,
        trim_look_ahead(top, bottom, rows).1 <= bottom,
        trim_look_ahead(top, bottom, rows).0 + trim_look_ahead(top, bottom, rows).1 <= rows,
    decreases top + bottom,
{
    if top + bottom <= rows {
    } else if top > bottom {
        lemma_trim_bounded((top - 1) as nat, bottom, rows);
    } else {
        lemma_trim_bounded(top, (bottom - 1) as nat, rows);
    }
}

/// Clamping keeps the selection inside the message range: it is below the count when there
/// are messages and zero otherwise; the counts, viewport and margins are untouched.
pub proof fn lemma_clamp_selection_in_range(s: MessageScrollManager)
    ensures
        s.num_messages > 0 ==> spec_clamp(s).selected_index < s.num_messages,
        s.num_messages == 0 ==> spec_clamp(s).selected_index == 0
            && spec_clamp(s).first_visible_message == 0,
        spec_clamp(s).num_messages == s.num_messages,
        spec_clamp(s).num_rows == s.num_rows,
        spec_clamp(s).look_ahead_top == s.look_ahead_top,
        spec_clamp(s).look_ahead_bottom == s.look_ahead_bottom,
{
}

/// Moving the selection always lands inside `[0, count - 1]` (at 0 when there is nothing).
pub proof fn lemma_move_in_range(s: MessageScrollManager, delta: isize)
    requires
        move_fits(s.selected_index, delta),
        s.num_messages <= isize::MAX,
    ensures
        0 <= moved_selection(s.selected_index, s.num_messages, delta),
        moved_selection(s.selected_index, s.num_messages, delta) <= sat_sub(s.num_messages as int, 1),
{
}

} // verus!
