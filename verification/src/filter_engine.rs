//! Keeps every received message and computes, lazily, which ones pass the active filters.
use vstd::prelude::*;
use std::collections::VecDeque;
use crate::types::DecodedMessage;
use crate::filters::Filter;

verus! {

/// Every filter accepts the message.
pub open spec fn all_accept<F: Filter>(filters: Seq<F>, m: DecodedMessage) -> bool {
    forall|i: int| 0 <= i < filters.len() ==> #[trigger] filters[i].accepts(m)
}

/// Positions of the messages that every filter accepts, in order.
pub open spec fn passing<F: Filter>(msgs: Seq<DecodedMessage>, filters: Seq<F>) -> Seq<usize>
    decreases msgs.len(),
{
    if msgs.len() == 0 {
        Seq::empty()
    } else {
        let p = passing(msgs.drop_last(), filters);
        if all_accept(filters, msgs.last()) {
            p.push((msgs.len() - 1) as usize)
        } else {
            p
        }
    }
}

/// Engine that stores all messages and computes which ones pass the active filters.
///
/// Filtering is a soft layer: every message is stored regardless of filter state; the list
/// of passing positions is recomputed only when it is stale.
pub struct FilterEngine<F> {
    /// All messages ever received (until cleared).
    all_messages: VecDeque<DecodedMessage>,
    /// Active filters (all must accept).
    active_filters: Vec<F>,
    /// Positions in `all_messages` that passed at the last computation.
    filtered_indices: Vec<usize>,
    /// Whether `filtered_indices` is stale.
    indices_dirty: bool,
}

impl<F: Filter> FilterEngine<F> {
    /// The stored messages.
    pub closed spec fn messages(&self) -> Seq<DecodedMessage> {
        self.all_messages@
    }

    /// The active filters.
    pub closed spec fn filters(&self) -> Seq<F> {
        self.active_filters@
    }

    /// The positions computed last.
    pub closed spec fn indices(&self) -> Seq<usize> {
        self.filtered_indices@
    }

    /// Whether the positions are stale.
    pub closed spec fn dirty(&self) -> bool {
        self.indices_dirty
    }

    /// Every stored position names a stored message, and a list that is not stale is the
    /// list of passing positions.
    pub closed spec fn wf(&self) -> bool {
        &&& forall|k: int|
            0 <= k < self.filtered_indices@.len() ==> #[trigger] self.filtered_indices@[k]
                < self.all_messages@.len()
        &&& !self.indices_dirty ==> self.filtered_indices@ == passing(
            self.all_messages@,
            self.active_filters@,
        )
    }

    /// Every computed position names a stored message.
    pub proof fn lemma_index_in_range(&self, k: int)
        requires
            self.wf(),
            0 <= k < self.indices().len(),
        ensures
            self.indices()[k] < self.messages().len(),
    {
    }

    /// The positions that `get_filtered_indices` reports: recomputed when stale.
    pub open spec fn current_indices(&self) -> Seq<usize> {
        if self.dirty() {
            passing(self.messages(), self.filters())
        } else {
            self.indices()
        }
    }

    /// A new engine with no messages and no filters.
    pub fn new() -> (r: Self)
        ensures
            r.wf(),
            r.messages() == Seq::<DecodedMessage>::empty(),
            r.filters() == Seq::<F>::empty(),
            r.indices() == Seq::<usize>::empty(),
            r.dirty(),
    {
        FilterEngine {
            all_messages: VecDeque::new(),
            active_filters: Vec::new(),
            filtered_indices: Vec::new(),
            indices_dirty: true,
        }
    }

    /// Appends a message. With no filters the list becomes current at once: every position,
    /// in order (a stale list is computed anew); otherwise the list is marked stale.
    pub fn add_message(&mut self, msg: DecodedMessage)
        requires
            old(self).wf(),
        ensures
            final(self).wf(),
            final(self).messages() == old(self).messages().push(msg),
            final(self).filters() == old(self).filters(),
            old(self).filters().len() == 0 ==> final(self).indices() == Seq::new(
                final(self).messages().len(),
                |i: int| i as usize,
            ) && !final(self).dirty(),
            old(self).filters().len() > 0 ==> final(self).indices() == old(self).indices()
                && final(self).dirty(),
    {
        let idx = self.all_messages.len();
        let ghost old_msgs = self.all_messages@;
        self.all_messages.push_back(msg);
        if self.active_filters.len() == 0 {
            proof {
                lemma_no_filters_pass_all::<F>(self.all_messages@);
                assert(self.active_filters@ =~= Seq::<F>::empty());
            }
            if self.indices_dirty {
                self.recompute();
            } else {
                proof {
                    lemma_passing_push(old_msgs, msg, self.active_filters@);
                }
                self.filtered_indices.push(idx);
            }
        } else {
            self.indices_dirty = true;
        }
    }

    /// Replaces all active filters; the list becomes stale.
    pub fn set_filters(&mut self, filters: Vec<F>)
        requires
            old(self).wf(),
        ensures
            final(self).wf(),
            final(self).messages() == old(self).messages(),
            final(self).filters() == filters@,
            final(self).indices() == old(self).indices(),
            final(self).dirty(),
    {
        self.active_filters = filters;
        self.indices_dirty = true;
    }

    /// Adds one filter; the list becomes stale.
    pub fn add_filter(&mut self, filter: F)
        requires
            old(self).wf(),
        ensures
            final(self).wf(),
            final(self).messages() == old(self).messages(),
            final(self).filters() == old(self).filters().push(filter),
            final(self).indices() == old(self).indices(),
            final(self).dirty(),
    {
        self.active_filters.push(filter);
        self.indices_dirty = true;
    }

    /// Removes the filter at `idx`, if there is one; the list then becomes stale.
    pub fn remove_filter_at(&mut self, idx: usize)
        requires
            old(self).wf(),
        ensures
            final(self).wf(),
            final(self).messages() == old(self).messages(),
            final(self).indices() == old(self).indices(),
            idx < old(self).filters().len() ==> final(self).filters() == old(self).filters().remove(
                idx as int,
            ) && final(self).dirty(),
            idx >= old(self).filters().len() ==> final(self).filters() == old(self).filters()
                && final(self).dirty() == old(self).dirty(),
    {
        if idx < self.active_filters.len() {
            self.active_filters.remove(idx);
            self.indices_dirty = true;
        }
    }

    /// Runs all filters over every message and records the passing positions.
    pub fn recompute(&mut self)
        requires
            old(self).wf(),
        ensures
            final(self).wf(),
            final(self).messages() == old(self).messages(),
            final(self).filters() == old(self).filters(),
            final(self).indices() == passing(old(self).messages(), old(self).filters()),
            !final(self).dirty(),
    {
        self.filtered_indices.clear();
        let n = self.all_messages.len();
        let mut i: usize = 0;
        assert(self.all_messages@.take(0) =~= Seq::<DecodedMessage>::empty());
        while i < n
            invariant
                i <= n == self.all_messages@.len(),
                self.all_messages@ == old(self).all_messages@,
                self.active_filters@ == old(self).active_filters@,
                self.filtered_indices@ == passing(
                    self.all_messages@.take(i as int),
                    self.active_filters@,
                ),
                forall|k: int|
                    0 <= k < self.filtered_indices@.len() ==> #[trigger] self.filtered_indices@[k]
                        < i,
            decreases n - i,
        {
            proof {
                assert(self.all_messages@.take(i + 1).drop_last() =~= self.all_messages@.take(
                    i as int,
                ));
                assert(self.all_messages@.take(i + 1).last() == self.all_messages@[i as int]);
            }
            let passes = self.message_passes_all_filters(&self.all_messages[i]);
            if passes {
                self.filtered_indices.push(i);
            }
            i = i + 1;
        }
        assert(self.all_messages@.take(n as int) =~= self.all_messages@);
        self.indices_dirty = false;
    }

    /// The passing positions, recomputed first when stale.
    pub fn get_filtered_indices(&mut self) -> (r: &[usize])
        requires
            old(self).wf(),
        ensures
            final(self).wf(),
            r@ == old(self).current_indices(),
            final(self).indices() == old(self).current_indices(),
            final(self).messages() == old(self).messages(),
            final(self).filters() == old(self).filters(),
            !final(self).dirty() || old(self).dirty() == final(self).dirty() && !old(self).dirty(),
    {
        if self.indices_dirty {
            self.recompute();
        }
        self.filtered_indices.as_slice()
    }

    /// The message at a position of the last computed list.
    pub fn get_message_at(&self, filtered_idx: usize) -> (r: Option<&DecodedMessage>)
        requires
            self.wf(),
        ensures
            filtered_idx < self.indices().len() ==> r == Some(
                &self.messages()[self.indices()[filtered_idx as int] as int],
            ),
            filtered_idx >= self.indices().len() ==> r is None,
    {
        if filtered_idx >= self.filtered_indices.len() {
            return None;
        }
        let global_idx = self.filtered_indices[filtered_idx];
        if global_idx >= self.all_messages.len() {
            return None;
        }
        Some(&self.all_messages[global_idx])
    }

    /// The stored message at position `global_idx`, if there is one.
    pub fn get_message_by_global_index(&self, global_idx: usize) -> (r: Option<&DecodedMessage>)
        ensures
            global_idx < self.messages().len() ==> r == Some(
                &self.messages()[global_idx as int],
            ),
            global_idx >= self.messages().len() ==> r is None,
    {
        if global_idx < self.all_messages.len() {
            Some(&self.all_messages[global_idx])
        } else {
            None
        }
    }

    /// Number of stored messages.
    pub fn total_count(&self) -> (r: usize)
        ensures
            r == self.messages().len(),
    {
        self.all_messages.len()
    }

    /// Number of passing messages, recomputing first when stale.
    pub fn filtered_count(&mut self) -> (r: usize)
        requires
            old(self).wf(),
        ensures
            final(self).wf(),
            r == old(self).current_indices().len(),
            final(self).indices() == old(self).current_indices(),
            final(self).messages() == old(self).messages(),
            final(self).filters() == old(self).filters(),
            !final(self).dirty() || old(self).dirty() == final(self).dirty() && !old(self).dirty(),
    {
        if self.indices_dirty {
            self.recompute();
        }
        self.filtered_indices.len()
    }

    /// Whether every active filter accepts the message.
    fn message_passes_all_filters(&self, msg: &DecodedMessage) -> (r: bool)
        ensures
            r == all_accept(self.active_filters@, *msg),
    {
        let mut i: usize = 0;
        while i < self.active_filters.len()
            invariant
                i <= self.active_filters@.len(),
                forall|k: int| 0 <= k < i ==> #[trigger] self.active_filters@[k].accepts(*msg),
            decreases self.active_filters@.len() - i,
        {
            if !self.active_filters[i].matches_sync(msg) {
                return false;
            }
            i = i + 1;
        }
        true
    }

    /// Whether the computed list is stale.
    pub fn indices_dirty(&self) -> (r: bool)
        ensures
            r == self.dirty(),
    {
        self.indices_dirty
    }

    /// Removes all messages and marks the list stale; the filters stay.
    pub fn clear(&mut self)
        requires
            old(self).wf(),
        ensures
            final(self).wf(),
            final(self).messages() == Seq::<DecodedMessage>::empty(),
            final(self).filters() == old(self).filters(),
            final(self).indices() == Seq::<usize>::empty(),
            final(self).dirty(),
    {
        self.all_messages.clear();
        self.filtered_indices.clear();
        self.indices_dirty = true;
    }
}

impl<F: Filter> Default for FilterEngine<F> {
    fn default() -> (r: Self)
        ensures
            r.wf(),
            r.messages() == Seq::<DecodedMessage>::empty(),
            r.filters() == Seq::<F>::empty(),
            r.indices() == Seq::<usize>::empty(),
            r.dirty(),
    {
        Self::new()
    }
}


/// One more message extends the passing positions by its own position exactly when every
/// filter accepts it.
pub proof fn lemma_passing_push<F: Filter>(msgs: Seq<DecodedMessage>, m: DecodedMessage, filters: Seq<F>)
    ensures
        passing(msgs.push(m), filters) == if all_accept(filters, m) {
            passing(msgs, filters).push(msgs.len() as usize)
        } else {
            passing(msgs, filters)
        },
{
    assert(msgs.push(m).drop_last() =~= msgs);
}

/// With no filters every message passes: the positions are 0, 1, ..., n - 1.
pub proof fn lemma_no_filters_pass_all<F: Filter>(msgs: Seq<DecodedMessage>)
    ensures
        passing(msgs, Seq::<F>::empty()) == Seq::new(msgs.len(), |i: int| i as usize),
    decreases msgs.len(),
{
    if msgs.len() > 0 {
        lemma_no_filters_pass_all::<F>(msgs.drop_last());
        assert(passing(msgs, Seq::<F>::empty()) =~= Seq::new(msgs.len(), |i: int| i as usize));
    }
}

/// Appending a message while no filter is active keeps a current list current: the list with
/// the new position appended is what a recomputation gives.
pub proof fn lemma_add_keeps_current<F: Filter>(
    msgs: Seq<DecodedMessage>,
    m: DecodedMessage,
    filters: Seq<F>,
    indices: Seq<usize>,
)
    requires
        filters.len() == 0,
        indices == passing(msgs, filters),
    ensures
        indices.push(msgs.len() as usize) == passing(msgs.push(m), filters),
{
    lemma_passing_push(msgs, m, filters);
}

/// The passing positions are in strictly increasing order and name stored messages.
pub proof fn lemma_passing_increasing<F: Filter>(msgs: Seq<DecodedMessage>, filters: Seq<F>)
    requires
        msgs.len() <= usize::MAX,
    ensures
        forall|i: int, j: int|
            0 <= i < j < passing(msgs, filters).len() ==> #[trigger] passing(msgs, filters)[i]
                < #[trigger] passing(msgs, filters)[j],
        forall|i: int|
            0 <= i < passing(msgs, filters).len() ==> #[trigger] passing(msgs, filters)[i]
                < msgs.len(),
    decreases msgs.len(),
{
    if msgs.len() > 0 {
        let pre = msgs.drop_last();
        let p = passing(pre, filters);
        lemma_passing_increasing(pre, filters);
        if all_accept(filters, msgs.last()) {
            let q = p.push((msgs.len() - 1) as usize);
            assert(passing(msgs, filters) == q);
            assert forall|i: int, j: int| 0 <= i < j < q.len() implies #[trigger] q[i] < #[trigger] q[j] by {
                if j < p.len() {
                    assert(q[i] == p[i] && q[j] == p[j]);
                } else {
                    assert(q[i] == p[i]);
                }
            }
            assert forall|i: int| 0 <= i < q.len() implies #[trigger] q[i] < msgs.len() by {
                if i < p.len() {
                    assert(q[i] == p[i]);
                }
            }
        }
    }
}

} // verus!
