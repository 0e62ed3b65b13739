//! The message list: which rows it shows in each view mode, and how the selection moves.
use vstd::prelude::*;
use crate::types::DecodedMessage;
use crate::types::id_source;
use crate::text::lowercase;
use crate::filters::{
    Filter,
    FilterRule,
    SourceFilter,
    PgnFilter,
    TitleFilter,
    SourceNameFilter,
    DestNameFilter,
    title_matches,
};
use crate::filter_engine::{FilterEngine, all_accept};
use crate::latest_index::{LatestKey, key_of, key_before, key_less, same_key};

verus! {

// ─── The rows of the latest view ─────────────────────────────────────────────

/// Puts `(k, gi)` into rows ordered by key: the row of `k` is replaced, or a new row goes
/// before the first row whose key sorts after `k`.
pub open spec fn upsert_row(rows: Seq<(LatestKey, usize)>, k: LatestKey, gi: usize) -> Seq<
    (LatestKey, usize),
>
    decreases rows.len(),
{
    if rows.len() == 0 {
        seq![(k, gi)]
    } else if rows[0].0 == k {
        rows.update(0, (k, gi))
    } else if key_before(k, rows[0].0) {
        seq![(k, gi)] + rows
    } else {
        seq![rows[0]] + upsert_row(rows.drop_first(), k, gi)
    }
}

/// The latest view of the messages at positions `idx`, taken in order: one row per key,
/// holding the position of the last of them with that key.
pub open spec fn latest_rows_of(msgs: Seq<DecodedMessage>, idx: Seq<usize>) -> Seq<
    (LatestKey, usize),
>
    decreases idx.len(),
{
    if idx.len() == 0 {
        Seq::empty()
    } else {
        upsert_row(
            latest_rows_of(msgs, idx.drop_last()),
            key_of(msgs[idx.last() as int]),
            idx.last(),
        )
    }
}

proof fn lemma_key_order(a: LatestKey, b: LatestKey)
    ensures
        !key_before(a, a),
        key_before(a, b) ==> !key_before(b, a),
        a != b ==> key_before(a, b) || key_before(b, a),
{
}

proof fn lemma_key_trans(a: LatestKey, b: LatestKey, c: LatestKey)
    requires
        key_before(a, b),
        key_before(b, c),
    ensures
        key_before(a, c),
{
}

/// The rows are in strictly increasing key order (so no key occurs twice).
pub open spec fn rows_sorted(rows: Seq<(LatestKey, usize)>) -> bool {
    forall|i: int, j: int| 0 <= i < j < rows.len() ==> key_before(#[trigger] rows[i].0, #[trigger] rows[j].0)
}

/// Among the positions `idx`, `gi` is the last one whose message has key `k`.
pub open spec fn is_latest_of(msgs: Seq<DecodedMessage>, idx: Seq<usize>, k: LatestKey, gi: usize) -> bool {
    exists|p: int|
        0 <= p < idx.len() && #[trigger] idx[p] == gi && key_of(msgs[gi as int]) == k && forall|q: int|
            p < q < idx.len() ==> key_of(msgs[#[trigger] idx[q] as int]) != k
}

proof fn lemma_upsert_props(rows: Seq<(LatestKey, usize)>, k: LatestKey, gi: usize)
    requires
        rows_sorted(rows),
    ensures
        rows_sorted(upsert_row(rows, k, gi)),
        upsert_row(rows, k, gi).contains((k, gi)),
        forall|x: (LatestKey, usize)|
            #[trigger] upsert_row(rows, k, gi).contains(x) <==> (x == (k, gi) || rows.contains(x)
                && x.0 != k),
    decreases rows.len(),
{
    let u = upsert_row(rows, k, gi);
    if rows.len() == 0 {
        assert(u[0] == (k, gi));
    } else if rows[0].0 == k {
        assert(u[0] == (k, gi));
        assert forall|x: (LatestKey, usize)| #[trigger] u.contains(x) <==> (x == (k, gi) || rows.contains(x) && x.0 != k) by {
            if u.contains(x) && x != (k, gi) {
                let j = choose|j: int| 0 <= j < u.len() && u[j] == x;
                assert(j != 0);
                assert(rows[j] == x);
                assert(key_before(rows[0].0, rows[j].0));
                lemma_key_order(k, k);
            }
            if rows.contains(x) && x.0 != k {
                let j = choose|j: int| 0 <= j < rows.len() && rows[j] == x;
                assert(u[j] == x);
            }
        }
    } else if key_before(k, rows[0].0) {
        assert(u[0] == (k, gi));
        assert forall|i: int, j: int| 0 <= i < j < u.len() implies key_before(#[trigger] u[i].0, #[trigger] u[j].0) by {
            if i == 0 {
                if j > 1 {
                    lemma_key_trans(k, rows[0].0, rows[j - 1].0);
                }
            } else {
                assert(u[i] == rows[i - 1] && u[j] == rows[j - 1]);
            }
        }
        assert forall|x: (LatestKey, usize)| #[trigger] u.contains(x) <==> (x == (k, gi) || rows.contains(x) && x.0 != k) by {
            if u.contains(x) && x != (k, gi) {
                let j = choose|j: int| 0 <= j < u.len() && u[j] == x;
                assert(u[j] == rows[j - 1]);
                if j > 1 {
                    lemma_key_trans(k, rows[0].0, rows[j - 1].0);
                }
                lemma_key_order(k, x.0);
            }
            if rows.contains(x) && x.0 != k {
                let j = choose|j: int| 0 <= j < rows.len() && rows[j] == x;
                assert(u[j + 1] == x);
            }
        }
    } else {
        lemma_key_order(k, rows[0].0);
        let rest = rows.drop_first();
        assert forall|i: int, j: int| 0 <= i < j < rest.len() implies key_before(#[trigger] rest[i].0, #[trigger] rest[j].0) by {
            assert(rest[i] == rows[i + 1] && rest[j] == rows[j + 1]);
        }
        lemma_upsert_props(rest, k, gi);
        let w = upsert_row(rest, k, gi);
        assert(u == seq![rows[0]] + w);
        assert forall|i: int, j: int| 0 <= i < j < u.len() implies key_before(#[trigger] u[i].0, #[trigger] u[j].0) by {
            if i == 0 {
                assert(u[j] == w[j - 1]);
                assert(w.contains(w[j - 1]));
                if w[j - 1] != (k, gi) {
                    assert(rest.contains(w[j - 1]));
                    let m = choose|m: int| 0 <= m < rest.len() && rest[m] == w[j - 1];
                    assert(rows[m + 1] == w[j - 1]);
                }
            } else {
                assert(u[i] == w[i - 1] && u[j] == w[j - 1]);
            }
        }
        assert forall|x: (LatestKey, usize)| #[trigger] u.contains(x) <==> (x == (k, gi) || rows.contains(x) && x.0 != k) by {
            if u.contains(x) {
                let j = choose|j: int| 0 <= j < u.len() && u[j] == x;
                if j > 0 {
                    assert(w[j - 1] == x);
                    assert(w.contains(x));
                    if x != (k, gi) {
                        let m = choose|m: int| 0 <= m < rest.len() && rest[m] == x;
                        assert(rows[m + 1] == x);
                    }
                } else {
                    assert(rows[0] == x);
                }
            }
            if x == (k, gi) {
                let m = choose|m: int| 0 <= m < w.len() && w[m] == x;
                assert(u[m + 1] == x);
            }
            if rows.contains(x) && x.0 != k {
                let j = choose|j: int| 0 <= j < rows.len() && rows[j] == x;
                if j == 0 {
                    assert(u[0] == x);
                } else {
                    assert(rest[j - 1] == x);
                    assert(rest.contains(x));
                    assert(w.contains(x));
                    let m = choose|m: int| 0 <= m < w.len() && w[m] == x;
                    assert(u[m + 1] == x);
                }
            }
        }
    }
}

proof fn lemma_latest_extend(msgs: Seq<DecodedMessage>, idx: Seq<usize>, k: LatestKey, gi: usize)
    requires
        idx.len() > 0,
        is_latest_of(msgs, idx.drop_last(), k, gi),
        k != key_of(msgs[idx.last() as int]),
    ensures
        is_latest_of(msgs, idx, k, gi),
{
    let pre = idx.drop_last();
    let p = choose|p: int|
        0 <= p < pre.len() && #[trigger] pre[p] == gi && key_of(msgs[gi as int]) == k && forall|q: int|
            p < q < pre.len() ==> key_of(msgs[#[trigger] pre[q] as int]) != k;
    assert(idx[p] == gi);
    assert forall|q: int| p < q < idx.len() implies key_of(msgs[#[trigger] idx[q] as int]) != k by {
        if q < pre.len() {
            assert(idx[q] == pre[q]);
        }
    }
}

proof fn lemma_latest_shrink(msgs: Seq<DecodedMessage>, idx: Seq<usize>, k: LatestKey, gi: usize)
    requires
        idx.len() > 0,
        is_latest_of(msgs, idx, k, gi),
        (k, gi) != (key_of(msgs[idx.last() as int]), idx.last()),
    ensures
        is_latest_of(msgs, idx.drop_last(), k, gi),
        k != key_of(msgs[idx.last() as int]),
{
    let pre = idx.drop_last();
    let n = idx.len() - 1;
    let p = choose|p: int|
        0 <= p < idx.len() && #[trigger] idx[p] == gi && key_of(msgs[gi as int]) == k && forall|q: int|
            p < q < idx.len() ==> key_of(msgs[#[trigger] idx[q] as int]) != k;
    assert(p != n);
    assert(idx[n] == idx.last());
    assert(pre[p] == gi);
    assert forall|q: int| p < q < pre.len() implies key_of(msgs[#[trigger] pre[q] as int]) != k by {
        assert(pre[q] == idx[q]);
    }
}

/// The latest view of listed messages has its rows in key order; a row `(k, gi)` is in it
/// exactly when `gi` is the last listed position whose message has key `k`; and the key of
/// every listed message has a row.
pub proof fn lemma_latest_rows(msgs: Seq<DecodedMessage>, idx: Seq<usize>)
    ensures
        rows_sorted(latest_rows_of(msgs, idx)),
        forall|x: (LatestKey, usize)|
            #[trigger] latest_rows_of(msgs, idx).contains(x) <==> is_latest_of(msgs, idx, x.0, x.1),
        forall|p: int|
            #![trigger idx[p]]
            0 <= p < idx.len() ==> exists|x: (LatestKey, usize)|
                #[trigger] latest_rows_of(msgs, idx).contains(x) && x.0 == key_of(
                    msgs[idx[p] as int],
                ),
    decreases idx.len(),
{
    let rows = latest_rows_of(msgs, idx);
    if idx.len() == 0 {
        assert forall|x: (LatestKey, usize)| #[trigger] rows.contains(x) <==> is_latest_of(msgs, idx, x.0, x.1) by {
            assert(!rows.contains(x));
        }
    } else {
        let pre = idx.drop_last();
        let n = idx.len() - 1;
        let g = idx.last();
        let kg = key_of(msgs[g as int]);
        let prev = latest_rows_of(msgs, pre);
        lemma_latest_rows(msgs, pre);
        lemma_upsert_props(prev, kg, g);
        assert(rows == upsert_row(prev, kg, g));
        assert forall|x: (LatestKey, usize)| #[trigger] rows.contains(x) <==> is_latest_of(msgs, idx, x.0, x.1) by {
            if rows.contains(x) {
                if x == (kg, g) {
                    assert(idx[n] == g);
                } else {
                    lemma_latest_extend(msgs, idx, x.0, x.1);
                }
            }
            if is_latest_of(msgs, idx, x.0, x.1) && x != (kg, g) {
                lemma_latest_shrink(msgs, idx, x.0, x.1);
            }
        }
        assert forall|p: int| #![trigger idx[p]] 0 <= p < idx.len() implies exists|x: (LatestKey, usize)|
            #[trigger] rows.contains(x) && x.0 == key_of(msgs[idx[p] as int]) by {
            if p == n {
                assert(rows.contains((kg, g)));
            } else {
                assert(pre[p] == idx[p]);
                let x = choose|x: (LatestKey, usize)| #[trigger] prev.contains(x) && x.0 == key_of(msgs[pre[p] as int]);
                if x.0 != kg {
                    assert(rows.contains(x));
                } else {
                    assert(rows.contains((kg, g)));
                }
            }
        }
    }
}

/// Where the exec search stops, `upsert_row` replaces or inserts.
proof fn lemma_upsert_at(rows: Seq<(LatestKey, usize)>, k: LatestKey, gi: usize, i: int)
    requires
        0 <= i <= rows.len(),
        forall|j: int| 0 <= j < i ==> key_before(#[trigger] rows[j].0, k),
        i == rows.len() || !key_before(rows[i].0, k),
    ensures
        upsert_row(rows, k, gi) == (if i < rows.len() && rows[i].0 == k {
            rows.update(i, (k, gi))
        } else {
            rows.insert(i, (k, gi))
        }),
    decreases i,
{
    if rows.len() == 0 {
        assert(rows.insert(0, (k, gi)) =~= seq![(k, gi)]);
    } else if i == 0 {
        lemma_key_order(rows[0].0, k);
        if rows[0].0 != k {
            assert(rows.insert(0, (k, gi)) =~= seq![(k, gi)] + rows);
        }
    } else {
        lemma_key_order(rows[0].0, k);
        let rest = rows.drop_first();
        assert forall|j: int| 0 <= j < i - 1 implies key_before(#[trigger] rest[j].0, k) by {
            assert(rest[j] == rows[j + 1]);
        }
        lemma_upsert_at(rest, k, gi, i - 1);
        if i < rows.len() && rows[i].0 == k {
            assert(rows.update(i, (k, gi)) =~= seq![rows[0]] + rest.update(i - 1, (k, gi)));
        } else {
            assert(rows.insert(i, (k, gi)) =~= seq![rows[0]] + rest.insert(i - 1, (k, gi)));
        }
    }
}

/// Replaces the row of `k`, or inserts one at its place in key order.
fn upsert_row_exec(rows: &mut Vec<(LatestKey, usize)>, k: LatestKey, gi: usize)
    ensures
        final(rows)@ == upsert_row(old(rows)@, k, gi),
{
    let mut i: usize = 0;
    while i < rows.len() && key_less(&rows[i].0, &k)
        invariant
            i <= rows@.len(),
            rows@ == old(rows)@,
            forall|j: int| 0 <= j < i ==> key_before(#[trigger] rows@[j].0, k),
        decreases rows@.len() - i,
    {
        i = i + 1;
    }
    proof {
        lemma_upsert_at(rows@, k, gi, i as int);
    }
    if i < rows.len() && same_key(&rows[i].0, &k) {
        rows.set(i, (k, gi));
    } else {
        rows.insert(i, (k, gi));
    }
}

/// The latest view of the messages that pass the engine's filters.
fn latest_map<F: Filter>(engine: &mut FilterEngine<F>) -> (r: Vec<(LatestKey, usize)>)
    requires
        old(engine).wf(),
    ensures
        final(engine).wf(),
        final(engine).messages() == old(engine).messages(),
        final(engine).filters() == old(engine).filters(),
        final(engine).indices() == old(engine).current_indices(),
        !final(engine).dirty() || old(engine).dirty() == final(engine).dirty()
            && !old(engine).dirty(),
        r@ == latest_rows_of(old(engine).messages(), old(engine).current_indices()),
{
    let idx = vstd::slice::slice_to_vec(engine.get_filtered_indices());
    let mut rows: Vec<(LatestKey, usize)> = Vec::new();
    let mut i: usize = 0;
    assert(idx@.take(0) =~= Seq::<usize>::empty());
    while i < idx.len()
        invariant
            i <= idx@.len(),
            engine.wf(),
            idx@ == engine.indices(),
            rows@ == latest_rows_of(engine.messages(), idx@.take(i as int)),
        decreases idx@.len() - i,
    {
        let gi = idx[i];
        assert(gi < engine.messages().len()) by {
            engine.lemma_index_in_range(i as int);
        }
        let msg = engine.get_message_by_global_index(gi);
        match msg {
            Some(m) => {
                let k = LatestKey::from_message(m);
                proof {
                    assert(idx@.take(i + 1).drop_last() =~= idx@.take(i as int));
                }
                upsert_row_exec(&mut rows, k, gi);
            },
            None => {},
        }
        i = i + 1;
    }
    assert(idx@.take(idx@.len() as int) =~= idx@);
    rows
}

// ─── Positions in the list of passing messages ──────────────────────────────

/// `p` is the first position of `g` in `f`.
pub open spec fn is_first_pos(f: Seq<usize>, g: usize, p: int) -> bool {
    0 <= p < f.len() && f[p] == g && forall|j: int| 0 <= j < p ==> #[trigger] f[j] != g
}

/// The first position of `g` in `f`, if it occurs.
pub open spec fn first_pos(f: Seq<usize>, g: usize) -> Option<int> {
    if f.contains(g) {
        Some(choose|p: int| is_first_pos(f, g, p))
    } else {
        None
    }
}

proof fn lemma_first_pos(f: Seq<usize>, g: usize, p: int)
    requires
        is_first_pos(f, g, p),
    ensures
        first_pos(f, g) == Some(p),
{
    assert(f.contains(g));
    let q = choose|q: int| is_first_pos(f, g, q);
    assert(is_first_pos(f, g, q));
    if q < p {
        assert(f[q] != g);
    }
    if p < q {
        assert(f[p] != g);
    }
}

proof fn lemma_first_pos_exists(f: Seq<usize>, g: usize)
    requires
        f.contains(g),
    ensures
        first_pos(f, g) matches Some(p) && is_first_pos(f, g, p),
    decreases f.len(),
{
    if f[0] == g {
        lemma_first_pos(f, g, 0);
    } else {
        let rest = f.drop_first();
        let q = choose|q: int| 0 <= q < f.len() && f[q] == g;
        assert(rest[q - 1] == g);
        assert(rest.contains(g));
        lemma_first_pos_exists(rest, g);
        let p = choose|p: int| is_first_pos(rest, g, p);
        assert(is_first_pos(rest, g, p));
        assert forall|j: int| 0 <= j < p + 1 implies #[trigger] f[j] != g by {
            if j > 0 {
                assert(f[j] == rest[j - 1]);
            }
        }
        lemma_first_pos(f, g, p + 1);
    }
}

/// The first position of `g` in `f`.
fn find_pos(f: &[usize], g: usize) -> (r: Option<usize>)
    ensures
        r matches Some(p) ==> first_pos(f@, g) == Some(p as int) && is_first_pos(f@, g, p as int),
        r is None ==> first_pos(f@, g) is None,
{
    let mut i: usize = 0;
    while i < f.len()
        invariant
            i <= f@.len(),
            forall|j: int| 0 <= j < i ==> #[trigger] f@[j] != g,
        decreases f@.len() - i,
    {
        if f[i] == g {
            proof {
                lemma_first_pos(f@, g, i as int);
            }
            return Some(i);
        }
        i = i + 1;
    }
    assert(!f@.contains(g));
    None
}

/// `i` is the first row with key `k`.
pub open spec fn is_first_row(rows: Seq<(LatestKey, usize)>, k: LatestKey, i: int) -> bool {
    0 <= i < rows.len() && rows[i].0 == k && forall|j: int| 0 <= j < i ==> #[trigger] rows[j].0 != k
}

/// Some row has key `k`.
pub open spec fn has_row(rows: Seq<(LatestKey, usize)>, k: LatestKey) -> bool {
    exists|i: int| 0 <= i < rows.len() && #[trigger] rows[i].0 == k
}

/// The first row with key `k`.
fn find_row(rows: &Vec<(LatestKey, usize)>, k: &LatestKey) -> (r: Option<usize>)
    ensures
        r matches Some(i) ==> is_first_row(rows@, *k, i as int),
        r is None ==> !has_row(rows@, *k),
{
    let mut i: usize = 0;
    while i < rows.len()
        invariant
            i <= rows@.len(),
            forall|j: int| 0 <= j < i ==> #[trigger] rows@[j].0 != *k,
        decreases rows@.len() - i,
    {
        if same_key(&rows[i].0, k) {
            return Some(i);
        }
        i = i + 1;
    }
    None
}

/// The selection after following the selected key into `rows`: the first row with the key
/// is selected; a key with no row is dropped and the selection kept.
pub open spec fn follows_key(
    rows: Seq<(LatestKey, usize)>,
    old_sel: Option<usize>,
    old_key: Option<LatestKey>,
    sel: Option<usize>,
    key: Option<LatestKey>,
) -> bool {
    match old_key {
        None => sel == old_sel && key is None,
        Some(k) => if has_row(rows, k) {
            key == Some(k) && (sel matches Some(i) && is_first_row(rows, k, i as int))
        } else {
            key is None && sel == old_sel
        },
    }
}

/// A copy of the rows.
fn copy_rows(rows: &Vec<(LatestKey, usize)>) -> (r: Vec<(LatestKey, usize)>)
    ensures
        r@ == rows@,
{
    let mut out: Vec<(LatestKey, usize)> = Vec::new();
    let mut i: usize = 0;
    while i < rows.len()
        invariant
            i <= rows@.len(),
            out@ == rows@.take(i as int),
        decreases rows@.len() - i,
    {
        out.push(rows[i]);
        i = i + 1;
        assert(out@ =~= rows@.take(i as int));
    }
    assert(rows@.take(rows@.len() as int) =~= rows@);
    out
}

// ─── Where the selection moves ──────────────────────────────────────────────

/// A page back from row `p`, stopping at the first row.
pub open spec fn page_back(p: int) -> int {
    if p >= PAGE_SIZE {
        p - PAGE_SIZE
    } else {
        0
    }
}

/// A page forward from row `p`, stopping at the last of `len` rows.
pub open spec fn page_forward(p: int, len: int) -> int {
    if p + PAGE_SIZE <= len - 1 {
        p + PAGE_SIZE
    } else {
        len - 1
    }
}

/// Log view, one up: the passing message before the selected one (the selected one itself
/// when it is first; the last when none, or one that does not pass, is selected).
pub open spec fn log_prev(f: Seq<usize>, sel: Option<usize>) -> usize {
    match sel {
        None => f.last(),
        Some(g) => match first_pos(f, g) {
            Some(p) => if p > 0 {
                f[p - 1]
            } else {
                g
            },
            None => f.last(),
        },
    }
}

/// Log view, one down: the passing message after the selected one (the selected one itself
/// when it is last; the first when none, or one that does not pass, is selected).
pub open spec fn log_next(f: Seq<usize>, sel: Option<usize>) -> usize {
    match sel {
        None => f[0],
        Some(g) => match first_pos(f, g) {
            Some(p) => if p + 1 < f.len() {
                f[p + 1]
            } else {
                g
            },
            None => f[0],
        },
    }
}

/// Log view, a page up: the row a page before the selected message's row (the first row
/// when none, or one that does not pass, is selected).
pub open spec fn log_page_up_row(f: Seq<usize>, sel: Option<usize>) -> int {
    match sel {
        Some(g) => match first_pos(f, g) {
            Some(p) => page_back(p),
            None => 0,
        },
        None => 0,
    }
}

/// Log view, a page down: the row a page after the selected message's row (the first row
/// when none, or one that does not pass, is selected).
pub open spec fn log_page_down_row(f: Seq<usize>, sel: Option<usize>) -> int {
    match sel {
        Some(g) => match first_pos(f, g) {
            Some(p) => page_forward(p, f.len() as int),
            None => 0,
        },
        None => 0,
    }
}

/// Latest view, one up from the selected row (the last row when none is selected).
pub open spec fn latest_prev_row(len: int, sel: Option<usize>) -> int {
    match sel {
        Some(r) => if r >= 1 {
            r - 1
        } else {
            0
        },
        None => len - 1,
    }
}

/// Latest view, one down from the selected row (the first row when none is selected).
pub open spec fn latest_next_row(len: int, sel: Option<usize>) -> int {
    match sel {
        Some(r) => if r + 1 < len {
            r + 1
        } else {
            r as int
        },
        None => 0,
    }
}

/// Latest view, a page up from the selected row (the first row when none is selected).
pub open spec fn latest_page_up_row(sel: Option<usize>) -> int {
    match sel {
        Some(r) => page_back(r as int),
        None => 0,
    }
}

/// Latest view, a page down from the selected row (the first row when none is selected).
pub open spec fn latest_page_down_row(len: int, sel: Option<usize>) -> int {
    match sel {
        Some(r) => page_forward(r as int, len),
        None => 0,
    }
}

/// The first row with key `k` (where there is one).
pub open spec fn first_row(rows: Seq<(LatestKey, usize)>, k: LatestKey) -> int {
    choose|i: int| is_first_row(rows, k, i)
}

proof fn lemma_first_row(rows: Seq<(LatestKey, usize)>, k: LatestKey, i: int)
    requires
        is_first_row(rows, k, i),
    ensures
        first_row(rows, k) == i,
{
    let j = first_row(rows, k);
    assert(is_first_row(rows, k, j));
    if j < i {
        assert(rows[j].0 != k);
    }
    if i < j {
        assert(rows[i].0 != k);
    }
}

/// The message that the selection designates in the latest view: that of the first row
/// with the selected key.
pub open spec fn latest_selected_message(
    rows: Seq<(LatestKey, usize)>,
    key: Option<LatestKey>,
    msgs: Seq<DecodedMessage>,
) -> Option<DecodedMessage> {
    match key {
        Some(k) => if has_row(rows, k) && rows[first_row(rows, k)].1 < msgs.len() {
            Some(msgs[rows[first_row(rows, k)].1 as int])
        } else {
            None
        },
        None => None,
    }
}

/// The message that the selection designates in the log view: the selected row of the
/// passing messages (the first when none is selected, the last when it is past the end).
pub open spec fn log_selected_message(
    f: Seq<usize>,
    sel: Option<usize>,
    msgs: Seq<DecodedMessage>,
) -> Option<DecodedMessage> {
    if f.len() == 0 {
        None
    } else {
        let want: int = match sel {
            Some(i) => i as int,
            None => 0,
        };
        let i = if want < f.len() - 1 {
            want
        } else {
            f.len() - 1
        };
        Some(msgs[f[i] as int])
    }
}

fn page_back_exec(p: usize) -> (r: usize)
    ensures
        r == page_back(p as int),
{
    if p >= PAGE_SIZE {
        p - PAGE_SIZE
    } else {
        0
    }
}

fn page_forward_exec(p: usize, len: usize) -> (r: usize)
    requires
        len > 0,
    ensures
        r == page_forward(p as int, len as int),
{
    if p < len && len - 1 - p >= PAGE_SIZE {
        p + PAGE_SIZE
    } else {
        len - 1
    }
}

/// What the filters installed by `set_filter` let pass: a message from `source_addr` (when
/// given), of `pgn` (when given), matching every title, with a source NAME among
/// `source_names` and a destination NAME among `dest_names` (each when the list is not
/// empty).
pub open spec fn message_filter_accepts(
    source_addr: Option<u8>,
    pgn: Option<u32>,
    titles: Seq<String>,
    source_names: Seq<u64>,
    dest_names: Seq<u64>,
    m: DecodedMessage,
) -> bool {
    &&& (source_addr matches Some(a) ==> id_source(m.assembled_message.id) == a)
    &&& (pgn matches Some(p) ==> m.assembled_message.pgn == p)
    &&& forall|i: int| 0 <= i < titles.len() ==> title_matches(m, lowercase(#[trigger] titles[i]@))
    &&& (source_names.len() > 0 ==> exists|i: int|
        0 <= i < source_names.len() && m.assembled_message.source_name == Some(
            #[trigger] source_names[i],
        ))
    &&& (dest_names.len() > 0 ==> exists|i: int|
        0 <= i < dest_names.len() && m.assembled_message.dest_name == Some(
            #[trigger] dest_names[i],
        ))
}

proof fn lemma_all_accept_push<F: Filter>(fs: Seq<F>, f: F, m: DecodedMessage)
    ensures
        all_accept(fs.push(f), m) == (all_accept(fs, m) && f.accepts(m)),
{
    if all_accept(fs, m) && f.accepts(m) {
        assert forall|i: int| 0 <= i < fs.push(f).len() implies #[trigger] fs.push(f)[i].accepts(m) by {
            if i < fs.len() {
                assert(fs.push(f)[i] == fs[i]);
            }
        }
    }
    if all_accept(fs.push(f), m) {
        assert(fs.push(f)[fs.len() as int] == f);
        assert forall|i: int| 0 <= i < fs.len() implies #[trigger] fs[i].accepts(m) by {
            assert(fs.push(f)[i] == fs[i]);
        }
    }
}

/// In the log view every selection move lands on a passing message (when there is one).
pub proof fn lemma_log_moves_land_on_listed(f: Seq<usize>, sel: Option<usize>)
    requires
        f.len() > 0,
    ensures
        f.contains(log_prev(f, sel)),
        f.contains(log_next(f, sel)),
        0 <= log_page_up_row(f, sel) < f.len(),
        0 <= log_page_down_row(f, sel) < f.len(),
{
    assert(f[f.len() - 1] == f.last());
    assert(f.contains(f.last()));
    assert(f.contains(f[0]));
    if let Some(g) = sel {
        if f.contains(g) {
            lemma_first_pos_exists(f, g);
        }
        if let Some(p) = first_pos(f, g) {
            if p > 0 {
                assert(f.contains(f[p - 1]));
            }
            if p + 1 < f.len() {
                assert(f.contains(f[p + 1]));
            }
        }
    }
}

/// In the log view, with no position listed twice, one row down and then one row up
/// returns to the selected message, unless it was the last one.
pub proof fn lemma_log_next_then_prev(f: Seq<usize>, g: usize)
    requires
        f.no_duplicates(),
        f.contains(g),
        g != f.last(),
    ensures
        log_prev(f, Some(log_next(f, Some(g)))) == g,
{
    let p = choose|p: int| is_first_pos(f, g, p);
    assert(exists|p: int| is_first_pos(f, g, p)) by {
        let q = choose|q: int| 0 <= q < f.len() && f[q] == g;
        assert forall|j: int| 0 <= j < q implies #[trigger] f[j] != g by {}
        assert(is_first_pos(f, g, q));
    }
    lemma_first_pos(f, g, p);
    assert(p + 1 < f.len());
    let h = f[p + 1];
    assert forall|j: int| 0 <= j < p + 1 implies #[trigger] f[j] != h by {}
    lemma_first_pos(f, h, p + 1);
}

/// In the log view, with no position listed twice, one row up and then one row down
/// returns to the selected message, unless it was the first one.
pub proof fn lemma_log_prev_then_next(f: Seq<usize>, g: usize)
    requires
        f.no_duplicates(),
        f.contains(g),
        g != f[0],
    ensures
        log_next(f, Some(log_prev(f, Some(g)))) == g,
{
    let p = choose|p: int| is_first_pos(f, g, p);
    assert(exists|p: int| is_first_pos(f, g, p)) by {
        let q = choose|q: int| 0 <= q < f.len() && f[q] == g;
        assert forall|j: int| 0 <= j < q implies #[trigger] f[j] != g by {}
        assert(is_first_pos(f, g, q));
    }
    lemma_first_pos(f, g, p);
    assert(p > 0);
    let h = f[p - 1];
    assert forall|j: int| 0 <= j < p - 1 implies #[trigger] f[j] != h by {}
    lemma_first_pos(f, h, p - 1);
}

// ─── The message list ────────────────────────────────────────────────────────

/// Rows one page up or down moves the selection by.
pub const PAGE_SIZE: usize = 10;

/// Whether the list shows every passing message, or one row per message stream.
#[derive(Debug, Clone, Copy, PartialEq, Eq, Structural)]
pub enum ViewMode {
    Log,
    Latest,
}

/// State of the message list: the stored messages and active filters, the view mode, and
/// the selection.
pub struct MessageList<F> {
    /// The stored messages and the active filters.
    pub engine: FilterEngine<F>,
    /// In the log view, the position (among all messages) of the selected message; in the
    /// latest view, the selected row.
    pub selected_index: Option<usize>,
    /// Timestamp of the first message stored after the list was created.
    pub global_start_time: Option<u64>,
    /// Current view mode.
    pub view_mode: ViewMode,
    /// Key of the selected row in the latest view.
    pub selected_latest_key: Option<LatestKey>,
    /// Whether the latest view shows a frozen snapshot.
    pub latest_frozen: bool,
    /// The latest view's rows as they were when it was frozen.
    pub frozen_snapshot: Vec<(LatestKey, usize)>,
}

impl<F: Filter> MessageList<F> {
    /// The stored messages.
    pub open spec fn messages(&self) -> Seq<DecodedMessage> {
        self.engine.messages()
    }

    /// The active filters.
    pub open spec fn filters(&self) -> Seq<F> {
        self.engine.filters()
    }

    /// The passing positions as last computed.
    pub open spec fn indices(&self) -> Seq<usize> {
        self.engine.indices()
    }

    /// Whether the computed positions are stale.
    pub open spec fn dirty(&self) -> bool {
        self.engine.dirty()
    }

    /// Timestamp of the first message stored after the list was created.
    pub open spec fn start_time(&self) -> Option<u64> {
        self.global_start_time
    }

    /// The internal state is consistent.
    pub open spec fn wf(&self) -> bool {
        self.engine.wf()
    }

    /// The passing positions that the list shows (computed anew when stale).
    pub open spec fn listed(&self) -> Seq<usize> {
        if self.dirty() {
            crate::filter_engine::passing(self.messages(), self.filters())
        } else {
            self.indices()
        }
    }

    /// The latest view of the passing messages as they are now.
    pub open spec fn live_rows(&self) -> Seq<(LatestKey, usize)> {
        latest_rows_of(self.messages(), self.listed())
    }

    /// The rows of the latest view: the frozen snapshot, or the live rows.
    pub open spec fn latest_rows_view(&self) -> Seq<(LatestKey, usize)> {
        if self.latest_frozen {
            self.frozen_snapshot@
        } else {
            self.live_rows()
        }
    }

    /// What the current view shows, row by row: a key (latest view only) and a message
    /// position.
    pub open spec fn visible_rows_view(&self) -> Seq<(Option<LatestKey>, usize)> {
        if self.view_mode == ViewMode::Latest {
            self.latest_rows_view().map_values(|r: (LatestKey, usize)| (Some(r.0), r.1))
        } else {
            self.listed().map_values(|g: usize| (None::<LatestKey>, g))
        }
    }

    /// The list has the same stored state as `before`, with the positions computed.
    pub open spec fn refreshed_from(&self, before: &Self) -> bool {
        &&& self.wf()
        &&& self.messages() == before.messages()
        &&& self.filters() == before.filters()
        &&& self.indices() == before.listed()
        &&& !self.dirty()
    }

    /// The list has the same stored state as `before`, untouched.
    pub open spec fn engine_kept(&self, before: &Self) -> bool {
        &&& self.wf()
        &&& self.messages() == before.messages()
        &&& self.filters() == before.filters()
        &&& self.indices() == before.indices()
        &&& self.dirty() == before.dirty()
    }

    /// The view mode, the frozen snapshot and the start time are those of `before`.
    pub open spec fn modes_kept(&self, before: &Self) -> bool {
        &&& self.view_mode == before.view_mode
        &&& self.latest_frozen == before.latest_frozen
        &&& self.frozen_snapshot@ == before.frozen_snapshot@
        &&& self.start_time() == before.start_time()
    }

    /// The view mode and selection are those of `before`.
    pub open spec fn view_kept(&self, before: &Self) -> bool {
        &&& self.modes_kept(before)
        &&& self.selected_index == before.selected_index
        &&& self.selected_latest_key == before.selected_latest_key
    }

    /// The stored state after reading the rows of the current view: the frozen latest
    /// view leaves it untouched; otherwise the positions are computed.
    pub open spec fn after_reading_rows(&self, before: &Self) -> bool {
        if before.view_mode == ViewMode::Latest && before.latest_frozen {
            self.engine_kept(before)
        } else {
            self.refreshed_from(before)
        }
    }

    /// An empty list in the log view, with nothing selected.
    pub fn new() -> (r: Self)
        ensures
            r.wf(),
            r.messages() == Seq::<DecodedMessage>::empty(),
            r.filters() == Seq::<F>::empty(),
            r.indices() == Seq::<usize>::empty(),
            r.dirty(),
            r.selected_index is None,
            r.view_mode == ViewMode::Log,
            r.selected_latest_key is None,
            !r.latest_frozen,
            r.frozen_snapshot@ == Seq::<(LatestKey, usize)>::empty(),
            r.start_time() is None,
    {
        MessageList {
            engine: FilterEngine::new(),
            selected_index: None,
            global_start_time: None,
            view_mode: ViewMode::Log,
            selected_latest_key: None,
            latest_frozen: false,
            frozen_snapshot: Vec::new(),
        }
    }

    /// The live latest rows; the positions are computed first when stale.
    fn live_latest_rows(&mut self) -> (r: Vec<(LatestKey, usize)>)
        requires
            old(self).wf(),
        ensures
            final(self).refreshed_from(old(self)),
            final(self).view_kept(old(self)),
            r@ == old(self).live_rows(),
    {
        latest_map(&mut self.engine)
    }

    /// The rows of the latest view: the frozen snapshot, or the live rows.
    fn latest_rows(&mut self) -> (r: Vec<(LatestKey, usize)>)
        requires
            old(self).wf(),
        ensures
            old(self).latest_frozen ==> final(self).engine_kept(old(self)),
            !old(self).latest_frozen ==> final(self).refreshed_from(old(self)),
            final(self).view_kept(old(self)),
            r@ == old(self).latest_rows_view(),
    {
        if self.latest_frozen {
            copy_rows(&self.frozen_snapshot)
        } else {
            self.live_latest_rows()
        }
    }

    /// Moves the selection to the row of the selected key in the live latest rows; when
    /// the key has no row, the key is dropped.
    fn sync_latest_scroll(&mut self)
        requires
            old(self).wf(),
        ensures
            final(self).refreshed_from(old(self)),
            final(self).view_mode == old(self).view_mode,
            final(self).latest_frozen == old(self).latest_frozen,
            final(self).frozen_snapshot@ == old(self).frozen_snapshot@,
            final(self).start_time() == old(self).start_time(),
            follows_key(
                old(self).live_rows(),
                old(self).selected_index,
                old(self).selected_latest_key,
                final(self).selected_index,
                final(self).selected_latest_key,
            ),
    {
        match self.selected_latest_key {
            Some(key) => {
                let map = self.live_latest_rows();
                match find_row(&map, &key) {
                    Some(row) => {
                        self.selected_index = Some(row);
                    },
                    None => {
                        self.selected_latest_key = None;
                    },
                }
            },
            None => {
                let _ = self.engine.get_filtered_indices();
            },
        }
    }

    /// Stores a message; the first message stored sets the start time. In the live latest
    /// view the selection then follows the selected key.
    pub fn add_message(&mut self, msg: DecodedMessage)
        requires
            old(self).wf(),
        ensures
            final(self).wf(),
            final(self).messages() == old(self).messages().push(msg),
            final(self).filters() == old(self).filters(),
            final(self).start_time() == (if old(self).messages().len() == 0 {
                Some(msg.assembled_message.timestamp)
            } else {
                old(self).start_time()
            }),
            final(self).view_mode == old(self).view_mode,
            final(self).latest_frozen == old(self).latest_frozen,
            final(self).frozen_snapshot@ == old(self).frozen_snapshot@,
            ({
                let grown = if old(self).filters().len() == 0 {
                    Seq::new(final(self).messages().len(), |i: int| i as usize)
                } else {
                    old(self).indices()
                };
                let stale = old(self).filters().len() > 0;
                let listed = if stale {
                    crate::filter_engine::passing(final(self).messages(), final(self).filters())
                } else {
                    grown
                };
                let rows = latest_rows_of(final(self).messages(), listed);
                if old(self).view_mode == ViewMode::Latest && !old(self).latest_frozen {
                    &&& final(self).indices() == listed
                    &&& !final(self).dirty()
                    &&& follows_key(
                        rows,
                        old(self).selected_index,
                        old(self).selected_latest_key,
                        final(self).selected_index,
                        final(self).selected_latest_key,
                    )
                } else {
                    &&& final(self).indices() == grown
                    &&& final(self).dirty() == stale
                    &&& final(self).selected_index == old(self).selected_index
                    &&& final(self).selected_latest_key == old(self).selected_latest_key
                }
            }),
    {
        if self.engine.total_count() == 0 {
            self.global_start_time = Some(msg.timestamp());
        }
        let latest_live = self.view_mode == ViewMode::Latest && !self.latest_frozen;
        self.engine.add_message(msg);
        if latest_live {
            self.sync_latest_scroll();
        }
    }

    /// Removes all messages, the selection and the frozen snapshot.
    pub fn clear_messages(&mut self)
        requires
            old(self).wf(),
        ensures
            final(self).wf(),
            final(self).messages() == Seq::<DecodedMessage>::empty(),
            final(self).filters() == old(self).filters(),
            final(self).indices() == Seq::<usize>::empty(),
            final(self).dirty(),
            final(self).selected_index is None,
            final(self).selected_latest_key is None,
            !final(self).latest_frozen,
            final(self).frozen_snapshot@ == Seq::<(LatestKey, usize)>::empty(),
            final(self).view_mode == old(self).view_mode,
            final(self).start_time() == old(self).start_time(),
    {
        self.engine.clear();
        self.selected_index = None;
        self.selected_latest_key = None;
        self.latest_frozen = false;
        self.frozen_snapshot.clear();
    }

    /// Number of stored messages.
    pub fn total_count(&self) -> (r: usize)
        ensures
            r == self.messages().len(),
    {
        self.engine.total_count()
    }

    /// Number of passing messages; the positions are computed first when stale.
    pub fn filtered_count(&mut self) -> (r: usize)
        requires
            old(self).wf(),
        ensures
            final(self).refreshed_from(old(self)),
            final(self).view_kept(old(self)),
            r == old(self).listed().len(),
    {
        self.engine.filtered_count()
    }

    /// Number of stored messages.
    pub fn message_count(&self) -> (r: usize)
        ensures
            r == self.messages().len(),
    {
        self.engine.total_count()
    }

    /// The last passing message: where the view scrolls to show the end (none when
    /// nothing passes).
    pub fn scroll_to_end(&mut self) -> (r: Option<usize>)
        requires
            old(self).wf(),
        ensures
            final(self).refreshed_from(old(self)),
            final(self).view_kept(old(self)),
            r == (if old(self).listed().len() == 0 {
                None
            } else {
                Some(old(self).listed().last())
            }),
    {
        let filtered_indices = self.engine.get_filtered_indices();
        if filtered_indices.len() > 0 {
            Some(filtered_indices[filtered_indices.len() - 1])
        } else {
            None
        }
    }

    /// Selects the first passing message when nothing is selected; otherwise clears the
    /// selection.
    pub fn toggle_selection(&mut self)
        requires
            old(self).wf(),
        ensures
            final(self).refreshed_from(old(self)),
            final(self).modes_kept(old(self)),
            final(self).selected_latest_key == old(self).selected_latest_key,
            final(self).selected_index == (if old(self).listed().len() > 0
                && old(self).selected_index is None {
                Some(old(self).listed()[0])
            } else {
                None
            }),
    {
        let filtered_indices = self.engine.get_filtered_indices();
        if filtered_indices.len() > 0 && self.selected_index.is_none() {
            self.selected_index = Some(filtered_indices[0]);
        } else {
            self.selected_index = None;
        }
    }

    /// The message at the selected position among all messages, if there is one.
    pub fn selected_message(&self) -> (r: Option<&DecodedMessage>)
        ensures
            r == (match self.selected_index {
                Some(g) => if g < self.messages().len() {
                    Some(&self.messages()[g as int])
                } else {
                    None
                },
                None => None,
            }),
    {
        match self.selected_index {
            Some(global_idx) => self.engine.get_message_by_global_index(global_idx),
            None => None,
        }
    }

    /// Always empty: drawing reads the rows through `get_visible_rows`.
    pub fn get_filtered_indices(&self) -> (r: Vec<usize>)
        ensures
            r@ == Seq::<usize>::empty(),
    {
        Vec::new()
    }

    /// Switches between the log view and the latest view. Entering the latest view selects
    /// its first row (keeping the selection when there are no rows); leaving it unfreezes
    /// it.
    pub fn toggle_view_mode(&mut self)
        requires
            old(self).wf(),
        ensures
            final(self).start_time() == old(self).start_time(),
            old(self).view_mode == ViewMode::Log ==> {
                &&& final(self).refreshed_from(old(self))
                &&& final(self).view_mode == ViewMode::Latest
                &&& final(self).latest_frozen == old(self).latest_frozen
                &&& final(self).frozen_snapshot@ == old(self).frozen_snapshot@
                &&& if old(self).live_rows().len() > 0 {
                    &&& final(self).selected_latest_key == Some(old(self).live_rows()[0].0)
                    &&& final(self).selected_index == Some(0usize)
                } else {
                    &&& final(self).selected_latest_key is None
                    &&& final(self).selected_index == old(self).selected_index
                }
            },
            old(self).view_mode == ViewMode::Latest ==> {
                &&& final(self).engine_kept(old(self))
                &&& final(self).view_mode == ViewMode::Log
                &&& !final(self).latest_frozen
                &&& final(self).frozen_snapshot@ == Seq::<(LatestKey, usize)>::empty()
                &&& final(self).selected_index == old(self).selected_index
                &&& final(self).selected_latest_key == old(self).selected_latest_key
            },
    {
        match self.view_mode {
            ViewMode::Log => {
                self.view_mode = ViewMode::Latest;
                let rows = self.live_latest_rows();
                if rows.len() > 0 {
                    self.selected_latest_key = Some(rows[0].0);
                } else {
                    self.selected_latest_key = None;
                }
                self.sync_latest_scroll();
            },
            ViewMode::Latest => {
                self.view_mode = ViewMode::Log;
                self.latest_frozen = false;
                self.frozen_snapshot.clear();
            },
        }
    }

    /// Number of rows of the current view: stored messages in the log view, latest rows
    /// (frozen or live) in the latest view.
    pub fn view_row_count(&mut self) -> (r: usize)
        requires
            old(self).wf(),
        ensures
            final(self).view_kept(old(self)),
            old(self).view_mode == ViewMode::Latest && !old(self).latest_frozen ==> final(self).refreshed_from(old(self)),
            !(old(self).view_mode == ViewMode::Latest && !old(self).latest_frozen) ==> final(self).engine_kept(old(self)),
            r == (if old(self).view_mode == ViewMode::Latest {
                old(self).latest_rows_view().len()
            } else {
                old(self).messages().len()
            }),
    {
        if self.view_mode == ViewMode::Latest {
            if self.latest_frozen {
                self.frozen_snapshot.len()
            } else {
                self.live_latest_rows().len()
            }
        } else {
            self.engine.total_count()
        }
    }

    /// The rows of the current view from `viewport_start` up to `viewport_end`, both
    /// clamped to the number of rows.
    pub fn get_visible_rows(&mut self, viewport_start: usize, viewport_end: usize) -> (r: Vec<
        (Option<LatestKey>, usize),
    >)
        requires
            old(self).wf(),
            viewport_start <= viewport_end || old(self).visible_rows_view().len()
                <= viewport_end,
        ensures
            final(self).after_reading_rows(old(self)),
            final(self).view_kept(old(self)),
            ({
                let rows = old(self).visible_rows_view();
                let n = rows.len() as int;
                let s = if viewport_start < n {
                    viewport_start as int
                } else {
                    n
                };
                let e = if viewport_end < n {
                    viewport_end as int
                } else {
                    n
                };
                r@ == rows.subrange(s, e)
            }),
    {
        let mut out: Vec<(Option<LatestKey>, usize)> = Vec::new();
        if self.view_mode == ViewMode::Latest {
            let rows = self.latest_rows();
            let start = if viewport_start < rows.len() {
                viewport_start
            } else {
                rows.len()
            };
            let end = if viewport_end < rows.len() {
                viewport_end
            } else {
                rows.len()
            };
            let mut i: usize = start;
            while i < end
                invariant
                    start <= i <= end <= rows@.len(),
                    out@ == rows@.subrange(start as int, i as int).map_values(
                        |x: (LatestKey, usize)| (Some(x.0), x.1),
                    ),
                decreases end - i,
            {
                out.push((Some(rows[i].0), rows[i].1));
                i = i + 1;
                assert(out@ =~= rows@.subrange(start as int, i as int).map_values(
                    |x: (LatestKey, usize)| (Some(x.0), x.1),
                ));
            }
            assert(out@ =~= rows@.map_values(|x: (LatestKey, usize)| (Some(x.0), x.1)).subrange(
                start as int,
                end as int,
            ));
            return out;
        }
        let indices = vstd::slice::slice_to_vec(self.engine.get_filtered_indices());
        let start = if viewport_start < indices.len() {
            viewport_start
        } else {
            indices.len()
        };
        let end = if viewport_end < indices.len() {
            viewport_end
        } else {
            indices.len()
        };
        let mut i: usize = start;
        while i < end
            invariant
                start <= i <= end <= indices@.len(),
                out@ == indices@.subrange(start as int, i as int).map_values(
                    |g: usize| (None::<LatestKey>, g),
                ),
            decreases end - i,
        {
            out.push((None, indices[i]));
            i = i + 1;
            assert(out@ =~= indices@.subrange(start as int, i as int).map_values(
                |g: usize| (None::<LatestKey>, g),
            ));
        }
        assert(out@ =~= indices@.map_values(|g: usize| (None::<LatestKey>, g)).subrange(
            start as int,
            end as int,
        ));
        out
    }

    /// Number of rows of the current view: passing messages in the log view, latest rows
    /// (frozen or live) in the latest view.
    pub fn get_visible_row_count(&mut self) -> (r: usize)
        requires
            old(self).wf(),
        ensures
            final(self).after_reading_rows(old(self)),
            final(self).view_kept(old(self)),
            r == old(self).visible_rows_view().len(),
    {
        if self.view_mode == ViewMode::Latest {
            self.latest_rows().len()
        } else {
            self.engine.get_filtered_indices().len()
        }
    }

    /// Freezes the latest view's rows as they are now, or unfreezes it.
    pub fn toggle_freeze(&mut self)
        requires
            old(self).wf(),
        ensures
            final(self).view_mode == old(self).view_mode,
            final(self).selected_index == old(self).selected_index,
            final(self).selected_latest_key == old(self).selected_latest_key,
            final(self).start_time() == old(self).start_time(),
            final(self).latest_frozen == !old(self).latest_frozen,
            old(self).latest_frozen ==> final(self).engine_kept(old(self))
                && final(self).frozen_snapshot@ == Seq::<(LatestKey, usize)>::empty(),
            !old(self).latest_frozen ==> final(self).refreshed_from(old(self))
                && final(self).frozen_snapshot@ == old(self).live_rows(),
    {
        if self.latest_frozen {
            self.latest_frozen = false;
            self.frozen_snapshot.clear();
        } else {
            self.frozen_snapshot = self.live_latest_rows();
            self.latest_frozen = true;
        }
    }

    /// The message the selection designates in the current view.
    pub fn get_selected_message(&mut self) -> (r: Option<&DecodedMessage>)
        requires
            old(self).wf(),
        ensures
            final(self).after_reading_rows(old(self)),
            final(self).view_kept(old(self)),
            ({
                let want = if old(self).view_mode == ViewMode::Latest {
                    latest_selected_message(
                        old(self).latest_rows_view(),
                        old(self).selected_latest_key,
                        old(self).messages(),
                    )
                } else {
                    log_selected_message(
                        old(self).listed(),
                        old(self).selected_index,
                        old(self).messages(),
                    )
                };
                match r {
                    Some(m) => want == Some(*m),
                    None => want is None,
                }
            }),
    {
        if self.view_mode == ViewMode::Latest {
            let key = match self.selected_latest_key {
                Some(k) => k,
                None => {
                    if !self.latest_frozen {
                        let _ = self.engine.get_filtered_indices();
                    }
                    return None;
                },
            };
            let rows = self.latest_rows();
            match find_row(&rows, &key) {
                Some(i) => {
                    proof {
                        lemma_first_row(rows@, key, i as int);
                    }
                    let gi = rows[i].1;
                    return self.engine.get_message_by_global_index(gi);
                },
                None => {
                    return None;
                },
            }
        }
        let filtered = self.engine.filtered_count();
        if filtered == 0 {
            return None;
        }
        let want = match self.selected_index {
            Some(i) => i,
            None => 0,
        };
        let idx = if want < filtered - 1 {
            want
        } else {
            filtered - 1
        };
        proof {
            self.engine.lemma_index_in_range(idx as int);
        }
        self.engine.get_message_at(idx)
    }

    /// Moves the selection one row up; returns the row to scroll to (none when the view
    /// has no rows).
    pub fn select_prev(&mut self) -> (r: Option<usize>)
        requires
            old(self).wf(),
            old(self).view_mode == ViewMode::Latest && old(self).latest_rows_view().len() > 0
                ==> latest_prev_row(
                old(self).latest_rows_view().len() as int,
                old(self).selected_index,
            ) < old(self).latest_rows_view().len(),
        ensures
            final(self).after_reading_rows(old(self)),
            final(self).modes_kept(old(self)),
            old(self).view_mode == ViewMode::Latest ==> ({
                let rows = old(self).latest_rows_view();
                let row = latest_prev_row(rows.len() as int, old(self).selected_index);
                if rows.len() == 0 {
                    r is None && final(self).view_kept(old(self))
                } else {
                    &&& r == Some(row as usize)
                    &&& final(self).selected_index == Some(row as usize)
                    &&& final(self).selected_latest_key == Some(rows[row].0)
                }
            }),
            old(self).view_mode == ViewMode::Log ==> ({
                let f = old(self).listed();
                let g = log_prev(f, old(self).selected_index);
                if f.len() == 0 {
                    r is None && final(self).view_kept(old(self))
                } else {
                    &&& final(self).selected_index == Some(g)
                    &&& final(self).selected_latest_key == old(self).selected_latest_key
                    &&& r matches Some(p) && first_pos(f, g) == Some(p as int)
                }
            }),
    {
        if self.view_mode == ViewMode::Latest {
            let rows = self.latest_rows();
            if rows.len() == 0 {
                return None;
            }
            let row = match self.selected_index {
                Some(r) => if r >= 1 {
                    r - 1
                } else {
                    0
                },
                None => rows.len() - 1,
            };
            self.selected_index = Some(row);
            self.selected_latest_key = Some(rows[row].0);
            return Some(row);
        }
        let f = vstd::slice::slice_to_vec(self.engine.get_filtered_indices());
        if f.len() == 0 {
            return None;
        }
        let last = f[f.len() - 1];
        let new_idx = match self.selected_index {
            None => last,
            Some(g) => match find_pos(&f, g) {
                Some(p) => if p > 0 {
                    f[p - 1]
                } else {
                    g
                },
                None => last,
            },
        };
        proof {
            assert(f@.last() == last);
            assert(f@[f@.len() - 1] == last);
            if let Some(g) = self.selected_index {
                if let Some(p) = first_pos(f@, g) {
                    if p > 0 {
                        assert(f@[p - 1] == new_idx);
                    }
                }
            }
            assert(f@.contains(new_idx));
        }
        self.selected_index = Some(new_idx);
        find_pos(&f, new_idx)
    }

    /// Moves the selection one row down; returns the row to scroll to (none when the view
    /// has no rows).
    pub fn select_next(&mut self) -> (r: Option<usize>)
        requires
            old(self).wf(),
            old(self).view_mode == ViewMode::Latest && old(self).latest_rows_view().len() > 0
                ==> latest_next_row(
                old(self).latest_rows_view().len() as int,
                old(self).selected_index,
            ) < old(self).latest_rows_view().len(),
        ensures
            final(self).after_reading_rows(old(self)),
            final(self).modes_kept(old(self)),
            old(self).view_mode == ViewMode::Latest ==> ({
                let rows = old(self).latest_rows_view();
                let row = latest_next_row(rows.len() as int, old(self).selected_index);
                if rows.len() == 0 {
                    r is None && final(self).view_kept(old(self))
                } else {
                    &&& r == Some(row as usize)
                    &&& final(self).selected_index == Some(row as usize)
                    &&& final(self).selected_latest_key == Some(rows[row].0)
                }
            }),
            old(self).view_mode == ViewMode::Log ==> ({
                let f = old(self).listed();
                let g = log_next(f, old(self).selected_index);
                if f.len() == 0 {
                    r is None && final(self).view_kept(old(self))
                } else {
                    &&& final(self).selected_index == Some(g)
                    &&& final(self).selected_latest_key == old(self).selected_latest_key
                    &&& r matches Some(p) && first_pos(f, g) == Some(p as int)
                }
            }),
    {
        if self.view_mode == ViewMode::Latest {
            let rows = self.latest_rows();
            if rows.len() == 0 {
                return None;
            }
            let row = match self.selected_index {
                Some(r) => if r + 1 < rows.len() {
                    r + 1
                } else {
                    r
                },
                None => 0,
            };
            self.selected_index = Some(row);
            self.selected_latest_key = Some(rows[row].0);
            return Some(row);
        }
        let f = vstd::slice::slice_to_vec(self.engine.get_filtered_indices());
        if f.len() == 0 {
            return None;
        }
        let first = f[0];
        let new_idx = match self.selected_index {
            None => first,
            Some(g) => match find_pos(&f, g) {
                Some(p) => if p + 1 < f.len() {
                    f[p + 1]
                } else {
                    g
                },
                None => first,
            },
        };
        proof {
            assert(f@[0] == first);
            if let Some(g) = self.selected_index {
                if let Some(p) = first_pos(f@, g) {
                    if p + 1 < f@.len() {
                        assert(f@[p + 1] == new_idx);
                    }
                }
            }
            assert(f@.contains(new_idx));
        }
        self.selected_index = Some(new_idx);
        find_pos(&f, new_idx)
    }

    /// Moves the selection one page up; returns the row to scroll to (none when the view
    /// has no rows).
    pub fn select_page_up(&mut self) -> (r: Option<usize>)
        requires
            old(self).wf(),
            old(self).view_mode == ViewMode::Latest && old(self).latest_rows_view().len() > 0
                ==> latest_page_up_row(old(self).selected_index) < old(self).latest_rows_view().len(),
        ensures
            final(self).after_reading_rows(old(self)),
            final(self).modes_kept(old(self)),
            old(self).view_mode == ViewMode::Latest ==> ({
                let rows = old(self).latest_rows_view();
                let row = latest_page_up_row(old(self).selected_index);
                if rows.len() == 0 {
                    r is None && final(self).view_kept(old(self))
                } else {
                    &&& r == Some(row as usize)
                    &&& final(self).selected_index == Some(row as usize)
                    &&& final(self).selected_latest_key == Some(rows[row].0)
                }
            }),
            old(self).view_mode == ViewMode::Log ==> ({
                let f = old(self).listed();
                let t = log_page_up_row(f, old(self).selected_index);
                if f.len() == 0 {
                    r is None && final(self).view_kept(old(self))
                } else {
                    &&& 0 <= t < f.len()
                    &&& final(self).selected_index == Some(f[t])
                    &&& final(self).selected_latest_key == old(self).selected_latest_key
                    &&& r matches Some(p) && first_pos(f, f[t]) == Some(p as int)
                }
            }),
    {
        if self.view_mode == ViewMode::Latest {
            let rows = self.latest_rows();
            if rows.len() == 0 {
                return None;
            }
            let target_pos = match self.selected_index {
                Some(pos) => page_back_exec(pos),
                None => 0,
            };
            self.selected_index = Some(target_pos);
            self.selected_latest_key = Some(rows[target_pos].0);
            return Some(target_pos);
        }
        let f = vstd::slice::slice_to_vec(self.engine.get_filtered_indices());
        if f.len() == 0 {
            return None;
        }
        let target_pos = match self.selected_index {
            Some(g) => match find_pos(&f, g) {
                Some(p) => page_back_exec(p),
                None => 0,
            },
            None => 0,
        };
        let new_idx = f[target_pos];
        proof {
            assert(f@[target_pos as int] == new_idx);
            assert(f@.contains(new_idx));
        }
        self.selected_index = Some(new_idx);
        find_pos(&f, new_idx)
    }

    /// Moves the selection one page down; returns the row to scroll to (none when the view
    /// has no rows).
    pub fn select_page_down(&mut self) -> (r: Option<usize>)
        requires
            old(self).wf(),
            old(self).view_mode == ViewMode::Latest && old(self).latest_rows_view().len() > 0
                ==> latest_page_down_row(
                old(self).latest_rows_view().len() as int,
                old(self).selected_index,
            ) < old(self).latest_rows_view().len(),
        ensures
            final(self).after_reading_rows(old(self)),
            final(self).modes_kept(old(self)),
            old(self).view_mode == ViewMode::Latest ==> ({
                let rows = old(self).latest_rows_view();
                let row = latest_page_down_row(rows.len() as int, old(self).selected_index);
                if rows.len() == 0 {
                    r is None && final(self).view_kept(old(self))
                } else {
                    &&& r == Some(row as usize)
                    &&& final(self).selected_index == Some(row as usize)
                    &&& final(self).selected_latest_key == Some(rows[row].0)
                }
            }),
            old(self).view_mode == ViewMode::Log ==> ({
                let f = old(self).listed();
                let t = log_page_down_row(f, old(self).selected_index);
                if f.len() == 0 {
                    r is None && final(self).view_kept(old(self))
                } else {
                    &&& 0 <= t < f.len()
                    &&& final(self).selected_index == Some(f[t])
                    &&& final(self).selected_latest_key == old(self).selected_latest_key
                    &&& r matches Some(p) && first_pos(f, f[t]) == Some(p as int)
                }
            }),
    {
        if self.view_mode == ViewMode::Latest {
            let rows = self.latest_rows();
            if rows.len() == 0 {
                return None;
            }
            let target_pos = match self.selected_index {
                Some(pos) => page_forward_exec(pos, rows.len()),
                None => 0,
            };
            self.selected_index = Some(target_pos);
            self.selected_latest_key = Some(rows[target_pos].0);
            return Some(target_pos);
        }
        let f = vstd::slice::slice_to_vec(self.engine.get_filtered_indices());
        if f.len() == 0 {
            return None;
        }
        let target_pos = match self.selected_index {
            Some(g) => match find_pos(&f, g) {
                Some(p) => page_forward_exec(p, f.len()),
                None => 0,
            },
            None => 0,
        };
        let new_idx = f[target_pos];
        proof {
            assert(f@[target_pos as int] == new_idx);
            assert(f@.contains(new_idx));
        }
        self.selected_index = Some(new_idx);
        find_pos(&f, new_idx)
    }
}

impl MessageList<FilterRule> {
    /// Replaces the filters: by source address and PGN when given, by each title, and by
    /// source and destination NAME lists when not empty. The destination address is not
    /// used.
    pub fn set_filter(
        &mut self,
        source_addr: Option<u8>,
        _dest_addr: Option<u8>,
        pgn: Option<u32>,
        title_contains: Vec<String>,
        source_names: Vec<u64>,
        dest_names: Vec<u64>,
    )
        requires
            old(self).wf(),
        ensures
            final(self).wf(),
            final(self).messages() == old(self).messages(),
            final(self).indices() == old(self).indices(),
            final(self).dirty(),
            final(self).view_kept(old(self)),
            forall|m: DecodedMessage|
                #[trigger] all_accept(final(self).filters(), m) == message_filter_accepts(
                    source_addr,
                    pgn,
                    title_contains@,
                    source_names@,
                    dest_names@,
                    m,
                ),
    {
        let ghost no_names = Seq::<u64>::empty();
        let mut filters: Vec<FilterRule> = Vec::new();
        proof {
            assert forall|m: DecodedMessage| #[trigger] all_accept(filters@, m) == message_filter_accepts(
                None,
                None,
                Seq::<String>::empty(),
                no_names,
                no_names,
                m,
            ) by {}
        }
        if let Some(src) = source_addr {
            let f = FilterRule::Source(SourceFilter::new(src));
            proof {
                assert forall|m: DecodedMessage| #[trigger] all_accept(filters@.push(f), m) == message_filter_accepts(
                    source_addr,
                    None,
                    Seq::<String>::empty(),
                    no_names,
                    no_names,
                    m,
                ) by {
                    lemma_all_accept_push(filters@, f, m);
                    assert(all_accept(filters@, m));
                    if f.accepts(m) {
                        let s = id_source(m.assembled_message.id);
                        assert(seq![src].contains(s));
                        assert(seq![src][0] == src);
                    }
                    if id_source(m.assembled_message.id) == src {
                        assert(seq![src][0] == src);
                    }
                }
            }
            filters.push(f);
        }
        assert forall|m: DecodedMessage| #[trigger] all_accept(filters@, m) == message_filter_accepts(
            source_addr,
            None,
            Seq::<String>::empty(),
            no_names,
            no_names,
            m,
        ) by {}
        if let Some(p) = pgn {
            let f = FilterRule::Pgn(PgnFilter::new(p));
            proof {
                assert forall|m: DecodedMessage| #[trigger] all_accept(filters@.push(f), m) == message_filter_accepts(
                    source_addr,
                    pgn,
                    Seq::<String>::empty(),
                    no_names,
                    no_names,
                    m,
                ) by {
                    lemma_all_accept_push(filters@, f, m);
                    assert(all_accept(filters@, m) == message_filter_accepts(
                        source_addr,
                        None,
                        Seq::<String>::empty(),
                        no_names,
                        no_names,
                        m,
                    ));
                }
            }
            filters.push(f);
        }
        assert forall|m: DecodedMessage| #[trigger] all_accept(filters@, m) == message_filter_accepts(
            source_addr,
            pgn,
            Seq::<String>::empty(),
            no_names,
            no_names,
            m,
        ) by {
            if pgn is None {
                assert(all_accept(filters@, m) == message_filter_accepts(
                    source_addr,
                    None,
                    Seq::<String>::empty(),
                    no_names,
                    no_names,
                    m,
                ));
            }
        }
        let mut i: usize = 0;
        while i < title_contains.len()
            invariant
                i <= title_contains@.len(),
                forall|m: DecodedMessage|
                    #[trigger] all_accept(filters@, m) == message_filter_accepts(
                        source_addr,
                        pgn,
                        title_contains@.take(i as int),
                        no_names,
                        no_names,
                        m,
                    ),
            decreases title_contains@.len() - i,
        {
            let f = FilterRule::Title(TitleFilter::new(title_contains[i].as_str()));
            proof {
                let pre = title_contains@.take(i as int);
                let post = title_contains@.take(i + 1);
                assert forall|m: DecodedMessage| #[trigger] all_accept(filters@.push(f), m) == message_filter_accepts(
                    source_addr,
                    pgn,
                    post,
                    no_names,
                    no_names,
                    m,
                ) by {
                    lemma_all_accept_push(filters@, f, m);
                    assert(all_accept(filters@, m) == message_filter_accepts(
                        source_addr,
                        pgn,
                        pre,
                        no_names,
                        no_names,
                        m,
                    ));
                    assert(post[i as int] == title_contains@[i as int]);
                    if message_filter_accepts(source_addr, pgn, pre, no_names, no_names, m)
                        && f.accepts(m) {
                        assert forall|j: int| 0 <= j < post.len() implies title_matches(
                            m,
                            lowercase(#[trigger] post[j]@),
                        ) by {
                            if j < i {
                                assert(post[j] == pre[j]);
                            }
                        }
                    }
                    if message_filter_accepts(source_addr, pgn, post, no_names, no_names, m) {
                        assert forall|j: int| 0 <= j < pre.len() implies title_matches(
                            m,
                            lowercase(#[trigger] pre[j]@),
                        ) by {
                            assert(post[j] == pre[j]);
                        }
                        assert(title_matches(m, lowercase(post[i as int]@)));
                    }
                }
            }
            filters.push(f);
            i = i + 1;
        }
        assert(title_contains@.take(title_contains@.len() as int) =~= title_contains@);
        let ghost snames = source_names@;
        let ghost dnames = dest_names@;
        if source_names.len() > 0 {
            let f = FilterRule::SourceName(SourceNameFilter::from_list(source_names));
            proof {
                assert forall|m: DecodedMessage| #[trigger] all_accept(filters@.push(f), m) == message_filter_accepts(
                    source_addr,
                    pgn,
                    title_contains@,
                    snames,
                    no_names,
                    m,
                ) by {
                    lemma_all_accept_push(filters@, f, m);
                    assert(all_accept(filters@, m) == message_filter_accepts(
                        source_addr,
                        pgn,
                        title_contains@,
                        no_names,
                        no_names,
                        m,
                    ));
                }
            }
            filters.push(f);
        }
        assert forall|m: DecodedMessage| #[trigger] all_accept(filters@, m) == message_filter_accepts(
            source_addr,
            pgn,
            title_contains@,
            snames,
            no_names,
            m,
        ) by {
            if snames.len() == 0 {
                assert(all_accept(filters@, m) == message_filter_accepts(
                    source_addr,
                    pgn,
                    title_contains@,
                    no_names,
                    no_names,
                    m,
                ));
            }
        }
        if dest_names.len() > 0 {
            let f = FilterRule::DestName(DestNameFilter::from_list(dest_names));
            proof {
                assert forall|m: DecodedMessage| #[trigger] all_accept(filters@.push(f), m) == message_filter_accepts(
                    source_addr,
                    pgn,
                    title_contains@,
                    snames,
                    dnames,
                    m,
                ) by {
                    lemma_all_accept_push(filters@, f, m);
                    assert(all_accept(filters@, m) == message_filter_accepts(
                        source_addr,
                        pgn,
                        title_contains@,
                        snames,
                        no_names,
                        m,
                    ));
                }
            }
            filters.push(f);
        }
        assert forall|m: DecodedMessage| #[trigger] all_accept(filters@, m) == message_filter_accepts(
            source_addr,
            pgn,
            title_contains@,
            snames,
            dnames,
            m,
        ) by {
            if dnames.len() == 0 {
                assert(all_accept(filters@, m) == message_filter_accepts(
                    source_addr,
                    pgn,
                    title_contains@,
                    snames,
                    no_names,
                    m,
                ));
            }
        }
        self.engine.set_filters(filters);
    }
}

} // verus!
