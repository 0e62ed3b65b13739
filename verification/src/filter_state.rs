//! Snapshot of the filter widgets, as persisted between runs.
use vstd::prelude::*;
use crate::app_state::{FilterType, FilterWidget};
use crate::numparse::{trim, trim_chars};
use crate::text::{str_chars, push_str, push_char};

verus! {

/// One persisted filter widget.
#[derive(Debug, Clone, PartialEq, Eq)]
pub struct SavedFilter {
    pub filter_type: FilterType,
    pub name: String,
    pub enabled: bool,
    pub input_text: String,
}

/// All persisted filter widgets, in order.
#[derive(Debug, Clone, PartialEq, Eq)]
pub struct FilterState {
    pub filters: Vec<SavedFilter>,
}

/// The filter is enabled and has non-blank text.
pub open spec fn saved_active(f: SavedFilter) -> bool {
    f.enabled && trim(f.input_text@).len() > 0
}

/// Number of active filters.
pub open spec fn active_total(fs: Seq<SavedFilter>) -> nat
    decreases fs.len(),
{
    if fs.len() == 0 {
        0
    } else {
        active_total(fs.drop_last()) + if saved_active(fs.last()) {
            1nat
        } else {
            0nat
        }
    }
}

/// The saved filter records the widget.
pub open spec fn saved_matches(s: SavedFilter, w: FilterWidget) -> bool {
    &&& s.filter_type == w.filter_type
    &&& s.name@ == w.name@
    &&& s.enabled == w.enabled
    &&& s.input_text@ == w.input_text@
}

fn is_blank(s: &String) -> (r: bool)
    ensures
        r == (trim(s@).len() == 0),
{
    let cs = str_chars(s.as_str());
    let t = trim_chars(&cs);
    t.len() == 0
}

impl FilterState {
    /// Snapshot of the widgets, in order.
    pub fn from_widgets(widgets: &[FilterWidget]) -> (r: Self)
        ensures
            r.filters@.len() == widgets@.len(),
            forall|i: int| 0 <= i < widgets@.len() ==> #[trigger] saved_matches(r.filters@[i], widgets@[i]),
    {
        let mut filters: Vec<SavedFilter> = Vec::new();
        let mut i: usize = 0;
        while i < widgets.len()
            invariant
                i <= widgets@.len(),
                filters@.len() == i,
                forall|k: int| 0 <= k < i ==> #[trigger] saved_matches(filters@[k], widgets@[k]),
            decreases widgets@.len() - i,
        {
            let w = &widgets[i];
            filters.push(
                SavedFilter {
                    filter_type: w.filter_type,
                    name: w.name.clone(),
                    enabled: w.enabled,
                    input_text: w.input_text.clone(),
                },
            );
            i = i + 1;
        }
        FilterState { filters }
    }

    /// Widgets rebuilt from the snapshot, in order.
    pub fn to_widgets(&self) -> (r: Vec<FilterWidget>)
        ensures
            r@.len() == self.filters@.len(),
            forall|i: int| 0 <= i < r@.len() ==> #[trigger] saved_matches(self.filters@[i], r@[i]),
    {
        let mut ws: Vec<FilterWidget> = Vec::new();
        let mut i: usize = 0;
        while i < self.filters.len()
            invariant
                i <= self.filters@.len(),
                ws@.len() == i,
                forall|k: int| 0 <= k < i ==> #[trigger] saved_matches(self.filters@[k], ws@[k]),
            decreases self.filters@.len() - i,
        {
            let sf = &self.filters[i];
            let mut w = FilterWidget::new(sf.name.as_str(), sf.filter_type);
            w.enabled = sf.enabled;
            w.input_text = sf.input_text.clone();
            ws.push(w);
            i = i + 1;
        }
        ws
    }

    /// True when no filter is active (enabled with non-blank text).
    pub fn is_empty(&self) -> (r: bool)
        ensures
            r == forall|i: int| 0 <= i < self.filters@.len() ==> !#[trigger] saved_active(self.filters@[i]),
    {
        let mut i: usize = 0;
        while i < self.filters.len()
            invariant
                i <= self.filters@.len(),
                forall|k: int| 0 <= k < i ==> !#[trigger] saved_active(self.filters@[k]),
            decreases self.filters@.len() - i,
        {
            let f = &self.filters[i];
            if f.enabled && !is_blank(&f.input_text) {
                assert(saved_active(self.filters@[i as int]));
                return false;
            }
            i = i + 1;
        }
        true
    }

    /// Number of active filters (enabled with non-blank text).
    pub fn active_count(&self) -> (r: usize)
        ensures
            r == active_total(self.filters@),
    {
        let mut n: usize = 0;
        let mut i: usize = 0;
        while i < self.filters.len()
            invariant
                i <= self.filters@.len(),
                n == active_total(self.filters@.take(i as int)),
                n <= i,
            decreases self.filters@.len() - i,
        {
            proof {
                assert(self.filters@.take(i + 1).drop_last() =~= self.filters@.take(i as int));
            }
            let f = &self.filters[i];
            if f.enabled && !is_blank(&f.input_text) {
                n = n + 1;
            }
            i = i + 1;
        }
        assert(self.filters@.take(self.filters@.len() as int) =~= self.filters@);
        n
    }
}

impl Default for FilterState {
    fn default() -> (r: Self)
        ensures
            r.filters@.len() == 0,
    {
        FilterState { filters: Vec::new() }
    }
}

/// `dir` joined with `name` the way a path is extended: a `/` is put between them unless
/// `dir` is empty or already ends with one.
pub open spec fn path_join(dir: Seq<char>, name: Seq<char>) -> Seq<char> {
    if dir.len() == 0 || dir.last() == '/' {
        dir + name
    } else {
        dir + seq!['/'] + name
    }
}

/// Path of the persisted filter file of a front end (`"tui"` or `"gpui"`) in a config
/// directory: `<dir>/filters_<frontend>.yaml`.
pub fn filters_path(config_dir: &str, frontend: &str) -> (r: String)
    ensures
        r@ == path_join(config_dir@, "filters_"@ + frontend@ + ".yaml"@),
{
    let dir = str_chars(config_dir);
    let mut r = String::new();
    push_str(&mut r, config_dir);
    if dir.len() > 0 && dir[dir.len() - 1] != '/' {
        push_char(&mut r, '/');
    }
    push_str(&mut r, "filters_");
    push_str(&mut r, frontend);
    push_str(&mut r, ".yaml");
    assert(r@ =~= path_join(config_dir@, "filters_"@ + frontend@ + ".yaml"@));
    r
}

} // verus!
