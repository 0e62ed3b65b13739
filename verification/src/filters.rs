//! Message filters (by title, PGN, severity, flag, address and NAME), their conjunction, and
//! the parser for filter expressions such as `pgn:0xEA00` or `source:144,0xfe`.
use vstd::prelude::*;
use crate::types::{
    opt_view,
    DecodedMessage,
    DecodedField,
    Numeric,
    FlagValue,
    Severity,
    id_source,
    id_destination,
};
use crate::text::{
    str_chars,
    string_from_chars,
    contains_chars,
    contains_seq,
    slice_vec,
    lowercase,
    to_lowercase,
    push_str,
    starts_with,
    starts_with_chars,
    find_first,
    find_first_char,
    split_commas,
    split_on_commas,
};
use crate::numparse::{
    trim,
    trim_chars,
    bounded,
    radix_value,
    radix_result,
    strip_hex_prefix,
    int_error_text,
    parse_radix,
    parse_radix_checked,
    IntErrorKind,
};

verus! {

// ─── The filter interface ────────────────────────────────────────────────────

/// Decides which decoded messages pass.
pub trait Filter {
    /// Whether the filter lets `message` pass.
    spec fn accepts(&self, message: DecodedMessage) -> bool;

    /// Human-readable name of this filter implementation.
    fn name(&self) -> &str;

    /// Whether the filter lets `message` pass.
    fn matches_sync(&self, message: &DecodedMessage) -> (r: bool)
        ensures
            r == self.accepts(*message),
    ;
}

// ─── What the filters look at ────────────────────────────────────────────────

/// The text a field shows: a value's title or a message's text.
pub open spec fn field_text(f: DecodedField) -> Seq<char> {
    match f {
        DecodedField::Value { title, .. } => title@,
        DecodedField::StringMessage { text, .. } => text@,
    }
}

/// The field is a flag value with this title and state.
pub open spec fn field_is_flag(f: DecodedField, title: Seq<char>, v: FlagValue) -> bool {
    match f {
        DecodedField::Value { title: t, value: Numeric::Flag(x), .. } => t@ == title && x == v,
        _ => false,
    }
}

/// The field is a text message of this severity.
pub open spec fn field_has_severity(f: DecodedField, s: Severity) -> bool {
    match f {
        DecodedField::StringMessage { severity, .. } => severity == s,
        _ => false,
    }
}

/// The lowercase message title, or the lowercase text of one of its fields, contains
/// `needle`.
pub open spec fn title_matches(m: DecodedMessage, needle: Seq<char>) -> bool {
    ||| contains_seq(lowercase(m.title@), needle)
    ||| exists|j: int|
        0 <= j < m.outputs@.len() && contains_seq(
            lowercase(field_text(#[trigger] m.outputs@[j])),
            needle,
        )
}

// ─── Filters ─────────────────────────────────────────────────────────────────

/// A filter that matches flag values by title.
#[derive(Debug, Clone, PartialEq, Eq)]
pub struct FlagFilter {
    pub title: String,
    pub value: FlagValue,
}

/// A filter that matches severity levels.
#[derive(Debug, Clone, Copy, PartialEq, Eq)]
pub struct SeverityFilter {
    pub severity: Severity,
}

/// A filter that matches one PGN.
#[derive(Debug, Clone, Copy, PartialEq, Eq)]
pub struct PgnFilter {
    pub pgn: u32,
}

/// A filter that matches by title (case-insensitive substring of the message title or of an
/// output's title or text).
#[derive(Debug, Clone, PartialEq, Eq)]
pub struct TitleFilter {
    pub title_contains: String,
}

/// A filter that matches by source address.
#[derive(Debug, Clone, PartialEq, Eq)]
pub struct SourceFilter {
    pub sources: Vec<u8>,
}

/// A filter that matches by destination address.
#[derive(Debug, Clone, PartialEq, Eq)]
pub struct DestFilter {
    pub dests: Vec<u8>,
}

/// A filter that matches by source NAME.
#[derive(Debug, Clone, PartialEq, Eq)]
pub struct SourceNameFilter {
    pub names: Vec<u64>,
}

/// A filter that matches by destination NAME.
#[derive(Debug, Clone, PartialEq, Eq)]
pub struct DestNameFilter {
    pub names: Vec<u64>,
}

/// A filter that lets a message pass when all its sub-filters do.
#[derive(Debug, Clone)]
pub struct CompositeFilter<F> {
    pub filters: Vec<F>,
}

impl PgnFilter {
    /// A filter for one PGN.
    pub fn new(pgn: u32) -> (r: Self)
        ensures
            r.pgn == pgn,
    {
        PgnFilter { pgn }
    }
}

impl TitleFilter {
    /// A filter for titles containing `title`, compared in lowercase.
    pub fn new(title: &str) -> (r: Self)
        ensures
            r.title_contains@ == lowercase(title@),
    {
        TitleFilter { title_contains: to_lowercase(title) }
    }
}

impl SourceFilter {
    /// A filter for one source address.
    pub fn new(source: u8) -> (r: Self)
        ensures
            r.sources@ == seq![source],
    {
        SourceFilter { sources: vec![source] }
    }

    /// A filter for any of the given source addresses.
    pub fn from_list(sources: Vec<u8>) -> (r: Self)
        ensures
            r.sources@ == sources@,
    {
        SourceFilter { sources }
    }
}

impl DestFilter {
    /// A filter for one destination address.
    pub fn new(dest: u8) -> (r: Self)
        ensures
            r.dests@ == seq![dest],
    {
        DestFilter { dests: vec![dest] }
    }

    /// A filter for any of the given destination addresses.
    pub fn from_list(dests: Vec<u8>) -> (r: Self)
        ensures
            r.dests@ == dests@,
    {
        DestFilter { dests }
    }
}

impl SourceNameFilter {
    /// A filter for one source NAME.
    pub fn new(source_name: u64) -> (r: Self)
        ensures
            r.names@ == seq![source_name],
    {
        SourceNameFilter { names: vec![source_name] }
    }

    /// A filter for any of the given source NAMEs.
    pub fn from_list(names: Vec<u64>) -> (r: Self)
        ensures
            r.names@ == names@,
    {
        SourceNameFilter { names }
    }
}

impl DestNameFilter {
    /// A filter for one destination NAME.
    pub fn new(dest_name: u64) -> (r: Self)
        ensures
            r.names@ == seq![dest_name],
    {
        DestNameFilter { names: vec![dest_name] }
    }

    /// A filter for any of the given destination NAMEs.
    pub fn from_list(names: Vec<u64>) -> (r: Self)
        ensures
            r.names@ == names@,
    {
        DestNameFilter { names }
    }
}

impl<F: Filter> CompositeFilter<F> {
    /// The conjunction of the given filters.
    pub fn new(filters: Vec<F>) -> (r: Self)
        ensures
            r.filters@ == filters@,
    {
        CompositeFilter { filters }
    }
}

fn u8_in(v: &Vec<u8>, x: u8) -> (r: bool)
    ensures
        r == v@.contains(x),
{
    let mut i: usize = 0;
    while i < v.len()
        invariant
            i <= v@.len(),
            forall|k: int| 0 <= k < i ==> v@[k] != x,
        decreases v@.len() - i,
    {
        if v[i] == x {
            assert(v@[i as int] == x);
            return true;
        }
        i = i + 1;
    }
    false
}

fn name_in(v: &Vec<u64>, x: Option<u64>) -> (r: bool)
    ensures
        r == exists|i: int| 0 <= i < v@.len() && x == Some(#[trigger] v@[i]),
{
    let mut i: usize = 0;
    while i < v.len()
        invariant
            i <= v@.len(),
            forall|k: int| 0 <= k < i ==> x != Some(#[trigger] v@[k]),
        decreases v@.len() - i,
    {
        match x {
            Some(n) => {
                if v[i] == n {
                    return true;
                }
            },
            None => {},
        }
        i = i + 1;
    }
    false
}

/// Whether the lowercase form of `text` contains `needle`.
fn lower_contains(text: &String, needle: &[char]) -> (r: bool)
    ensures
        r == contains_seq(lowercase(text@), needle@),
{
    let low = to_lowercase(text.as_str());
    let cs = str_chars(low.as_str());
    contains_chars(&cs, needle)
}

impl Filter for FlagFilter {
    open spec fn accepts(&self, m: DecodedMessage) -> bool {
        exists|j: int|
            0 <= j < m.outputs@.len() && field_is_flag(#[trigger] m.outputs@[j], self.title@, self.value)
    }

    fn name(&self) -> (r: &str)
        ensures
            r@ == "flag_filter"@,
    {
        "flag_filter"
    }

    fn matches_sync(&self, message: &DecodedMessage) -> (r: bool) {
        let mut i: usize = 0;
        while i < message.outputs.len()
            invariant
                i <= message.outputs@.len(),
                forall|k: int|
                    0 <= k < i ==> !field_is_flag(#[trigger] message.outputs@[k], self.title@, self.value),
            decreases message.outputs@.len() - i,
        {
            match &message.outputs[i] {
                DecodedField::Value { title, value: Numeric::Flag(v), .. } => {
                    if *title == self.title && *v == self.value {
                        assert(field_is_flag(message.outputs@[i as int], self.title@, self.value));
                        return true;
                    }
                },
                _ => {},
            }
            i = i + 1;
        }
        false
    }
}

impl Filter for SeverityFilter {
    open spec fn accepts(&self, m: DecodedMessage) -> bool {
        exists|j: int|
            0 <= j < m.outputs@.len() && field_has_severity(#[trigger] m.outputs@[j], self.severity)
    }

    fn name(&self) -> (r: &str)
        ensures
            r@ == "severity_filter"@,
    {
        "severity_filter"
    }

    fn matches_sync(&self, message: &DecodedMessage) -> (r: bool) {
        let mut i: usize = 0;
        while i < message.outputs.len()
            invariant
                i <= message.outputs@.len(),
                forall|k: int|
                    0 <= k < i ==> !field_has_severity(#[trigger] message.outputs@[k], self.severity),
            decreases message.outputs@.len() - i,
        {
            match &message.outputs[i] {
                DecodedField::StringMessage { severity, .. } => {
                    if *severity == self.severity {
                        assert(field_has_severity(message.outputs@[i as int], self.severity));
                        return true;
                    }
                },
                _ => {},
            }
            i = i + 1;
        }
        false
    }
}

impl Filter for PgnFilter {
    open spec fn accepts(&self, m: DecodedMessage) -> bool {
        m.assembled_message.pgn == self.pgn
    }

    fn name(&self) -> (r: &str)
        ensures
            r@ == "pgn_filter"@,
    {
        "pgn_filter"
    }

    fn matches_sync(&self, message: &DecodedMessage) -> (r: bool) {
        self.pgn == message.assembled_message.pgn()
    }
}

impl Filter for TitleFilter {
    open spec fn accepts(&self, m: DecodedMessage) -> bool {
        title_matches(m, self.title_contains@)
    }

    fn name(&self) -> (r: &str)
        ensures
            r@ == "title_filter"@,
    {
        "title_filter"
    }

    fn matches_sync(&self, message: &DecodedMessage) -> (r: bool) {
        let needle = str_chars(self.title_contains.as_str());
        if lower_contains(&message.title, &needle) {
            return true;
        }
        let mut i: usize = 0;
        while i < message.outputs.len()
            invariant
                i <= message.outputs@.len(),
                needle@ == self.title_contains@,
                forall|k: int|
                    0 <= k < i ==> !contains_seq(
                        lowercase(field_text(#[trigger] message.outputs@[k])),
                        needle@,
                    ),
            decreases message.outputs@.len() - i,
        {
            let hit = match &message.outputs[i] {
                DecodedField::Value { title, .. } => lower_contains(title, &needle),
                DecodedField::StringMessage { text, .. } => lower_contains(text, &needle),
            };
            if hit {
                assert(contains_seq(lowercase(field_text(message.outputs@[i as int])), needle@));
                return true;
            }
            i = i + 1;
        }
        false
    }
}

impl Filter for SourceFilter {
    open spec fn accepts(&self, m: DecodedMessage) -> bool {
        self.sources@.contains(id_source(m.assembled_message.id))
    }

    fn name(&self) -> (r: &str)
        ensures
            r@ == "source_filter"@,
    {
        "source_filter"
    }

    fn matches_sync(&self, message: &DecodedMessage) -> (r: bool) {
        u8_in(&self.sources, message.assembled_message.source())
    }
}

impl Filter for DestFilter {
    open spec fn accepts(&self, m: DecodedMessage) -> bool {
        self.dests@.contains(id_destination(m.assembled_message.id))
    }

    fn name(&self) -> (r: &str)
        ensures
            r@ == "dest_filter"@,
    {
        "dest_filter"
    }

    fn matches_sync(&self, message: &DecodedMessage) -> (r: bool) {
        u8_in(&self.dests, message.assembled_message.destination())
    }
}

impl Filter for SourceNameFilter {
    open spec fn accepts(&self, m: DecodedMessage) -> bool {
        exists|i: int|
            0 <= i < self.names@.len() && m.assembled_message.source_name == Some(
                #[trigger] self.names@[i],
            )
    }

    fn name(&self) -> (r: &str)
        ensures
            r@ == "source_name_filter"@,
    {
        "source_name_filter"
    }

    fn matches_sync(&self, message: &DecodedMessage) -> (r: bool) {
        name_in(&self.names, message.assembled_message.source_name)
    }
}

impl Filter for DestNameFilter {
    open spec fn accepts(&self, m: DecodedMessage) -> bool {
        exists|i: int|
            0 <= i < self.names@.len() && m.assembled_message.dest_name == Some(
                #[trigger] self.names@[i],
            )
    }

    fn name(&self) -> (r: &str)
        ensures
            r@ == "dest_name_filter"@,
    {
        "dest_name_filter"
    }

    fn matches_sync(&self, message: &DecodedMessage) -> (r: bool) {
        name_in(&self.names, message.assembled_message.dest_name)
    }
}

impl<F: Filter> Filter for CompositeFilter<F> {
    open spec fn accepts(&self, m: DecodedMessage) -> bool {
        forall|i: int| 0 <= i < self.filters@.len() ==> #[trigger] self.filters@[i].accepts(m)
    }

    fn name(&self) -> (r: &str)
        ensures
            r@ == "composite"@,
    {
        "composite"
    }

    fn matches_sync(&self, message: &DecodedMessage) -> (r: bool) {
        let mut i: usize = 0;
        while i < self.filters.len()
            invariant
                i <= self.filters@.len(),
                forall|k: int| 0 <= k < i ==> #[trigger] self.filters@[k].accepts(*message),
            decreases self.filters@.len() - i,
        {
            if !self.filters[i].matches_sync(message) {
                return false;
            }
            i = i + 1;
        }
        true
    }
}

// ─── Regular expressions ─────────────────────────────────────────────────────

/// The error message `regex::Regex::new` gives for pattern `p`, or `None` when it compiles.
pub uninterp spec fn regex_compile_error(p: Seq<char>) -> Option<Seq<char>>;

/// Whether the regular expression `p`, compiled with `regex::Regex::new`, matches somewhere
/// in `t` (`regex::Regex::is_match`).
pub uninterp spec fn regex_is_match(p: Seq<char>, t: Seq<char>) -> bool;

/// The pattern is a regular expression the `regex` crate accepts.
pub open spec fn regex_valid(p: Seq<char>) -> bool {
    regex_compile_error(p) is None
}

/// Compiles `p` with `regex::Regex::new` and reports the error message, if any. The
/// compiled expression is not kept.
#[verifier::external_body]
fn regex_check(p: &str) -> (r: Option<String>)
    ensures
        opt_view(r) == regex_compile_error(p@),
{
    match regex::Regex::new(p) {
        Ok(_) => None,
        Err(e) => Some(e.to_string()),
    }
}

/// Compiles `p` with `regex::Regex::new` and tests `t` with `regex::Regex::is_match`.
#[verifier::external_body]
fn regex_find(p: &str, t: &str) -> (r: bool)
    ensures
        r == regex_is_match(p@, t@),
{
    match regex::Regex::new(p) {
        Ok(re) => re.is_match(t),
        Err(_) => false,
    }
}

/// The text of the first text message among the outputs.
pub open spec fn first_text(outs: Seq<DecodedField>) -> Option<Seq<char>>
    decreases outs.len(),
{
    if outs.len() == 0 {
        None
    } else {
        match outs[0] {
            DecodedField::StringMessage { text, .. } => Some(text@),
            _ => first_text(outs.drop_first()),
        }
    }
}

/// A filter that matches the first text message of a message with a regular expression.
#[derive(Debug, Clone, PartialEq, Eq)]
pub struct RegexFilter {
    pub pattern: String,
}

impl RegexFilter {
    /// A filter for the pattern; an error, with the `regex` crate's message, when the pattern
    /// is not a valid regular expression.
    pub fn new(pattern: &str) -> (r: Result<RegexFilter, FilterParseError>)
        ensures
            r is Ok <==> regex_valid(pattern@),
            r matches Ok(f) ==> f.pattern@ == pattern@,
            r matches Err(e) ==> Some(e.model()->Message_0) == regex_compile_error(pattern@)
                && e.model() is Message,
    {
        match regex_check(pattern) {
            None => Ok(RegexFilter { pattern: String::from_str(pattern) }),
            Some(m) => Err(FilterParseError::Invalid(m)),
        }
    }
}

impl Filter for RegexFilter {
    open spec fn accepts(&self, m: DecodedMessage) -> bool {
        match first_text(m.outputs@) {
            Some(t) => regex_is_match(self.pattern@, t),
            None => false,
        }
    }

    fn name(&self) -> (r: &str)
        ensures
            r@ == "regex_filter"@,
    {
        "regex_filter"
    }

    fn matches_sync(&self, message: &DecodedMessage) -> (r: bool) {
        let outs = &message.outputs;
        let mut i: usize = 0;
        assert(outs@.skip(0) =~= outs@);
        while i < outs.len()
            invariant
                i <= outs@.len(),
                outs@ == message.outputs@,
                first_text(outs@) == first_text(outs@.skip(i as int)),
            decreases outs@.len() - i,
        {
            assert(outs@.skip(i as int).drop_first() =~= outs@.skip(i + 1));
            assert(outs@.skip(i as int)[0] == outs@[i as int]);
            match &outs[i] {
                DecodedField::StringMessage { text, .. } => {
                    assert(first_text(outs@) == Some(text@));
                    let p = self.pattern.as_str();
                    let t = text.as_str();
                    assert(p@ == self.pattern@ && t@ == text@);
                    let r = regex_find(p, t);
                    assert(r == regex_is_match(self.pattern@, text@));
                    assert(outs@ == message.outputs@);
                    assert(first_text(message.outputs@) == Some(text@));
                    return r;
                },
                _ => {},
            }
            i = i + 1;
        }
        assert(outs@.skip(i as int).len() == 0);
        false
    }
}

// ─── One type for all built-in filters ───────────────────────────────────────

/// Any of the built-in filters.
#[derive(Debug, Clone, PartialEq, Eq)]
pub enum FilterRule {
    Title(TitleFilter),
    Pgn(PgnFilter),
    Severity(SeverityFilter),
    Flag(FlagFilter),
    Source(SourceFilter),
    Dest(DestFilter),
    SourceName(SourceNameFilter),
    DestName(DestNameFilter),
}

/// The name of the filter a rule holds.
pub open spec fn rule_name(rule: FilterRule) -> Seq<char> {
    match rule {
        FilterRule::Title(_) => "title_filter"@,
        FilterRule::Pgn(_) => "pgn_filter"@,
        FilterRule::Severity(_) => "severity_filter"@,
        FilterRule::Flag(_) => "flag_filter"@,
        FilterRule::Source(_) => "source_filter"@,
        FilterRule::Dest(_) => "dest_filter"@,
        FilterRule::SourceName(_) => "source_name_filter"@,
        FilterRule::DestName(_) => "dest_name_filter"@,
    }
}

impl Filter for FilterRule {
    open spec fn accepts(&self, m: DecodedMessage) -> bool {
        match self {
            FilterRule::Title(f) => f.accepts(m),
            FilterRule::Pgn(f) => f.accepts(m),
            FilterRule::Severity(f) => f.accepts(m),
            FilterRule::Flag(f) => f.accepts(m),
            FilterRule::Source(f) => f.accepts(m),
            FilterRule::Dest(f) => f.accepts(m),
            FilterRule::SourceName(f) => f.accepts(m),
            FilterRule::DestName(f) => f.accepts(m),
        }
    }

    fn name(&self) -> (r: &str)
        ensures
            r@ == rule_name(*self),
    {
        match self {
            FilterRule::Title(f) => f.name(),
            FilterRule::Pgn(f) => f.name(),
            FilterRule::Severity(f) => f.name(),
            FilterRule::Flag(f) => f.name(),
            FilterRule::Source(f) => f.name(),
            FilterRule::Dest(f) => f.name(),
            FilterRule::SourceName(f) => f.name(),
            FilterRule::DestName(f) => f.name(),
        }
    }

    fn matches_sync(&self, message: &DecodedMessage) -> (r: bool) {
        match self {
            FilterRule::Title(f) => f.matches_sync(message),
            FilterRule::Pgn(f) => f.matches_sync(message),
            FilterRule::Severity(f) => f.matches_sync(message),
            FilterRule::Flag(f) => f.matches_sync(message),
            FilterRule::Source(f) => f.matches_sync(message),
            FilterRule::Dest(f) => f.matches_sync(message),
            FilterRule::SourceName(f) => f.matches_sync(message),
            FilterRule::DestName(f) => f.matches_sync(message),
        }
    }
}

// ─── Parsing filter expressions ──────────────────────────────────────────────

/// Bounds of a numeric filter as written: the number texts are converted by the caller,
/// which owns floating-point arithmetic.
#[derive(Debug, Clone, PartialEq, Eq)]
pub enum NumericBounds {
    /// `a,b,c`: exact values (each text trimmed).
    Exact(Vec<String>),
    /// `>=a`.
    AtLeast(String),
    /// `<=a`.
    AtMost(String),
    /// `a-b`.
    Between(String, String),
    /// `a`: a single value, as minimum and maximum.
    Equal(String),
}

/// A numeric filter as written: the output title and its bounds.
#[derive(Debug, Clone, PartialEq, Eq)]
pub struct NumericSpec {
    pub title: String,
    pub bounds: NumericBounds,
}

/// A parsed filter expression.
#[derive(Debug, Clone, PartialEq, Eq)]
pub enum ParsedFilter {
    /// A filter evaluated by this library.
    Rule(FilterRule),
    /// A numeric filter, completed by converting its number texts.
    Numeric(NumericSpec),
    /// A regular-expression filter over text messages.
    Regex(RegexFilter),
}

/// Why a filter expression was rejected.
#[derive(Debug, Clone, PartialEq, Eq)]
pub enum FilterParseError {
    /// The expression starts with no known filter type.
    UnknownFilterType,
    /// The expression is malformed; the message says how.
    Invalid(String),
}

/// What a bounds text describes.
pub enum BoundsModel {
    Exact(Seq<Seq<char>>),
    AtLeast(Seq<char>),
    AtMost(Seq<char>),
    Between(Seq<char>, Seq<char>),
    Equal(Seq<char>),
}

/// What a parsed filter expression describes.
pub enum FilterModel {
    Title(Seq<char>),
    Pgn(u32),
    Severity(Severity),
    Flag(Seq<char>, FlagValue),
    Sources(Seq<u8>),
    Dests(Seq<u8>),
    SourceNames(Seq<u64>),
    DestNames(Seq<u64>),
    Numeric(Seq<char>, BoundsModel),
    Regex(Seq<char>),
}

/// What a parse failure describes: an unknown type, or a message.
pub enum ErrorModel {
    Unknown,
    Message(Seq<char>),
}

impl FilterParseError {
    /// The error message.
    pub fn to_display_string(&self) -> (r: String)
        ensures
            r@ == match *self {
                FilterParseError::UnknownFilterType => "unknown filter type"@,
                FilterParseError::Invalid(m) => m@,
            },
    {
        match self {
            FilterParseError::UnknownFilterType => String::from_str("unknown filter type"),
            FilterParseError::Invalid(m) => m.clone(),
        }
    }

    /// What the error describes.
    pub open spec fn model(&self) -> ErrorModel {
        match *self {
            FilterParseError::UnknownFilterType => ErrorModel::Unknown,
            FilterParseError::Invalid(m) => ErrorModel::Message(m@),
        }
    }
}

impl NumericBounds {
    /// What the bounds describe.
    pub open spec fn model(&self) -> BoundsModel {
        match *self {
            NumericBounds::Exact(v) => BoundsModel::Exact(v@.map_values(|s: String| s@)),
            NumericBounds::AtLeast(a) => BoundsModel::AtLeast(a@),
            NumericBounds::AtMost(a) => BoundsModel::AtMost(a@),
            NumericBounds::Between(a, b) => BoundsModel::Between(a@, b@),
            NumericBounds::Equal(a) => BoundsModel::Equal(a@),
        }
    }
}

impl ParsedFilter {
    /// What the parsed filter describes.
    pub open spec fn model(&self) -> FilterModel {
        match *self {
            ParsedFilter::Rule(FilterRule::Title(f)) => FilterModel::Title(f.title_contains@),
            ParsedFilter::Rule(FilterRule::Pgn(f)) => FilterModel::Pgn(f.pgn),
            ParsedFilter::Rule(FilterRule::Severity(f)) => FilterModel::Severity(f.severity),
            ParsedFilter::Rule(FilterRule::Flag(f)) => FilterModel::Flag(f.title@, f.value),
            ParsedFilter::Rule(FilterRule::Source(f)) => FilterModel::Sources(f.sources@),
            ParsedFilter::Rule(FilterRule::Dest(f)) => FilterModel::Dests(f.dests@),
            ParsedFilter::Rule(FilterRule::SourceName(f)) => FilterModel::SourceNames(f.names@),
            ParsedFilter::Rule(FilterRule::DestName(f)) => FilterModel::DestNames(f.names@),
            ParsedFilter::Numeric(n) => FilterModel::Numeric(n.title@, n.bounds.model()),
            ParsedFilter::Regex(f) => FilterModel::Regex(f.pattern@),
        }
    }

    /// Human-readable name of the filter.
    pub fn name(&self) -> (r: &str)
        ensures
            self matches ParsedFilter::Numeric(_) ==> r@ == "numeric_filter"@,
            self matches ParsedFilter::Regex(_) ==> r@ == "regex_filter"@,
    {
        match self {
            ParsedFilter::Rule(f) => f.name(),
            ParsedFilter::Numeric(_) => "numeric_filter",
            ParsedFilter::Regex(_) => "regex_filter",
        }
    }
}

/// What a parse outcome describes.
pub open spec fn outcome_model(r: Result<ParsedFilter, FilterParseError>) -> Result<
    FilterModel,
    ErrorModel,
> {
    match r {
        Ok(f) => Ok(f.model()),
        Err(e) => Err(e.model()),
    }
}

/// A number in decimal, or else in hexadecimal with an optional `0x`/`0X` prefix; the
/// failure is that of the hexadecimal reading.
pub open spec fn dec_then_hex(s: Seq<char>, max: nat) -> Result<nat, IntErrorKind> {
    match bounded(radix_value(s, 10), max) {
        Some(v) => Ok(v),
        None => radix_result(
            match strip_hex_prefix(s) {
                Some(h) => h,
                None => s,
            },
            16,
            max,
        ),
    }
}

/// An address: decimal, or hexadecimal after a required `0x`/`0X` (both after trimming).
pub open spec fn addr_value(seg: Seq<char>) -> Result<nat, Seq<char>> {
    let t = trim(seg);
    match bounded(radix_value(t, 10), 0xFF) {
        Some(v) => Ok(v),
        None => match strip_hex_prefix(t) {
            None => Err("invalid address value: "@ + seg),
            Some(h) => match radix_result(h, 16, 0xFF) {
                Ok(v) => Ok(v),
                Err(k) => Err(int_error_text(k)),
            },
        },
    }
}

/// Addresses from the pieces in order, or the first failure.
pub open spec fn addr_list(segs: Seq<Seq<char>>) -> Result<Seq<u8>, Seq<char>>
    decreases segs.len(),
{
    if segs.len() == 0 {
        Ok(Seq::empty())
    } else {
        match addr_list(segs.drop_last()) {
            Err(e) => Err(e),
            Ok(vs) => match addr_value(segs.last()) {
                Ok(v) => Ok(vs.push(v as u8)),
                Err(e) => Err(e),
            },
        }
    }
}

/// Bounds text: comma-separated exact values, `>=a`, `<=a`, `a-b` or a single value.
pub open spec fn bounds_model(r: Seq<char>) -> BoundsModel {
    if r.contains(',') {
        BoundsModel::Exact(split_commas(r).map_values(|s: Seq<char>| trim(s)))
    } else if starts_with(r, ">="@) {
        BoundsModel::AtLeast(r.skip(2))
    } else if starts_with(r, "<="@) {
        BoundsModel::AtMost(r.skip(2))
    } else {
        match find_first(r, '-') {
            Some(p) => BoundsModel::Between(r.take(p), r.skip(p + 1)),
            None => BoundsModel::Equal(r),
        }
    }
}

/// All characters are decimal digits.
pub open spec fn dec_digits(s: Seq<char>) -> bool {
    forall|i: int| 0 <= i < s.len() ==> '0' <= #[trigger] s[i] <= '9'
}

/// `s` without a leading `+` or `-`.
pub open spec fn unsigned_part(s: Seq<char>) -> Seq<char> {
    if s.len() > 0 && (s[0] == '+' || s[0] == '-') {
        s.skip(1)
    } else {
        s
    }
}

/// The first position of `e` or `E`.
pub open spec fn exp_mark(s: Seq<char>) -> Option<int>
    decreases s.len(),
{
    if s.len() == 0 {
        None
    } else if s[0] == 'e' || s[0] == 'E' {
        Some(0)
    } else {
        match exp_mark(s.drop_first()) {
            Some(p) => Some(p + 1),
            None => None,
        }
    }
}

/// Digits, digits `.` digits, `.` digits or digits `.`: at least one digit.
pub open spec fn float_mantissa(s: Seq<char>) -> bool {
    match find_first(s, '.') {
        Some(p) => s.len() > 1 && dec_digits(s.take(p)) && dec_digits(s.skip(p + 1)),
        None => s.len() > 0 && dec_digits(s),
    }
}

/// A decimal number in `f64` syntax: a mantissa and an optional exponent (`e`, a sign
/// and digits).
pub open spec fn float_number(s: Seq<char>) -> bool {
    match exp_mark(s) {
        Some(p) => float_mantissa(s.take(p)) && unsigned_part(s.skip(p + 1)).len() > 0
            && dec_digits(unsigned_part(s.skip(p + 1))),
        None => float_mantissa(s),
    }
}

/// `a` is the lowercase ASCII word `w`, in any case.
pub open spec fn word_nocase(a: Seq<char>, w: Seq<char>) -> bool {
    a.len() == w.len() && forall|i: int|
        0 <= i < a.len() ==> (#[trigger] a[i] == w[i] || (a[i] as u32) + 32 == (w[i] as u32))
}

/// Text that `str::parse::<f64>` accepts: a sign, then `inf`, `infinity` or `nan` in any
/// case, or a decimal number.
pub open spec fn float_text(s: Seq<char>) -> bool {
    let b = unsigned_part(s);
    ||| word_nocase(b, "inf"@)
    ||| word_nocase(b, "infinity"@)
    ||| word_nocase(b, "nan"@)
    ||| float_number(b)
}

/// Why a number text of a numeric filter is rejected: not a decimal number and not `0x`
/// followed by a 64-bit hexadecimal number.
pub open spec fn numeric_text_error(s: Seq<char>) -> Option<Seq<char>> {
    if float_text(s) {
        None
    } else {
        match strip_hex_prefix(s) {
            None => Some("invalid numeric value: "@ + s),
            Some(h) => match radix_result(h, 16, 0xFFFF_FFFF_FFFF_FFFF) {
                Ok(_) => None,
                Err(k) => Some(int_error_text(k)),
            },
        }
    }
}

/// The first rejected text of a list.
pub open spec fn first_text_error(ts: Seq<Seq<char>>) -> Option<Seq<char>>
    decreases ts.len(),
{
    if ts.len() == 0 {
        None
    } else {
        match numeric_text_error(ts[0]) {
            Some(m) => Some(m),
            None => first_text_error(ts.drop_first()),
        }
    }
}

/// The first rejected number text of the bounds, in the order they are written.
pub open spec fn bounds_error(b: BoundsModel) -> Option<Seq<char>> {
    match b {
        BoundsModel::Exact(v) => first_text_error(v),
        BoundsModel::AtLeast(a) => numeric_text_error(a),
        BoundsModel::AtMost(a) => numeric_text_error(a),
        BoundsModel::Between(a, c) => match numeric_text_error(a) {
            Some(m) => Some(m),
            None => numeric_text_error(c),
        },
        BoundsModel::Equal(a) => numeric_text_error(a),
    }
}

/// `numeric:` expressions: a title, a colon, bounds (anything after a second colon is
/// ignored).
pub open spec fn numeric_model(rest: Seq<char>) -> Result<FilterModel, ErrorModel> {
    match find_first(rest, ':') {
        None => Err(
            ErrorModel::Message(
                "numeric filter requires title and range (e.g. numeric:RPM:0-5000)"@,
            ),
        ),
        Some(c1) => {
            let after = rest.skip(c1 + 1);
            let range = match find_first(after, ':') {
                Some(c2) => after.take(c2),
                None => after,
            };
            match bounds_error(bounds_model(range)) {
                Some(m) => Err(ErrorModel::Message(m)),
                None => Ok(FilterModel::Numeric(rest.take(c1), bounds_model(range))),
            }
        },
    }
}

/// `severity:` expressions.
pub open spec fn severity_model(rest: Seq<char>) -> Result<FilterModel, ErrorModel> {
    let low = lowercase(rest);
    if low == "info"@ {
        Ok(FilterModel::Severity(Severity::Info))
    } else if low == "warning"@ {
        Ok(FilterModel::Severity(Severity::Warning))
    } else if low == "error"@ {
        Ok(FilterModel::Severity(Severity::Error))
    } else {
        Err(ErrorModel::Message("unknown severity: "@ + rest))
    }
}

/// `flag:` expressions: a title, `=`, and off, on, error or unavailable in any case.
pub open spec fn flag_model(rest: Seq<char>) -> Result<FilterModel, ErrorModel> {
    match find_first(rest, '=') {
        None => Err(ErrorModel::Message("flag filter requires '=' (e.g. flag:title=on)"@)),
        Some(p) => {
            let title = rest.take(p);
            let val = rest.skip(p + 1);
            let low = lowercase(val);
            if low == "off"@ {
                Ok(FilterModel::Flag(title, FlagValue::Off))
            } else if low == "on"@ {
                Ok(FilterModel::Flag(title, FlagValue::On))
            } else if low == "error"@ {
                Ok(FilterModel::Flag(title, FlagValue::Error))
            } else if low == "unavailable"@ {
                Ok(FilterModel::Flag(title, FlagValue::Unavailable))
            } else {
                Err(ErrorModel::Message("unknown flag value: "@ + val))
            }
        },
    }
}

/// A number-valued expression tail.
pub open spec fn number_model(rest: Seq<char>, max: nat, f: spec_fn(nat) -> FilterModel) -> Result<
    FilterModel,
    ErrorModel,
> {
    match dec_then_hex(rest, max) {
        Ok(v) => Ok(f(v)),
        Err(k) => Err(ErrorModel::Message(int_error_text(k))),
    }
}

/// An address-list expression tail.
pub open spec fn addr_model(rest: Seq<char>, dest: bool) -> Result<FilterModel, ErrorModel> {
    match addr_list(split_commas(rest)) {
        Ok(v) => Ok(
            if dest {
                FilterModel::Dests(v)
            } else {
                FilterModel::Sources(v)
            },
        ),
        Err(m) => Err(ErrorModel::Message(m)),
    }
}

/// What a filter expression describes, by its leading type word.
pub open spec fn parse_model(e: Seq<char>) -> Result<FilterModel, ErrorModel> {
    if starts_with(e, "title:"@) {
        Ok(FilterModel::Title(lowercase(e.skip(6))))
    } else if starts_with(e, "pgn:"@) {
        number_model(e.skip(4), 0xFFFF_FFFF, |v: nat| FilterModel::Pgn(v as u32))
    } else if starts_with(e, "severity:"@) {
        severity_model(e.skip(9))
    } else if starts_with(e, "flag:"@) {
        flag_model(e.skip(5))
    } else if starts_with(e, "numeric:"@) {
        numeric_model(e.skip(8))
    } else if starts_with(e, "source:"@) {
        addr_model(e.skip(7), false)
    } else if starts_with(e, "dest:"@) {
        addr_model(e.skip(5), true)
    } else if starts_with(e, "src-name:"@) {
        number_model(
            e.skip(9),
            0xFFFF_FFFF_FFFF_FFFF,
            |v: nat| FilterModel::SourceNames(seq![v as u64]),
        )
    } else if starts_with(e, "dest-name:"@) {
        number_model(
            e.skip(10),
            0xFFFF_FFFF_FFFF_FFFF,
            |v: nat| FilterModel::DestNames(seq![v as u64]),
        )
    } else if starts_with(e, "regex:"@) {
        match regex_compile_error(e.skip(6)) {
            None => Ok(FilterModel::Regex(e.skip(6))),
            Some(m) => Err(ErrorModel::Message(m)),
        }
    } else {
        Err(ErrorModel::Unknown)
    }
}

fn invalid(prefix: &str, tail: &[char]) -> (r: FilterParseError)
    ensures
        r.model() == ErrorModel::Message(prefix@ + tail@),
{
    let mut m = String::new();
    push_str(&mut m, prefix);
    let t = string_from_chars(tail);
    push_str(&mut m, t.as_str());
    FilterParseError::Invalid(m)
}

fn invalid_text(text: &str) -> (r: FilterParseError)
    ensures
        r.model() == ErrorModel::Message(text@),
{
    FilterParseError::Invalid(String::from_str(text))
}

fn skip_chars(s: &[char], k: usize) -> (r: Vec<char>)
    requires
        k <= s@.len(),
    ensures
        r@ == s@.skip(k as int),
{
    let r = slice_vec(s, k, s.len());
    assert(r@ =~= s@.skip(k as int));
    r
}

fn take_chars(s: &[char], k: usize) -> (r: Vec<char>)
    requires
        k <= s@.len(),
    ensures
        r@ == s@.take(k as int),
{
    let r = slice_vec(s, 0, k);
    assert(r@ =~= s@.take(k as int));
    r
}

/// A number in decimal, or else in hexadecimal with an optional prefix.
fn parse_dec_then_hex(s: &[char], max: u64) -> (r: Result<u64, IntErrorKind>)
    ensures
        match r {
            Ok(v) => dec_then_hex(s@, max as nat) == Ok::<nat, IntErrorKind>(v as nat),
            Err(k) => dec_then_hex(s@, max as nat) == Err::<nat, IntErrorKind>(k),
        },
{
    match parse_radix(s, 10, max) {
        Some(v) => Ok(v),
        None => {
            if s.len() >= 2 && s[0] == '0' && (s[1] == 'x' || s[1] == 'X') {
                let h = skip_chars(s, 2);
                parse_radix_checked(&h, 16, max)
            } else {
                parse_radix_checked(s, 16, max)
            }
        },
    }
}

/// One address of an address list.
fn parse_addr(seg: &[char]) -> (r: Result<u8, FilterParseError>)
    ensures
        match r {
            Ok(v) => addr_value(seg@) == Ok::<nat, Seq<char>>(v as nat),
            Err(e) => addr_value(seg@) is Err && e.model() == ErrorModel::Message(
                addr_value(seg@)->Err_0,
            ),
        },
{
    let t = trim_chars(seg);
    match parse_radix(&t, 10, 0xFF) {
        Some(v) => Ok(v as u8),
        None => {
            if t.len() >= 2 && t[0] == '0' && (t[1] == 'x' || t[1] == 'X') {
                let h = skip_chars(&t, 2);
                match parse_radix_checked(&h, 16, 0xFF) {
                    Ok(v) => Ok(v as u8),
                    Err(k) => Err(invalid_text(k.description())),
                }
            } else {
                Err(invalid("invalid address value: ", seg))
            }
        },
    }
}

/// Parses one address: decimal, or hexadecimal after a required `0x`/`0X` (after trimming).
pub fn parse_hex_or_dec_u8(s: &str) -> (r: Result<u8, FilterParseError>)
    ensures
        match r {
            Ok(v) => addr_value(s@) == Ok::<nat, Seq<char>>(v as nat),
            Err(e) => addr_value(s@) is Err && e.model() == ErrorModel::Message(
                addr_value(s@)->Err_0,
            ),
        },
{
    let cs = str_chars(s);
    parse_addr(&cs)
}

proof fn lemma_addr_err_sticks(segs: Seq<Seq<char>>, i: int, j: int)
    requires
        0 <= i <= j <= segs.len(),
        addr_list(segs.take(i)) is Err,
    ensures
        addr_list(segs.take(j)) == addr_list(segs.take(i)),
    decreases j - i,
{
    if i < j {
        lemma_addr_err_sticks(segs, i, j - 1);
        assert(segs.take(j).drop_last() =~= segs.take(j - 1));
    }
}

/// A comma-separated address list.
fn parse_addr_list(rest: &[char]) -> (r: Result<Vec<u8>, FilterParseError>)
    ensures
        match r {
            Ok(v) => addr_list(split_commas(rest@)) == Ok::<Seq<u8>, Seq<char>>(v@),
            Err(e) => addr_list(split_commas(rest@)) is Err && e.model() == ErrorModel::Message(
                addr_list(split_commas(rest@))->Err_0,
            ),
        },
{
    let segs = split_on_commas(rest);
    let ghost ss = split_commas(rest@);
    let mut vals: Vec<u8> = Vec::new();
    let mut i: usize = 0;
    assert(ss.take(0) =~= Seq::<Seq<char>>::empty());
    while i < segs.len()
        invariant
            i <= segs@.len() == ss.len(),
            ss == split_commas(rest@),
            forall|k: int| 0 <= k < segs@.len() ==> #[trigger] segs@[k]@ == ss[k],
            addr_list(ss.take(i as int)) == Ok::<Seq<u8>, Seq<char>>(vals@),
        decreases segs@.len() - i,
    {
        proof {
            assert(ss.take(i + 1).drop_last() =~= ss.take(i as int));
            assert(ss.take(i + 1).last() == segs@[i as int]@);
        }
        match parse_addr(&segs[i]) {
            Ok(v) => {
                vals.push(v);
            },
            Err(e) => {
                proof {
                    lemma_addr_err_sticks(ss, i + 1, ss.len() as int);
                    assert(ss.take(ss.len() as int) =~= ss);
                }
                return Err(e);
            },
        }
        i = i + 1;
    }
    assert(ss.take(ss.len() as int) =~= ss);
    Ok(vals)
}

fn lower_equals(low: &[char], word: &str) -> (r: bool)
    ensures
        r == (low@ == word@),
{
    let w = str_chars(word);
    if low.len() != w.len() {
        return false;
    }
    let ok = starts_with_chars(low, &w);
    assert(ok ==> low@ =~= w@.take(w@.len() as int));
    assert(w@.take(w@.len() as int) =~= w@);
    ok
}

fn lower_chars(s: &[char]) -> (r: Vec<char>)
    ensures
        r@ == lowercase(s@),
{
    let st = string_from_chars(s);
    let low = to_lowercase(st.as_str());
    str_chars(low.as_str())
}

fn parse_severity(rest: &[char]) -> (r: Result<ParsedFilter, FilterParseError>)
    ensures
        outcome_model(r) == severity_model(rest@),
{
    let low = lower_chars(rest);
    let severity = if lower_equals(&low, "info") {
        Severity::Info
    } else if lower_equals(&low, "warning") {
        Severity::Warning
    } else if lower_equals(&low, "error") {
        Severity::Error
    } else {
        return Err(invalid("unknown severity: ", rest));
    };
    Ok(ParsedFilter::Rule(FilterRule::Severity(SeverityFilter { severity })))
}

fn parse_flag(rest: &[char]) -> (r: Result<ParsedFilter, FilterParseError>)
    ensures
        outcome_model(r) == flag_model(rest@),
{
    match find_first_char(rest, '=') {
        None => Err(invalid_text("flag filter requires '=' (e.g. flag:title=on)")),
        Some(eq_pos) => {
            let title_chars = take_chars(rest, eq_pos);
            let val = skip_chars(rest, eq_pos + 1);
            let low = lower_chars(&val);
            let value = if lower_equals(&low, "off") {
                FlagValue::Off
            } else if lower_equals(&low, "on") {
                FlagValue::On
            } else if lower_equals(&low, "error") {
                FlagValue::Error
            } else if lower_equals(&low, "unavailable") {
                FlagValue::Unavailable
            } else {
                return Err(invalid("unknown flag value: ", &val));
            };
            let title = string_from_chars(&title_chars);
            Ok(ParsedFilter::Rule(FilterRule::Flag(FlagFilter { title, value })))
        },
    }
}

fn parse_bounds(range: &[char]) -> (r: NumericBounds)
    ensures
        r.model() == bounds_model(range@),
{
    let ge = str_chars(">=");
    let le = str_chars("<=");
    proof {
        reveal_strlit(">=");
        reveal_strlit("<=");
    }
    match crate::text::find_char(range, ',') {
        Some(_) => {
            let segs = split_on_commas(range);
            let ghost ss = split_commas(range@);
            let mut vals: Vec<String> = Vec::new();
            let mut i: usize = 0;
            while i < segs.len()
                invariant
                    i <= segs@.len() == ss.len(),
                    ss == split_commas(range@),
                    forall|k: int| 0 <= k < segs@.len() ==> #[trigger] segs@[k]@ == ss[k],
                    vals@.len() == i,
                    forall|k: int| 0 <= k < i ==> #[trigger] vals@[k]@ == trim(ss[k]),
                decreases segs@.len() - i,
            {
                let t = trim_chars(&segs[i]);
                vals.push(string_from_chars(&t));
                i = i + 1;
            }
            proof {
                assert(range@.contains(','));
                assert(vals@.map_values(|s: String| s@) =~= ss.map_values(|s: Seq<char>| trim(s)));
            }
            NumericBounds::Exact(vals)
        },
        None => {
            assert(!range@.contains(','));
            if starts_with_chars(range, &ge) {
                NumericBounds::AtLeast(string_from_chars(&skip_chars(range, 2)))
            } else if starts_with_chars(range, &le) {
                NumericBounds::AtMost(string_from_chars(&skip_chars(range, 2)))
            } else {
                match find_first_char(range, '-') {
                    Some(pos) => NumericBounds::Between(
                        string_from_chars(&take_chars(range, pos)),
                        string_from_chars(&skip_chars(range, pos + 1)),
                    ),
                    None => NumericBounds::Equal(string_from_chars(range)),
                }
            }
        },
    }
}

fn all_dec_digits(s: &[char], lo: usize, hi: usize) -> (r: bool)
    requires
        lo <= hi <= s@.len(),
    ensures
        r == dec_digits(s@.subrange(lo as int, hi as int)),
{
    let mut i = lo;
    while i < hi
        invariant
            lo <= i <= hi <= s@.len(),
            forall|j: int| lo <= j < i ==> '0' <= #[trigger] s@[j] <= '9',
        decreases hi - i,
    {
        if !('0' <= s[i] && s[i] <= '9') {
            assert(s@.subrange(lo as int, hi as int)[i - lo] == s@[i as int]);
            return false;
        }
        i = i + 1;
    }
    assert forall|j: int| 0 <= j < hi - lo implies '0' <= #[trigger] s@.subrange(
        lo as int,
        hi as int,
    )[j] <= '9' by {
        assert(s@.subrange(lo as int, hi as int)[j] == s@[lo + j]);
    }
    true
}

fn mantissa_ok(s: &[char]) -> (r: bool)
    ensures
        r == float_mantissa(s@),
{
    match find_first_char(s, '.') {
        Some(p) => {
            assert(s@.take(p as int) =~= s@.subrange(0, p as int));
            assert(s@.skip(p + 1) =~= s@.subrange(p + 1, s@.len() as int));
            s.len() > 1 && all_dec_digits(s, 0, p) && all_dec_digits(s, p + 1, s.len())
        },
        None => {
            assert(s@ =~= s@.subrange(0, s@.len() as int));
            s.len() > 0 && all_dec_digits(s, 0, s.len())
        },
    }
}

fn find_exp_mark(s: &[char]) -> (r: Option<usize>)
    ensures
        match r {
            Some(p) => exp_mark(s@) == Some(p as int) && p < s@.len(),
            None => exp_mark(s@) is None,
        },
{
    let mut i: usize = s.len();
    let mut found: Option<usize> = None;
    // Walk backwards, keeping the last mark seen (the first from the front).
    while i > 0
        invariant
            i <= s@.len(),
            match found {
                Some(p) => exp_mark(s@.skip(i as int)) == Some(p - i) && i <= p < s@.len(),
                None => exp_mark(s@.skip(i as int)) is None,
            },
        decreases i,
    {
        i = i - 1;
        assert(s@.skip(i as int).drop_first() =~= s@.skip(i + 1));
        assert(s@.skip(i as int)[0] == s@[i as int]);
        if s[i] == 'e' || s[i] == 'E' {
            found = Some(i);
        }
    }
    assert(s@.skip(0) =~= s@);
    found
}

fn word_nocase_exec(a: &[char], w: &str) -> (r: bool)
    ensures
        r == word_nocase(a@, w@),
{
    let wc = str_chars(w);
    if a.len() != wc.len() {
        return false;
    }
    let mut i: usize = 0;
    while i < a.len()
        invariant
            i <= a@.len(),
            a@.len() == wc@.len(),
            wc@ == w@,
            forall|j: int|
                0 <= j < i ==> (#[trigger] a@[j] == wc@[j] || (a@[j] as u32) + 32 == (
                wc@[j] as u32)),
        decreases a@.len() - i,
    {
        let x = a[i];
        let y = wc[i];
        if !(x == y || ((y as u32) >= 32 && (x as u32) == (y as u32) - 32)) {
            return false;
        }
        i = i + 1;
    }
    true
}

fn float_text_ok(s: &[char]) -> (r: bool)
    ensures
        r == float_text(s@),
{
    let off: usize = if s.len() > 0 && (s[0] == '+' || s[0] == '-') {
        1
    } else {
        0
    };
    let b = skip_chars(s, off);
    assert(b@ == unsigned_part(s@));
    proof {
        reveal_strlit("inf");
        reveal_strlit("infinity");
        reveal_strlit("nan");
    }
    if word_nocase_exec(&b, "inf") || word_nocase_exec(&b, "infinity") || word_nocase_exec(
        &b,
        "nan",
    ) {
        return true;
    }
    match find_exp_mark(&b) {
        Some(p) => {
            let m = take_chars(&b, p);
            let e = skip_chars(&b, p + 1);
            let off2: usize = if e.len() > 0 && (e[0] == '+' || e[0] == '-') {
                1
            } else {
                0
            };
            let ed = skip_chars(&e, off2);
            assert(ed@ == unsigned_part(e@));
            assert(ed@ =~= ed@.subrange(0, ed@.len() as int));
            mantissa_ok(&m) && ed.len() > 0 && all_dec_digits(&ed, 0, ed.len())
        },
        None => mantissa_ok(&b),
    }
}

/// Why a number text is rejected, if it is.
fn numeric_text_check(s: &[char]) -> (r: Option<String>)
    ensures
        opt_view(r) == numeric_text_error(s@),
{
    if float_text_ok(s) {
        return None;
    }
    if s.len() >= 2 && s[0] == '0' && (s[1] == 'x' || s[1] == 'X') {
        let h = skip_chars(s, 2);
        match parse_radix_checked(&h, 16, 0xFFFF_FFFF_FFFF_FFFF) {
            Ok(_) => None,
            Err(k) => Some(String::from_str(k.description())),
        }
    } else {
        let mut m = String::from_str("invalid numeric value: ");
        let t = string_from_chars(s);
        push_str(&mut m, t.as_str());
        proof {
            reveal_strlit("invalid numeric value: ");
        }
        Some(m)
    }
}

/// The first rejected number text of the bounds, if any.
fn bounds_check(b: &NumericBounds) -> (r: Option<String>)
    ensures
        opt_view(r) == bounds_error(b.model()),
{
    match b {
        NumericBounds::Exact(v) => {
            let ghost views = v@.map_values(|t: String| t@);
            let mut i: usize = 0;
            assert(views.skip(0) =~= views);
            assert(bounds_error(b.model()) == first_text_error(views));
            while i < v.len()
                invariant
                    i <= v@.len(),
                    views == v@.map_values(|t: String| t@),
                    bounds_error(b.model()) == first_text_error(views),
                    first_text_error(views) == first_text_error(views.skip(i as int)),
                decreases v@.len() - i,
            {
                assert(views.skip(i as int).drop_first() =~= views.skip(i + 1));
                assert(views.skip(i as int)[0] == v@[i as int]@);
                let cs = str_chars(v[i].as_str());
                assert(cs@ == views[i as int]);
                match numeric_text_check(&cs) {
                    Some(m) => {
                        assert(first_text_error(views.skip(i as int)) == Some(m@));
                        return Some(m);
                    },
                    None => {},
                }
                i = i + 1;
            }
            assert(views.skip(i as int).len() == 0);
            None
        },
        NumericBounds::AtLeast(a) => numeric_text_check(&str_chars(a.as_str())),
        NumericBounds::AtMost(a) => numeric_text_check(&str_chars(a.as_str())),
        NumericBounds::Between(a, c) => match numeric_text_check(&str_chars(a.as_str())) {
            Some(m) => Some(m),
            None => numeric_text_check(&str_chars(c.as_str())),
        },
        NumericBounds::Equal(a) => numeric_text_check(&str_chars(a.as_str())),
    }
}

fn parse_numeric(rest: &[char]) -> (r: Result<ParsedFilter, FilterParseError>)
    ensures
        outcome_model(r) == numeric_model(rest@),
{
    match find_first_char(rest, ':') {
        None => Err(
            invalid_text("numeric filter requires title and range (e.g. numeric:RPM:0-5000)"),
        ),
        Some(c1) => {
            let title = string_from_chars(&take_chars(rest, c1));
            let after = skip_chars(rest, c1 + 1);
            let range = match find_first_char(&after, ':') {
                Some(c2) => take_chars(&after, c2),
                None => after,
            };
            let bounds = parse_bounds(&range);
            match bounds_check(&bounds) {
                Some(m) => Err(FilterParseError::Invalid(m)),
                None => Ok(ParsedFilter::Numeric(NumericSpec { title, bounds })),
            }
        },
    }
}

/// Parses filter expressions.
pub struct FilterParser;

impl FilterParser {
    /// Parses a filter expression:
    ///   - `title:<substring>`: case-insensitive title match
    ///   - `pgn:<number>`: PGN, decimal or hex
    ///   - `severity:<level>`: info, warning or error
    ///   - `flag:<title>=<value>`: off, on, error or unavailable
    ///   - `numeric:<title>:<range>`: exact N, range N-M, >=N, <=N or a list
    ///   - `regex:<pattern>`: text messages matching a pattern
    ///   - `source:<addr>,...` and `dest:<addr>,...`: addresses, decimal or `0x` hex
    ///   - `src-name:<number>` and `dest-name:<number>`: 64-bit NAMEs
    pub fn parse(expr: &str) -> (r: Result<ParsedFilter, FilterParseError>)
        ensures
            outcome_model(r) == parse_model(expr@),
    {
        let e = str_chars(expr);
        let p_title = str_chars("title:");
        let p_pgn = str_chars("pgn:");
        let p_severity = str_chars("severity:");
        let p_flag = str_chars("flag:");
        let p_numeric = str_chars("numeric:");
        let p_source = str_chars("source:");
        let p_dest = str_chars("dest:");
        let p_src_name = str_chars("src-name:");
        let p_dest_name = str_chars("dest-name:");
        let p_regex = str_chars("regex:");
        proof {
            reveal_strlit("title:");
            reveal_strlit("pgn:");
            reveal_strlit("severity:");
            reveal_strlit("flag:");
            reveal_strlit("numeric:");
            reveal_strlit("source:");
            reveal_strlit("dest:");
            reveal_strlit("src-name:");
            reveal_strlit("dest-name:");
            reveal_strlit("regex:");
        }
        if starts_with_chars(&e, &p_title) {
            let rest = string_from_chars(&skip_chars(&e, 6));
            Ok(ParsedFilter::Rule(FilterRule::Title(TitleFilter::new(rest.as_str()))))
        } else if starts_with_chars(&e, &p_pgn) {
            match parse_dec_then_hex(&skip_chars(&e, 4), 0xFFFF_FFFF) {
                Ok(v) => Ok(ParsedFilter::Rule(FilterRule::Pgn(PgnFilter::new(v as u32)))),
                Err(k) => Err(invalid_text(k.description())),
            }
        } else if starts_with_chars(&e, &p_severity) {
            parse_severity(&skip_chars(&e, 9))
        } else if starts_with_chars(&e, &p_flag) {
            parse_flag(&skip_chars(&e, 5))
        } else if starts_with_chars(&e, &p_numeric) {
            parse_numeric(&skip_chars(&e, 8))
        } else if starts_with_chars(&e, &p_source) {
            match parse_addr_list(&skip_chars(&e, 7)) {
                Ok(v) => Ok(ParsedFilter::Rule(FilterRule::Source(SourceFilter::from_list(v)))),
                Err(err) => Err(err),
            }
        } else if starts_with_chars(&e, &p_dest) {
            match parse_addr_list(&skip_chars(&e, 5)) {
                Ok(v) => Ok(ParsedFilter::Rule(FilterRule::Dest(DestFilter::from_list(v)))),
                Err(err) => Err(err),
            }
        } else if starts_with_chars(&e, &p_src_name) {
            match parse_dec_then_hex(&skip_chars(&e, 9), 0xFFFF_FFFF_FFFF_FFFF) {
                Ok(v) => Ok(ParsedFilter::Rule(FilterRule::SourceName(SourceNameFilter::new(v)))),
                Err(k) => Err(invalid_text(k.description())),
            }
        } else if starts_with_chars(&e, &p_dest_name) {
            match parse_dec_then_hex(&skip_chars(&e, 10), 0xFFFF_FFFF_FFFF_FFFF) {
                Ok(v) => Ok(ParsedFilter::Rule(FilterRule::DestName(DestNameFilter::new(v)))),
                Err(k) => Err(invalid_text(k.description())),
            }
        } else if starts_with_chars(&e, &p_regex) {
            let pattern = string_from_chars(&skip_chars(&e, 6));
            match RegexFilter::new(pattern.as_str()) {
                Ok(f) => Ok(ParsedFilter::Regex(f)),
                Err(err) => Err(err),
            }
        } else {
            Err(FilterParseError::UnknownFilterType)
        }
    }
}

/// `pgn:` followed by the decimal digits of a PGN gives the filter for that PGN: the number
/// is read as decimal before any reading as hexadecimal.
pub proof fn lemma_pgn_decimal(p: u32)
    ensures
        parse_model("pgn:"@ + crate::text::dec_str(p as nat)) == Ok::<FilterModel, ErrorModel>(
            FilterModel::Pgn(p),
        ),
{
    reveal_strlit("pgn:");
    reveal_strlit("title:");
    let d = crate::text::dec_str(p as nat);
    let e = "pgn:"@ + d;
    crate::numparse::lemma_dec_str_value(p as nat);
    assert(crate::numparse::is_digit(d[0], 10));
    assert(crate::numparse::unsigned_digits(d) == d);
    assert(e.take(4) =~= "pgn:"@);
    assert(e.skip(4) =~= d);
    if e.len() >= 6 {
        assert(e.take(6)[0] == 'p');
        assert(!starts_with(e, "title:"@));
    }
    assert(crate::numparse::radix_value(d, 10) == Some(p as nat));
}

} // verus!
