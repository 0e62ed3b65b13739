//! Run configuration shared by the command-line and graphical front ends.
use vstd::prelude::*;

verus! {

/// Input source type selection.
#[derive(Debug, Clone, Copy, PartialEq, Eq, Structural)]
pub enum SourceType {
    Socketcan,
    Candump,
}

/// Output detail level.
#[derive(Debug, Clone, Copy, PartialEq, Eq, Structural)]
pub enum DetailLevel {
    Raw,
    Assembled,
    Both,
}

/// Output format selection.
#[derive(Debug, Clone, Copy, PartialEq, Eq, Structural)]
pub enum OutputFormat {
    Console,
    Json,
    Csv,
    Condensed,
    FullCondensed,
}

/// Panel layout orientation.
#[derive(Debug, Clone, Copy, PartialEq, Eq, Structural)]
pub enum LayoutOrientation {
    Horizontal,
    Vertical,
}

/// Configuration shared by the command-line and graphical front ends.
#[derive(Debug, Clone)]
pub struct SharedConfig {
    /// SocketCAN interface for live mode (e.g. can0).
    pub interface: Option<String>,
    /// Input source type.
    pub source: SourceType,
    /// Path to a candump-style input file.
    pub input_file: Option<String>,
    /// Path to a YAML file defining PGN interpretations.
    pub config: Option<String>,
    /// Output detail level.
    pub detail_level: DetailLevel,
    /// Emit partially reassembled transport-protocol messages on timeout.
    pub force_output_partial_tp: bool,
    /// Extra debugging information.
    pub debug: bool,
    /// Proprietary DDI definitions to use, by name, in the order given.
    pub use_proprietary_ddi_definitions: Vec<String>,
}

/// Command-line configuration: the shared options, the filter expressions and the output
/// format.
#[derive(Debug, Clone)]
pub struct Cli {
    pub shared: SharedConfig,
    /// Filter expressions, applied in order.
    pub filter: Vec<String>,
    /// Output format.
    pub output_format: OutputFormat,
}

/// Graphical front-end configuration: the shared options and the layout.
#[derive(Debug, Clone)]
pub struct TuiCli {
    pub shared: SharedConfig,
    pub layout: LayoutOrientation,
}

/// The proprietary DDI definition sets that exist: name and description.
pub fn available_proprietary_definitions() -> (r: Vec<(&'static str, &'static str)>)
    ensures
        r@.len() == 1,
        r@[0].0@ == "canot"@,
        r@[0].1@ == "CANoT proprietary DDI definitions"@,
{
    vec![("canot", "CANoT proprietary DDI definitions")]
}

/// The name is one of the available proprietary DDI definition sets.
pub open spec fn known_definition(name: Seq<char>) -> bool {
    name == "canot"@
}

/// The requested proprietary DDI definition names, in order, when all are known; otherwise
/// the position of the first unknown one.
pub fn validate_proprietary_definitions(names: &[String]) -> (r: Result<Vec<String>, usize>)
    ensures
        match r {
            Ok(v) => (forall|i: int| 0 <= i < names@.len() ==> known_definition(#[trigger] names@[i]@))
                && v@.len() == names@.len() && forall|i: int|
                0 <= i < names@.len() ==> #[trigger] v@[i]@ == names@[i]@,
            Err(k) => k < names@.len() && !known_definition(names@[k as int]@) && forall|i: int|
                0 <= i < k ==> known_definition(#[trigger] names@[i]@),
        },
{
    let available = crate::text::str_chars("canot");
    let mut valid: Vec<String> = Vec::new();
    let mut i: usize = 0;
    while i < names.len()
        invariant
            i <= names@.len(),
            available@ == "canot"@,
            valid@.len() == i,
            forall|k: int| 0 <= k < i ==> known_definition(#[trigger] names@[k]@),
            forall|k: int| 0 <= k < i ==> #[trigger] valid@[k]@ == names@[k]@,
        decreases names@.len() - i,
    {
        let cs = crate::text::str_chars(names[i].as_str());
        let same = cs.len() == available.len() && crate::text::starts_with_chars(&cs, &available);
        proof {
            assert(cs@ == names@[i as int]@);
            assert(available@.take(available@.len() as int) =~= available@);
            if same {
                assert(cs@ =~= available@.take(available@.len() as int));
            }
            if cs@ == available@ {
                assert(cs@.take(available@.len() as int) =~= available@);
            }
        }
        if !same {
            return Err(i);
        }
        valid.push(names[i].clone());
        i = i + 1;
    }
    Ok(valid)
}

} // verus!
