//! Run options: where the track goes, whether to overwrite it, how to order
//! the records, and which files to read.

use vstd::prelude::*;
use vstd::utf8::{encode_utf8, encode_utf8_decode_utf8};

verus! {

#[verifier::external_type_specification]
#[verifier::external_body]
pub struct ExPathBuf(std::path::PathBuf);

/// Options of one run.
#[derive(Debug)]
pub struct Opts {
    /// Output file path.
    pub output: std::path::PathBuf,
    /// Overwrite the output file if it exists.
    pub force: bool,
    /// How the records are ordered.
    pub sort: SortingMode,
    /// Input file path or glob pattern.
    pub input: String,
}

/// How the records of a run are ordered before they are written.
#[derive(Debug, Copy, Clone, PartialEq, Eq, Structural, PartialOrd, Ord, Hash)]
pub enum SortingMode {
    /// By the name of the file each record came from.
    File,
    /// By the record's timestamp.
    GpsDate,
    /// In the order the records were read.
    Unsorted,
}

impl Default for SortingMode {
    fn default() -> (r: SortingMode)
        ensures
            r == SortingMode::GpsDate,
    {
        SortingMode::GpsDate
    }
}

/// What `str::to_lowercase` gives for `s`.
pub uninterp spec fn lower_of(s: Seq<char>) -> Seq<char>;

/// Relies on `str::to_lowercase`: its result depends on the characters alone.
#[verifier::external_body]
fn to_lowercase(s: &str) -> (r: String)
    ensures
        r@ == lower_of(s@),
{
    s.to_lowercase()
}

/// The mode that `t` names, if any.
pub open spec fn mode_named(t: Seq<char>) -> Option<SortingMode> {
    if t == "file"@ {
        Some(SortingMode::File)
    } else if t == "gps"@ {
        Some(SortingMode::GpsDate)
    } else if t == "none"@ {
        Some(SortingMode::Unsorted)
    } else {
        None
    }
}

/// The message for a name that is not a mode.
pub open spec fn unsupported_mode_message() -> Seq<char> {
    "Unsupported sorting mode"@
}

/// Whether two texts are equal, compared byte by byte.
fn same_text(a: &str, b: &str) -> (r: bool)
    ensures
        r == (a@ == b@),
{
    let x = a.as_bytes();
    let y = b.as_bytes();
    proof {
        encode_utf8_decode_utf8(a@);
        encode_utf8_decode_utf8(b@);
    }
    if x.len() != y.len() {
        return false;
    }
    let mut i: usize = 0;
    while i < x.len()
        invariant
            i <= x@.len(),
            x@.len() == y@.len(),
            x@ == encode_utf8(a@),
            y@ == encode_utf8(b@),
            forall|k: int| 0 <= k < i ==> x@[k] == y@[k],
        decreases x@.len() - i,
    {
        if x[i] != y[i] {
            assert(x@[i as int] != y@[i as int]);
            return false;
        }
        i += 1;
    }
    assert(x@ =~= y@);
    true
}

impl SortingMode {
    /// The name of the mode: `file`, `gps` or `none`.
    pub fn as_str(&self) -> (r: &'static str)
        ensures
            r@ == (match self {
                SortingMode::File => "file"@,
                SortingMode::GpsDate => "gps"@,
                SortingMode::Unsorted => "none"@,
            }),
    {
        match self {
            SortingMode::File => "file",
            SortingMode::GpsDate => "gps",
            SortingMode::Unsorted => "none",
        }
    }

    /// The mode that the lowercase text `s` names, or the message for an
    /// unsupported one.
    pub fn from_lowercase(s: &str) -> (r: Result<SortingMode, String>)
        ensures
            mode_named(s@) matches Some(m) ==> r == Ok::<SortingMode, String>(m),
            mode_named(s@) is None ==> (r matches Err(msg) && msg@ == unsupported_mode_message()),
    {
        if same_text(s, "file") {
            Ok(SortingMode::File)
        } else if same_text(s, "gps") {
            Ok(SortingMode::GpsDate)
        } else if same_text(s, "none") {
            Ok(SortingMode::Unsorted)
        } else {
            Err("Unsupported sorting mode".to_owned())
        }
    }

    /// The mode named by `s` in any case: `file`, `gps` or `none`.
    pub fn parse(s: &str) -> (r: Result<SortingMode, String>)
        ensures
            mode_named(lower_of(s@)) matches Some(m) ==> r == Ok::<SortingMode, String>(m),
            mode_named(lower_of(s@)) is None ==> (r matches Err(msg) && msg@
                == unsupported_mode_message()),
    {
        let lower = to_lowercase(s);
        Self::from_lowercase(lower.as_str())
    }
}

impl std::str::FromStr for SortingMode {
    type Err = String;

    fn from_str(s: &str) -> Result<SortingMode, String> {
        SortingMode::parse(s)
    }
}

} // verus!
