//! What a run is told: the crews, the input and the seed.

use std::path::PathBuf;
use vstd::prelude::*;

verus! {

/// `std::path::PathBuf`, the path of a file. Its contents are not visible
/// to the verifier.
#[verifier::external_type_specification]
#[verifier::external_body]
pub struct ExPathBuf(PathBuf);

/// The settings of a run.
pub struct Args {
    /// The number of cleaning crews employed by the hotel.
    pub cleaning_crews: i32,
    /// Whether more crews are hired to meet demand.
    pub hire_crews: bool,
    /// The input file.
    pub json_path: PathBuf,
    /// The seed that makes the arrivals of the guests repeatable. An empty
    /// seed counts as none.
    pub seed: Option<String>,
}

} // verus!
