//! Shapes of the fixture-backed conformance scenarios, and where the
//! fixtures live.

use vstd::prelude::*;
use vstd::string::*;
use crate::text::concat2;

verus! {

/// Expected outcome for one fixture scenario. `error_count` is exact, so
/// extra errors do not pass silently.
#[derive(Debug)]
pub struct ScenarioExpectation {
    /// Whether validation should succeed.
    pub valid: bool,
    /// Exact number of validation errors expected.
    pub error_count: usize,
    /// Error paths that must exist in the result.
    pub error_paths: Vec<String>,
}

/// One scenario: the models to load, the instance to validate, the type to
/// validate it against, and the expected outcome.
#[derive(Debug)]
pub struct ScenarioFixture {
    /// Scenario name used in failure messages.
    pub name: String,
    /// Model fixture files to load.
    pub model_files: Vec<String>,
    /// Instance fixture file to validate.
    pub instance_file: String,
    /// Requested target type.
    pub requested_type: String,
    /// Expected validation result.
    pub expect: ScenarioExpectation,
}

/// `dir` joined with `fixtures`, as `Path::join` joins a relative part: a
/// separator is added unless `dir` is empty or already ends with one.
pub open spec fn fixtures_under(dir: Seq<char>) -> Seq<char> {
    if dir.len() == 0 {
        "fixtures"@
    } else if dir.last() == '/' {
        dir + "fixtures"@
    } else {
        dir + "/fixtures"@
    }
}

/// The fixture directory under a crate directory.
pub fn fixture_root(manifest_dir: &str) -> (r: String)
    ensures
        r@ == fixtures_under(manifest_dir@),
{
    let n = manifest_dir.unicode_len();
    if n == 0 {
        String::from_str("fixtures")
    } else if manifest_dir.get_char(n - 1) == '/' {
        concat2(manifest_dir, "fixtures")
    } else {
        concat2(manifest_dir, "/fixtures")
    }
}

} // verus!
