use vstd::prelude::*;
use crate::path::{parent, parent_of};
use crate::text::copy_str;

verus! {

/// A JSON value of a test case file, as far as the tests read it: a JSON string, or any
/// other JSON value held as the compact JSON text that serde_json prints for it.
pub enum JsonValue {
    Text(String),
    Encoded(String),
}

impl JsonValue {
    /// The text that stands for the value: the string itself, or the JSON text.
    pub open spec fn text(&self) -> Seq<char> {
        match self {
            JsonValue::Text(s) => s@,
            JsonValue::Encoded(s) => s@,
        }
    }

    /// The text that stands for the value.
    pub fn to_text(&self) -> (r: String)
        ensures
            r@ == self.text(),
    {
        match self {
            JsonValue::Text(s) => s.clone(),
            JsonValue::Encoded(s) => s.clone(),
        }
    }
}

/// One test case of a test case file.
pub struct TestCase {
    /// The name shown when the case runs.
    pub name: String,
    /// The values fed to the program's standard input, one per line.
    pub inputs: Vec<JsonValue>,
    /// What the program's output must contain.
    pub expect: JsonValue,
    /// How the result is shown: `watch`, `only-last` or `none`.
    pub output_display: String,
    /// Run only the cases that have this set.
    pub only: bool,
    /// Do not run this case.
    pub skip: bool,
}

/// The answer of the test case file validator.
#[allow(inconsistent_fields)]
pub enum BunResponse {
    Success { message: Option<()>, count: usize, data: Vec<TestCase> },
    Error { message: String, count: Option<()>, data: Option<()> },
}

/// The directory the validator script runs in: the parent of its path.
pub fn validator_dir(ts_path: &str) -> (r: Result<String, String>)
    ensures
        match r {
            Ok(d) => parent(ts_path@) == Some(d@),
            Err(m) => parent(ts_path@) is None && m@ == "ts_path の親ディレクトリが取得できません。"@,
        },
{
    match parent_of(ts_path) {
        Some(d) => Ok(d),
        None => Err(copy_str("ts_path の親ディレクトリが取得できません。")),
    }
}

/// The message for validator output that is not a validator answer.
pub fn parse_failure_message(stdout: &str) -> (r: String)
    ensures
        r@ == "パース失敗。生出力: "@ + stdout@,
{
    let mut r = copy_str("パース失敗。生出力: ");
    r.append(stdout);
    r
}

} // verus!
