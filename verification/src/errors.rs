use vstd::prelude::*;
use crate::text::starts_with;

verus! {

#[verifier::external_type_specification]
#[verifier::external_body]
pub struct ExIoError(std::io::Error);

/// Every failure the toolkit reports, one variant per category.
#[derive(Debug)]
pub enum CoreError {
    Io(std::io::Error),
    Command(String),
    File(String),
    Guardrail(String),
    Parsing(String),
    System(String),
    Process(String),
    General(String),
    Unexpected,
}

/// The stable category name of each variant.
pub open spec fn category_of(e: &CoreError) -> Seq<char> {
    match e {
        CoreError::Io(_) => "IO"@,
        CoreError::Command(_) => "Command"@,
        CoreError::File(_) => "File"@,
        CoreError::Guardrail(_) => "Guardrail"@,
        CoreError::Parsing(_) => "Parsing"@,
        CoreError::System(_) => "System"@,
        CoreError::Process(_) => "Process"@,
        CoreError::General(_) => "General"@,
        CoreError::Unexpected => "Unexpected"@,
    }
}

impl CoreError {
    /// The category name surfaced to callers as `error_type`.
    pub fn category(&self) -> (r: &'static str)
        ensures
            r@ == category_of(self),
    {
        match self {
            CoreError::Io(_) => "IO",
            CoreError::Command(_) => "Command",
            CoreError::File(_) => "File",
            CoreError::Guardrail(_) => "Guardrail",
            CoreError::Parsing(_) => "Parsing",
            CoreError::System(_) => "System",
            CoreError::Process(_) => "Process",
            CoreError::General(_) => "General",
            CoreError::Unexpected => "Unexpected",
        }
    }
}

/// The message of an I/O error (its `Display`); nothing is stated of it.
#[verifier::external_body]
fn io_error_message(e: &std::io::Error) -> String {
    e.to_string()
}

/// `m` is the human-readable message of `e`: its category's wording, then
/// the detail it carries.
pub open spec fn describes(e: &CoreError, m: Seq<char>) -> bool {
    match e {
        CoreError::Io(_) => starts_with(m, "IO error: "@),
        CoreError::Command(d) => m == "Command execution error: "@ + d@,
        CoreError::File(d) => m == "File operation failed: "@ + d@,
        CoreError::Guardrail(d) => m == "Guardrail violation: "@ + d@,
        CoreError::Parsing(d) => m == "Parsing error: "@ + d@,
        CoreError::System(d) => m == "System error: "@ + d@,
        CoreError::Process(d) => m == "Process execution failed: "@ + d@,
        CoreError::General(d) => m == "Generic error: "@ + d@,
        CoreError::Unexpected => m == "Unexpected error occurred"@,
    }
}

fn prefixed(prefix: &str, detail: &str) -> (r: String)
    ensures
        r@ == prefix@ + detail@,
{
    let mut m = String::from_str(prefix);
    m.append(detail);
    m
}

impl CoreError {
    /// The human-readable message of this error.
    pub fn message(&self) -> (r: String)
        ensures
            describes(self, r@),
    {
        match self {
            CoreError::Io(e) => {
                let r = prefixed("IO error: ", io_error_message(e).as_str());
                proof {
                    reveal_strlit("IO error: ");
                }
                assert(r@.take(10) == "IO error: "@);
                r
            },
            CoreError::Command(d) => prefixed("Command execution error: ", d.as_str()),
            CoreError::File(d) => prefixed("File operation failed: ", d.as_str()),
            CoreError::Guardrail(d) => prefixed("Guardrail violation: ", d.as_str()),
            CoreError::Parsing(d) => prefixed("Parsing error: ", d.as_str()),
            CoreError::System(d) => prefixed("System error: ", d.as_str()),
            CoreError::Process(d) => prefixed("Process execution failed: ", d.as_str()),
            CoreError::General(d) => prefixed("Generic error: ", d.as_str()),
            CoreError::Unexpected => String::from_str("Unexpected error occurred"),
        }
    }
}

pub type CoreResult<T> = Result<T, CoreError>;

} // verus!
