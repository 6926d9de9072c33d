use vstd::prelude::*;
use vstd::string::StringExecFns;

verus! {

/// Errors occurring during config loading.
#[derive(Debug, Clone)]
pub enum Error {
    /// Reading a file failed; `not_found` distinguishes a missing file from
    /// any other I/O failure (callers choose log severity and fallback by it).
    Io { not_found: bool, message: String },
    /// Invalid canonical (TOML) text.
    Toml(String),
    /// Invalid legacy (YAML) text.
    Yaml(String),
    /// The pruned legacy document could not be re-emitted as a canonical table.
    TomlSe(String),
    /// The `import` key or one of its elements has the wrong type.
    ImportDirective(String),
    /// The configuration import depth was exhausted.
    RecursionLimit,
    /// The merged tree failed typed validation.
    Validation(String),
}

impl Error {
    /// Whether the error is a file-not-found read failure.
    pub fn is_not_found(&self) -> (r: bool)
        ensures
            r == (self matches Error::Io { not_found: true, .. }),
    {
        match self {
            Error::Io { not_found, .. } => *not_found,
            _ => false,
        }
    }

    /// A human-readable description of the error.
    pub fn message(&self) -> (r: String) {
        match self {
            Error::Io { message, .. } => String::from_str("error reading config file: ").concat(
                message.as_str(),
            ),
            Error::Toml(m) => String::from_str("config error: ").concat(m.as_str()),
            Error::Yaml(m) => String::from_str("config error: ").concat(m.as_str()),
            Error::TomlSe(m) => String::from_str("yaml conversion error: ").concat(m.as_str()),
            Error::ImportDirective(m) => m.clone(),
            Error::RecursionLimit => String::from_str(
                "exceeded maximum configuration import depth",
            ),
            Error::Validation(m) => String::from_str("config error: ").concat(m.as_str()),
        }
    }
}

/// How serious a recorded diagnostic is.
#[derive(Debug, Clone, Copy, PartialEq, Eq, Structural)]
pub enum Severity {
    Info,
    Warning,
    Error,
}

/// A diagnostic recorded while loading, for the caller's log sink.
#[derive(Debug, Clone)]
pub struct Diagnostic {
    pub severity: Severity,
    pub message: String,
}

} // verus!
