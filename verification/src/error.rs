use vstd::prelude::*;

use crate::model::{language_name, LanguageId};

verus! {

#[verifier::external_type_specification]
#[verifier::external_body]
pub struct ExJsonError(serde_json::Error);

/// The result of a fallible operation of the library.
pub type Result<T> = std::result::Result<T, SemantitError>;

/// Why a source file could not be turned into a semantic index.
#[derive(Debug)]
pub enum ParseError {
    UnsupportedLanguage { path: String },
    ParserFailure { language: LanguageId, path: String, message: String },
    InvalidSource { path: String, message: String },
}

/// Why the registry could not serve a request.
#[derive(Debug)]
pub enum RegistryError {
    NoParserForPath { path: String },
}

/// Any error of the library.
#[derive(Debug)]
pub enum SemantitError {
    Parse(ParseError),
    Registry(RegistryError),
    Json(serde_json::Error),
}

/// The message of a parse error.
pub open spec fn parse_error_text(e: ParseError) -> Seq<char> {
    match e {
        ParseError::UnsupportedLanguage { path } => "unsupported language for `"@ + path@ + "`"@,
        ParseError::ParserFailure { language, path, message } => language_name(language)
            + " parser failed for `"@ + path@ + "`: "@ + message@,
        ParseError::InvalidSource { path, message } => "could not build semantic index for `"@
            + path@ + "`: "@ + message@,
    }
}

impl ParseError {
    /// The error's message.
    pub fn message(&self) -> (r: String)
        ensures
            r@ == parse_error_text(*self),
    {
        let mut s = String::new();
        match self {
            ParseError::UnsupportedLanguage { path } => {
                s.append("unsupported language for `");
                s.append(path.as_str());
                s.append("`");
            },
            ParseError::ParserFailure { language, path, message } => {
                s.append(language.as_str());
                s.append(" parser failed for `");
                s.append(path.as_str());
                s.append("`: ");
                s.append(message.as_str());
            },
            ParseError::InvalidSource { path, message } => {
                s.append("could not build semantic index for `");
                s.append(path.as_str());
                s.append("`: ");
                s.append(message.as_str());
            },
        }
        assert(s@ =~= parse_error_text(*self));
        s
    }
}

/// The message of a registry error.
pub open spec fn registry_error_text(e: RegistryError) -> Seq<char> {
    match e {
        RegistryError::NoParserForPath { path } => "no parser registered for `"@ + path@ + "`"@,
    }
}

impl RegistryError {
    /// The error's message.
    pub fn message(&self) -> (r: String)
        ensures
            r@ == registry_error_text(*self),
    {
        let mut s = String::new();
        match self {
            RegistryError::NoParserForPath { path } => {
                s.append("no parser registered for `");
                s.append(path.as_str());
                s.append("`");
            },
        }
        assert(s@ =~= registry_error_text(*self));
        s
    }
}

impl From<ParseError> for SemantitError {
    fn from(e: ParseError) -> (r: SemantitError) {
        SemantitError::Parse(e)
    }
}

impl vstd::std_specs::convert::FromSpecImpl<ParseError> for SemantitError {
    open spec fn obeys_from_spec() -> bool {
        true
    }

    open spec fn from_spec(e: ParseError) -> SemantitError {
        SemantitError::Parse(e)
    }
}

impl From<RegistryError> for SemantitError {
    fn from(e: RegistryError) -> (r: SemantitError) {
        SemantitError::Registry(e)
    }
}

impl vstd::std_specs::convert::FromSpecImpl<RegistryError> for SemantitError {
    open spec fn obeys_from_spec() -> bool {
        true
    }

    open spec fn from_spec(e: RegistryError) -> SemantitError {
        SemantitError::Registry(e)
    }
}

impl From<serde_json::Error> for SemantitError {
    fn from(e: serde_json::Error) -> (r: SemantitError) {
        SemantitError::Json(e)
    }
}

impl vstd::std_specs::convert::FromSpecImpl<serde_json::Error> for SemantitError {
    open spec fn obeys_from_spec() -> bool {
        true
    }

    open spec fn from_spec(e: serde_json::Error) -> SemantitError {
        SemantitError::Json(e)
    }
}

} // verus!
