//! The failures that the tool reports to its user.

use vstd::prelude::*;
use vstd::string::*;

verus! {

/// A failure, with the message of the component that raised it.
#[derive(Debug, Clone, PartialEq, Eq)]
pub enum PhrackIssueManagerError {
    Reqwest(String),
    ParseInt(String),
    Io(String),
    Toml(String),
    TomlDe(String),
    GenPdf(String),
    EpubGeneration(String),
    /// A lookup in the environment failed, such as that of the home directory.
    Environment(String),
}

impl PhrackIssueManagerError {
    /// The words that stand before the component's message.
    pub open spec fn prefix(&self) -> Seq<char> {
        match self {
            PhrackIssueManagerError::Reqwest(_) => "HTTP error: "@,
            PhrackIssueManagerError::ParseInt(_) => "Parse int error: "@,
            PhrackIssueManagerError::Io(_) => "IO error: "@,
            PhrackIssueManagerError::Toml(_) => "TOML error: "@,
            PhrackIssueManagerError::TomlDe(_) => "TOML deserialization error: "@,
            PhrackIssueManagerError::GenPdf(_) => "PDF generation error: "@,
            PhrackIssueManagerError::EpubGeneration(_) => "EPUB generation error: "@,
            PhrackIssueManagerError::Environment(_) => "Environment error: "@,
        }
    }

    /// The message of the component that raised the failure.
    pub open spec fn detail(&self) -> Seq<char> {
        match self {
            PhrackIssueManagerError::Reqwest(m) => m@,
            PhrackIssueManagerError::ParseInt(m) => m@,
            PhrackIssueManagerError::Io(m) => m@,
            PhrackIssueManagerError::Toml(m) => m@,
            PhrackIssueManagerError::TomlDe(m) => m@,
            PhrackIssueManagerError::GenPdf(m) => m@,
            PhrackIssueManagerError::EpubGeneration(m) => m@,
            PhrackIssueManagerError::Environment(m) => m@,
        }
    }

    /// The line shown to the user.
    pub fn message(&self) -> (text: String)
        ensures
            text@ == self.prefix() + self.detail(),
    {
        let (prefix, detail) = match self {
            PhrackIssueManagerError::Reqwest(m) => ("HTTP error: ", m),
            PhrackIssueManagerError::ParseInt(m) => ("Parse int error: ", m),
            PhrackIssueManagerError::Io(m) => ("IO error: ", m),
            PhrackIssueManagerError::Toml(m) => ("TOML error: ", m),
            PhrackIssueManagerError::TomlDe(m) => ("TOML deserialization error: ", m),
            PhrackIssueManagerError::GenPdf(m) => ("PDF generation error: ", m),
            PhrackIssueManagerError::EpubGeneration(m) => ("EPUB generation error: ", m),
            PhrackIssueManagerError::Environment(m) => ("Environment error: ", m),
        };
        let mut text = String::from_str(prefix);
        text.append(detail.as_str());
        text
    }
}

} // verus!
