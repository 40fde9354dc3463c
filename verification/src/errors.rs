//! Errors of the parsers, and the names shown for parsers and file
//! actions in messages.
use vstd::prelude::*;

verus! {

/// Which field of a record was missing from its encoding.
#[derive(Debug, PartialEq, Eq, Clone, Copy)]
pub enum Field {
    /// `Range.upper`
    Upper,
    /// `DepVer.range`
    Range,
    /// `Specific.version`
    Version,
    /// `PreBuilt.configs`
    Configs,
    /// `ProcessedCompilable.build`
    Build,
    /// `ProcessedCompilable.install`
    Install,
    /// `ProcessedCompilable.uninstall`
    Uninstall,
    /// `ProcessedCompilable.purge` / `InstalledCompilable.purge`
    Purge,
}

/// Why decoding a textual or binary encoding failed.
#[derive(Debug, PartialEq, Eq)]
pub enum ParseError {
    /// The major component is not a number; holds the offending text.
    MajorNotNumber(String),
    /// The minor component is not a number; holds the offending text.
    MinorNotNumber(String),
    /// The patch component is not a number; holds the text that the
    /// message shows, which is the minor component's.
    PatchNotNumber(String),
    /// More than three dot-separated components.
    TooManySegments,
    /// The leading kind character is missing (empty input).
    MissingIdentifier,
    /// The leading kind character does not name a variant; holds its low byte.
    InvalidIdentifier(u8),
    /// A separator-delimited field is missing.
    MissingField(Field),
    /// `OriginKind` bytes: empty input.
    MissingEnumIdentifier,
    /// `OriginKind` bytes: no newline after the first text field.
    MissingNewline,
    /// `OriginKind` bytes: the suite length byte is missing.
    MissingSuiteLength,
    /// `OriginKind` bytes: fewer bytes than the suite length says.
    MissingSuiteData,
    /// `OriginKind` bytes: the component length byte is missing.
    MissingComponentLength,
    /// `OriginKind` bytes: fewer bytes than the component length says.
    MissingComponentData,
    /// `OriginKind` bytes: the first byte names no variant.
    UnknownIdentifier(u8),
}

/// The abstract value of a [`ParseError`]: texts as character sequences.
pub enum ParseErrorView {
    MajorNotNumber(Seq<char>),
    MinorNotNumber(Seq<char>),
    PatchNotNumber(Seq<char>),
    TooManySegments,
    MissingIdentifier,
    InvalidIdentifier(u8),
    MissingField(Field),
    MissingEnumIdentifier,
    MissingNewline,
    MissingSuiteLength,
    MissingSuiteData,
    MissingComponentLength,
    MissingComponentData,
    UnknownIdentifier(u8),
}

impl View for ParseError {
    type V = ParseErrorView;

    open spec fn view(&self) -> ParseErrorView {
        match self {
            ParseError::MajorNotNumber(s) => ParseErrorView::MajorNotNumber(s@),
            ParseError::MinorNotNumber(s) => ParseErrorView::MinorNotNumber(s@),
            ParseError::PatchNotNumber(s) => ParseErrorView::PatchNotNumber(s@),
            ParseError::TooManySegments => ParseErrorView::TooManySegments,
            ParseError::MissingIdentifier => ParseErrorView::MissingIdentifier,
            ParseError::InvalidIdentifier(b) => ParseErrorView::InvalidIdentifier(*b),
            ParseError::MissingField(f) => ParseErrorView::MissingField(*f),
            ParseError::MissingEnumIdentifier => ParseErrorView::MissingEnumIdentifier,
            ParseError::MissingNewline => ParseErrorView::MissingNewline,
            ParseError::MissingSuiteLength => ParseErrorView::MissingSuiteLength,
            ParseError::MissingSuiteData => ParseErrorView::MissingSuiteData,
            ParseError::MissingComponentLength => ParseErrorView::MissingComponentLength,
            ParseError::MissingComponentData => ParseErrorView::MissingComponentData,
            ParseError::UnknownIdentifier(b) => ParseErrorView::UnknownIdentifier(*b),
        }
    }
}

/// The file-system actions that error reports name.
#[derive(Debug, PartialEq, Eq, Clone, Copy)]
pub enum IOAction {
    TermRead,
    TermStatus,
    CreateFile,
    OpenFile,
    ReadFile,
    WriteFile,
    CorruptedFile,
    RemoveFile,
    CreateDir,
    ReadDir,
    AssertPath,
}

impl IOAction {
    /// The phrase used for the action in error reports.
    pub fn describe(&self) -> (s: &'static str)
        ensures
            s@ == io_action_text(*self),
    {
        match self {
            IOAction::TermRead => "read input from terminal",
            IOAction::TermStatus => "read process exit status",
            IOAction::CreateFile => "create file",
            IOAction::OpenFile => "open file",
            IOAction::ReadFile => "read file",
            IOAction::CorruptedFile => "read corrupted file",
            IOAction::WriteFile => "write to file",
            IOAction::RemoveFile => "remove file",
            IOAction::CreateDir => "create directory",
            IOAction::ReadDir => "read directory",
            IOAction::AssertPath => "assert path",
        }
    }
}

/// The phrase of each action.
pub open spec fn io_action_text(a: IOAction) -> Seq<char> {
    match a {
        IOAction::TermRead => "read input from terminal"@,
        IOAction::TermStatus => "read process exit status"@,
        IOAction::CreateFile => "create file"@,
        IOAction::OpenFile => "open file"@,
        IOAction::ReadFile => "read file"@,
        IOAction::CorruptedFile => "read corrupted file"@,
        IOAction::WriteFile => "write to file"@,
        IOAction::RemoveFile => "remove file"@,
        IOAction::CreateDir => "create directory"@,
        IOAction::ReadDir => "read directory"@,
        IOAction::AssertPath => "assert path"@,
    }
}

/// The parsers of the encodings, as error reports name them.
#[derive(Debug, PartialEq, Eq, Clone, Copy)]
pub enum Parsers {
    DependKind,
    DepVer,
    InstalledCompilable,
    InstalledInstallKind,
    MetaDataKind,
    OriginKind,
    PreBuilt,
    ProcessedCompilable,
    ProcessedInstallKind,
    Range,
    Specific,
    Version,
    VerReq,
}

impl Parsers {
    /// The parser's name, as error reports show it.
    pub fn name(&self) -> (s: &'static str)
        ensures
            s@ == parsers_text(*self),
    {
        match self {
            Parsers::DependKind => "DependKind",
            Parsers::DepVer => "DepVer",
            Parsers::InstalledCompilable => "InstalledCompilable",
            Parsers::InstalledInstallKind => "InstalledInstallKind",
            Parsers::MetaDataKind => "MetaDataKind",
            Parsers::OriginKind => "OriginKind",
            Parsers::PreBuilt => "PreBuilt",
            Parsers::ProcessedCompilable => "ProcessedCompilable",
            Parsers::ProcessedInstallKind => "ProcessedInstallKind",
            Parsers::Range => "Range",
            Parsers::Specific => "Specific",
            Parsers::Version => "Version",
            Parsers::VerReq => "VerReq",
        }
    }
}

/// The name of each parser.
pub open spec fn parsers_text(p: Parsers) -> Seq<char> {
    match p {
        Parsers::DependKind => "DependKind"@,
        Parsers::DepVer => "DepVer"@,
        Parsers::InstalledCompilable => "InstalledCompilable"@,
        Parsers::InstalledInstallKind => "InstalledInstallKind"@,
        Parsers::MetaDataKind => "MetaDataKind"@,
        Parsers::OriginKind => "OriginKind"@,
        Parsers::PreBuilt => "PreBuilt"@,
        Parsers::ProcessedCompilable => "ProcessedCompilable"@,
        Parsers::ProcessedInstallKind => "ProcessedInstallKind"@,
        Parsers::Range => "Range"@,
        Parsers::Specific => "Specific"@,
        Parsers::Version => "Version"@,
        Parsers::VerReq => "VerReq"@,
    }
}

} // verus!
