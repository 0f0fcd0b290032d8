use vstd::prelude::*;

verus! {

/// A required field of a lockfile entry.
#[derive(Clone, Copy, Debug, PartialEq, Eq, Structural)]
pub enum Field {
    Name,
    Version,
}

/// Why a lockfile or a patch could not be parsed. Line numbers start at 1;
/// entry and hunk indices start at 0.
#[derive(Clone, Debug, PartialEq, Eq)]
pub enum ParseError {
    /// The text does not follow the grammar; `fragment` is the offending line.
    Malformed { fragment: String, line: usize },
    /// An entry lacks its name or its version.
    MissingField { field: Field, entry: usize },
    /// A hunk's lines do not add up to the counts in its header.
    HunkLineCountMismatch { hunk: usize, expected: u64, actual: u64 },
    /// A line inside a hunk starts with a character that marks no kind of line.
    UnexpectedMarker { marker: char, line: usize },
}

/// The mathematical value of a `ParseError`.
pub enum ParseErrorModel {
    Malformed { fragment: Seq<char>, line: int },
    MissingField { field: Field, entry: int },
    HunkLineCountMismatch { hunk: int, expected: int, actual: int },
    UnexpectedMarker { marker: char, line: int },
}

impl View for ParseError {
    type V = ParseErrorModel;

    open spec fn view(&self) -> ParseErrorModel {
        match self {
            ParseError::Malformed { fragment, line } => ParseErrorModel::Malformed {
                fragment: fragment@,
                line: *line as int,
            },
            ParseError::MissingField { field, entry } => ParseErrorModel::MissingField {
                field: *field,
                entry: *entry as int,
            },
            ParseError::HunkLineCountMismatch { hunk, expected, actual } =>
                ParseErrorModel::HunkLineCountMismatch {
                hunk: *hunk as int,
                expected: *expected as int,
                actual: *actual as int,
            },
            ParseError::UnexpectedMarker { marker, line } => ParseErrorModel::UnexpectedMarker {
                marker: *marker,
                line: *line as int,
            },
        }
    }
}

} // verus!
