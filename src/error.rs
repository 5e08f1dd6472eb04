use vstd::prelude::*;

verus! {

/// Why the command line could not be turned into a configuration.
#[derive(Debug, Clone, PartialEq, Eq)]
pub enum CargoPlayError {
    /// The edition text is none of `2015`, `2018`, `2021`.
    InvalidEdition(String),
    /// More than one of `--mode`, `--test`, `--check`, `--expand` was given.
    ConflictingMode,
    /// A source path could not be resolved to an absolute path.
    UnresolvablePath(String),
    /// A resolved source path is not an existing regular file.
    MissingInputFile(String),
    /// A flag that the tool does not know.
    UnrecognizedArgument(String),
    /// A flag that takes a value came last, with no value after it.
    MissingValue(String),
    /// No source file was named and `--stdin` was not given.
    NoInputProvided,
}

/// The mathematical value of a [`CargoPlayError`]: its texts as character sequences.
pub enum ErrorModel {
    InvalidEdition(Seq<char>),
    ConflictingMode,
    UnresolvablePath(Seq<char>),
    MissingInputFile(Seq<char>),
    UnrecognizedArgument(Seq<char>),
    MissingValue(Seq<char>),
    NoInputProvided,
}

impl View for CargoPlayError {
    type V = ErrorModel;

    open spec fn view(&self) -> ErrorModel {
        match self {
            CargoPlayError::InvalidEdition(s) => ErrorModel::InvalidEdition(s@),
            CargoPlayError::ConflictingMode => ErrorModel::ConflictingMode,
            CargoPlayError::UnresolvablePath(s) => ErrorModel::UnresolvablePath(s@),
            CargoPlayError::MissingInputFile(s) => ErrorModel::MissingInputFile(s@),
            CargoPlayError::UnrecognizedArgument(s) => ErrorModel::UnrecognizedArgument(s@),
            CargoPlayError::MissingValue(s) => ErrorModel::MissingValue(s@),
            CargoPlayError::NoInputProvided => ErrorModel::NoInputProvided,
        }
    }
}

/// A result whose error is replaced by its model.
pub open spec fn with_error_model<T>(r: Result<T, CargoPlayError>) -> Result<T, ErrorModel> {
    match r {
        Ok(v) => Ok(v),
        Err(e) => Err(e@),
    }
}

/// The description of an error for the user.
pub open spec fn message_of(e: ErrorModel) -> Seq<char> {
    match e {
        ErrorModel::InvalidEdition(s) => "invalid edition: "@ + s,
        ErrorModel::ConflictingMode => "only one of --mode, --test, --check and --expand can be given"@,
        ErrorModel::UnresolvablePath(s) => "cannot resolve path: "@ + s,
        ErrorModel::MissingInputFile(s) => "input file does not exist: "@ + s,
        ErrorModel::UnrecognizedArgument(s) => "unrecognized argument: "@ + s,
        ErrorModel::MissingValue(s) => "a value is required for "@ + s,
        ErrorModel::NoInputProvided => "no input file given and --stdin not set"@,
    }
}

impl CargoPlayError {
    /// A one-line description for the user.
    pub fn message(&self) -> (r: String)
        ensures
            r@ == message_of(self@),
    {
        match self {
            CargoPlayError::InvalidEdition(s) => String::from_str("invalid edition: ").concat(
                s.as_str(),
            ),
            CargoPlayError::ConflictingMode => String::from_str(
                "only one of --mode, --test, --check and --expand can be given",
            ),
            CargoPlayError::UnresolvablePath(s) => String::from_str("cannot resolve path: ").concat(
                s.as_str(),
            ),
            CargoPlayError::MissingInputFile(s) => String::from_str(
                "input file does not exist: ",
            ).concat(s.as_str()),
            CargoPlayError::UnrecognizedArgument(s) => String::from_str(
                "unrecognized argument: ",
            ).concat(s.as_str()),
            CargoPlayError::MissingValue(s) => String::from_str("a value is required for ").concat(
                s.as_str(),
            ),
            CargoPlayError::NoInputProvided => String::from_str(
                "no input file given and --stdin not set",
            ),
        }
    }
}

} // verus!
