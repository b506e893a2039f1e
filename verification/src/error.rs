//! Error types.

use crate::text::{concat2, concat3, concat4, concat5, concat6};
use vstd::prelude::*;

verus! {

/// Crate-wide result alias.
pub type Result<T> = core::result::Result<T, Error>;

/// Errors produced by the core, adapter, CLI, and GPU layers.
///
/// Failures of an outside component are carried as the text it reported.
#[derive(Debug)]
pub enum Error {
    /// Invalid dimensions, strides, planes, or incompatible pixel formats.
    InvalidFrame(String),
    /// Two frames cannot be compared by the requested metric.
    IncompatibleFrames(String),
    /// A requested metric name is not registered.
    UnknownMetric(String),
    /// The requested metric cannot be computed for this format/domain yet.
    UnsupportedInput(String),
    /// Input/output error in optional I/O layers.
    Io(String),
    /// Input path does not exist.
    InputNotFound {
        /// Missing input path.
        path: String,
    },
    /// Error returned by the `image` crate.
    Image(String),
    /// JSON parsing/serialization error.
    Json(String),
    /// An external command failed.
    ProcessFailed {
        /// Program name/path.
        program: String,
        /// Exit status as text.
        status: String,
        /// Captured stderr, lossy UTF-8.
        stderr: String,
    },
    /// A required external command could not be found.
    ExternalToolNotFound {
        /// Program name/path.
        program: String,
        /// CLI option that can override the program path.
        option: String,
    },
    /// A required external command could not be started.
    ExternalToolStartFailed {
        /// Program name/path.
        program: String,
        /// Start failure.
        source: String,
    },
    /// GPU initialization, validation, dispatch, or readback failed.
    Gpu(String),
    /// Tensor/perceptual metric error.
    Neural(String),
}

/// Mathematical content of an [`Error`].
pub enum ErrorView {
    InvalidFrame(Seq<char>),
    IncompatibleFrames(Seq<char>),
    UnknownMetric(Seq<char>),
    UnsupportedInput(Seq<char>),
    Io(Seq<char>),
    InputNotFound { path: Seq<char> },
    Image(Seq<char>),
    Json(Seq<char>),
    ProcessFailed { program: Seq<char>, status: Seq<char>, stderr: Seq<char> },
    ExternalToolNotFound { program: Seq<char>, option: Seq<char> },
    ExternalToolStartFailed { program: Seq<char>, source: Seq<char> },
    Gpu(Seq<char>),
    Neural(Seq<char>),
}

impl View for Error {
    type V = ErrorView;

    open spec fn view(&self) -> ErrorView {
        match self {
            Error::InvalidFrame(m) => ErrorView::InvalidFrame(m@),
            Error::IncompatibleFrames(m) => ErrorView::IncompatibleFrames(m@),
            Error::UnknownMetric(m) => ErrorView::UnknownMetric(m@),
            Error::UnsupportedInput(m) => ErrorView::UnsupportedInput(m@),
            Error::Io(m) => ErrorView::Io(m@),
            Error::InputNotFound { path } => ErrorView::InputNotFound { path: path@ },
            Error::Image(m) => ErrorView::Image(m@),
            Error::Json(m) => ErrorView::Json(m@),
            Error::ProcessFailed { program, status, stderr } => ErrorView::ProcessFailed {
                program: program@,
                status: status@,
                stderr: stderr@,
            },
            Error::ExternalToolNotFound { program, option } => ErrorView::ExternalToolNotFound {
                program: program@,
                option: option@,
            },
            Error::ExternalToolStartFailed { program, source } =>
                ErrorView::ExternalToolStartFailed { program: program@, source: source@ },
            Error::Gpu(m) => ErrorView::Gpu(m@),
            Error::Neural(m) => ErrorView::Neural(m@),
        }
    }
}

/// A result whose error is replaced by its mathematical content.
pub open spec fn outcome<T>(result: Result<T>) -> core::result::Result<T, ErrorView> {
    match result {
        Ok(value) => Ok(value),
        Err(error) => Err(error@),
    }
}

impl ErrorView {
    /// The message shown to people for this error.
    pub open spec fn message(self) -> Seq<char> {
        match self {
            ErrorView::InvalidFrame(m) => "invalid frame: "@ + m,
            ErrorView::IncompatibleFrames(m) => "incompatible frames: "@ + m,
            ErrorView::UnknownMetric(m) => "unknown metric `"@ + m + "`"@,
            ErrorView::UnsupportedInput(m) => "unsupported metric input: "@ + m,
            ErrorView::Io(m) => m,
            ErrorView::InputNotFound { path } => "input file not found: "@ + path,
            ErrorView::Image(m) => m,
            ErrorView::Json(m) => m,
            ErrorView::ProcessFailed { program, status, stderr } => "process `"@ + program
                + "` failed with status "@ + status + ": "@ + stderr,
            ErrorView::ExternalToolNotFound { program, option } => "external tool `"@ + program
                + "` not found; install it or pass `"@ + option + " PATH`"@,
            ErrorView::ExternalToolStartFailed { program, source } =>
                "failed to start external tool `"@ + program + "`: "@ + source,
            ErrorView::Gpu(m) => "gpu error: "@ + m,
            ErrorView::Neural(m) => "nn metric error: "@ + m,
        }
    }
}

impl Error {
    /// Helper for frame validation failures.
    pub fn invalid_frame(msg: &str) -> (error: Self)
        ensures
            error@ == ErrorView::InvalidFrame(msg@),
    {
        Error::InvalidFrame(String::from_str(msg))
    }

    /// Helper for incompatible-frame failures.
    pub fn incompatible(msg: &str) -> (error: Self)
        ensures
            error@ == ErrorView::IncompatibleFrames(msg@),
    {
        Error::IncompatibleFrames(String::from_str(msg))
    }

    /// Helper for unsupported inputs.
    pub fn unsupported(msg: &str) -> (error: Self)
        ensures
            error@ == ErrorView::UnsupportedInput(msg@),
    {
        Error::UnsupportedInput(String::from_str(msg))
    }

    /// Helper for missing input files.
    pub fn input_not_found(path: &str) -> (error: Self)
        ensures
            error@ == (ErrorView::InputNotFound { path: path@ }),
    {
        Error::InputNotFound { path: String::from_str(path) }
    }

    /// Helper for external command startup failures.
    ///
    /// `not_found` tells whether the operating system reported that the program
    /// does not exist; `source` is the text of the startup failure.
    pub fn external_tool_start_failed(
        program: &str,
        option: &str,
        not_found: bool,
        source: &str,
    ) -> (error: Self)
        ensures
            error@ == if not_found {
                ErrorView::ExternalToolNotFound { program: program@, option: option@ }
            } else {
                ErrorView::ExternalToolStartFailed { program: program@, source: source@ }
            },
    {
        if not_found {
            Error::ExternalToolNotFound {
                program: String::from_str(program),
                option: String::from_str(option),
            }
        } else {
            Error::ExternalToolStartFailed {
                program: String::from_str(program),
                source: String::from_str(source),
            }
        }
    }

    /// The message shown to people.
    pub fn message(&self) -> (text: String)
        ensures
            text@ == self@.message(),
    {
        match self {
            Error::InvalidFrame(m) => concat2("invalid frame: ", m.as_str()),
            Error::IncompatibleFrames(m) => concat2("incompatible frames: ", m.as_str()),
            Error::UnknownMetric(m) => concat3("unknown metric `", m.as_str(), "`"),
            Error::UnsupportedInput(m) => concat2("unsupported metric input: ", m.as_str()),
            Error::Io(m) => m.clone(),
            Error::InputNotFound { path } => concat2("input file not found: ", path.as_str()),
            Error::Image(m) => m.clone(),
            Error::Json(m) => m.clone(),
            Error::ProcessFailed { program, status, stderr } => concat6(
                "process `",
                program.as_str(),
                "` failed with status ",
                status.as_str(),
                ": ",
                stderr.as_str(),
            ),
            Error::ExternalToolNotFound { program, option } => concat5(
                "external tool `",
                program.as_str(),
                "` not found; install it or pass `",
                option.as_str(),
                " PATH`",
            ),
            Error::ExternalToolStartFailed { program, source } => concat4(
                "failed to start external tool `",
                program.as_str(),
                "`: ",
                source.as_str(),
            ),
            Error::Gpu(m) => concat2("gpu error: ", m.as_str()),
            Error::Neural(m) => concat2("nn metric error: ", m.as_str()),
        }
    }
}

/// A result is seen with its own value or its own error.
pub proof fn law_outcomes_are_the_results(value: u64, error: Error)
    ensures
        outcome(Ok::<u64, Error>(value)) == Ok::<u64, ErrorView>(value),
        outcome(Err::<u64, Error>(error)) == Err::<u64, ErrorView>(error@),
{
}

/// Messages end with what the error says, behind a word for its kind where it has one;
/// errors of files, images, and JSON say nothing else.
pub proof fn law_messages_say_what_went_wrong(text: Seq<char>)
    ensures
        ErrorView::InvalidFrame(text).message() == "invalid frame: "@ + text,
        ErrorView::IncompatibleFrames(text).message() == "incompatible frames: "@ + text,
        ErrorView::UnsupportedInput(text).message() == "unsupported metric input: "@ + text,
        ErrorView::Gpu(text).message() == "gpu error: "@ + text,
        ErrorView::Neural(text).message() == "nn metric error: "@ + text,
        ErrorView::Io(text).message() == text,
        ErrorView::Image(text).message() == text,
        ErrorView::Json(text).message() == text,
{
}

} // verus!
