//! The error type of the whole program: what went wrong, where, and the text
//! that is reported for it.

use vstd::prelude::*;

use crate::text::{chars_to_string, decimal, push_decimal, push_str, str_chars};

verus! {

/// What kind of failure an error reports.
#[derive(Debug, Clone, Copy, PartialEq, Eq, Structural)]
pub enum Kind {
    /// The command line or the document's settings ask for something that
    /// cannot be done.
    Usage,
    /// The document text is malformed.
    Parse,
    /// Reading or writing a file or stream failed.
    Io,
    /// An external program failed.
    Process,
}

/// The observable content of an [`AppError`].
pub struct ErrorView {
    pub kind: Kind,
    pub message: Seq<char>,
    pub line: Option<usize>,
}

/// A failure, with the message shown to the user and, for document errors,
/// the line it concerns.
#[derive(Debug)]
pub struct AppError {
    kind: Kind,
    message: String,
    line: Option<usize>,
}

impl View for AppError {
    type V = ErrorView;

    closed spec fn view(&self) -> ErrorView {
        ErrorView { kind: self.kind, message: self.message@, line: self.line }
    }
}

/// A usage error with the given message.
pub open spec fn usage_error(message: Seq<char>) -> ErrorView {
    ErrorView { kind: Kind::Usage, message, line: None }
}

/// A document error on the given line.
pub open spec fn parse_error(line: usize, message: Seq<char>) -> ErrorView {
    ErrorView { kind: Kind::Parse, message, line: Some(line) }
}

/// An input/output failure: the message, `": "`, then the text of the
/// underlying error.
pub open spec fn io_error(message: Seq<char>, text: Seq<char>) -> ErrorView {
    ErrorView { kind: Kind::Io, message: message + ": "@ + text, line: None }
}

/// A failure of an external program.
pub open spec fn process_error(message: Seq<char>) -> ErrorView {
    ErrorView { kind: Kind::Process, message, line: None }
}

/// What a fallible operation gave, with the error taken by its view.
pub open spec fn outcome<T>(r: Result<T, AppError>) -> Result<T, ErrorView> {
    match r {
        Ok(v) => Ok(v),
        Err(e) => Err(e@),
    }
}

/// The label that a report starts with: command-line misuse is told apart
/// from failures during normal execution.
pub open spec fn kind_label(kind: Kind) -> Seq<char> {
    match kind {
        Kind::Usage => "usage"@,
        _ => "error"@,
    }
}

/// The line printed for an error: `pixie <label>: [line <n>: ]<message>`.
pub open spec fn reported(e: ErrorView) -> Seq<char> {
    match e.line {
        Some(line) => "pixie "@ + kind_label(e.kind) + ": line "@ + decimal(line as nat) + ": "@
            + e.message,
        None => "pixie "@ + kind_label(e.kind) + ": "@ + e.message,
    }
}

#[verifier::external_type_specification]
#[verifier::external_body]
pub struct ExIoError(std::io::Error);

/// The text that `std::io::Error`'s `Display` gives.
///
/// Trusted: formats the error with `format!("{}", ..)`. Nothing is claimed of
/// the text, which comes from the operating system.
#[verifier::external_body]
fn io_error_text(source: &std::io::Error) -> String {
    format!("{}", source)
}

impl AppError {
    /// An error for command-line misuse.
    pub fn usage(message: String) -> (e: AppError)
        ensures
            e@ == usage_error(message@),
    {
        AppError { kind: Kind::Usage, message, line: None }
    }

    /// An error in the document at the given line.
    pub fn parse(line: usize, message: String) -> (e: AppError)
        ensures
            e@ == parse_error(line, message@),
    {
        AppError { kind: Kind::Parse, message, line: Some(line) }
    }

    /// An input/output failure described by `text`, the text of the
    /// underlying error: the message is `message`, `": "`, then `text`.
    pub fn io_with_text(message: String, text: &str) -> (e: AppError)
        ensures
            e@ == io_error(message@, text@),
    {
        let mut full = str_chars(message.as_str());
        push_str(&mut full, ": ");
        push_str(&mut full, text);
        AppError { kind: Kind::Io, message: chars_to_string(full.as_slice()), line: None }
    }

    /// An input/output failure: the message, `": "`, then the text of the
    /// underlying error, which is whatever the error's `Display` gives.
    pub fn io(message: String, source: std::io::Error) -> (e: AppError)
        ensures
            e@.kind == Kind::Io,
            e@.line is None,
            (message@ + ": "@).is_prefix_of(e@.message),
    {
        let detail = io_error_text(&source);
        let e = Self::io_with_text(message, detail.as_str());
        proof {
            let head = message@ + ": "@;
            assert(e@.message.subrange(0, head.len() as int) =~= head);
        }
        e
    }

    /// A failure of an external program.
    pub fn process(message: String) -> (e: AppError)
        ensures
            e@ == process_error(message@),
    {
        AppError { kind: Kind::Process, message, line: None }
    }

    /// The kind of failure.
    pub fn kind(&self) -> (k: Kind)
        ensures
            k == self@.kind,
    {
        self.kind
    }

    /// The message shown to the user.
    pub fn message(&self) -> (m: &str)
        ensures
            m@ == self@.message,
    {
        self.message.as_str()
    }

    /// The document line the error concerns, if any.
    pub fn line(&self) -> (l: Option<usize>)
        ensures
            l == self@.line,
    {
        self.line
    }

    /// The line reported for this error.
    pub fn report_text(&self) -> (s: String)
        ensures
            s@ == reported(self@),
    {
        let mut text: Vec<char> = Vec::new();
        push_str(&mut text, "pixie ");
        match self.kind {
            Kind::Usage => push_str(&mut text, "usage"),
            _ => push_str(&mut text, "error"),
        }
        match self.line {
            Some(line) => {
                push_str(&mut text, ": line ");
                push_decimal(&mut text, line as u64);
                push_str(&mut text, ": ");
            },
            None => {
                push_str(&mut text, ": ");
            },
        }
        push_str(&mut text, self.message.as_str());
        chars_to_string(text.as_slice())
    }
}

} // verus!
