//! The error model: a closed set of failure kinds, each carrying the trace of
//! the decode steps that enclosed the failure.

use vstd::prelude::*;
use vstd::string::StringExecFns;

verus! {

/// `lzma_rs::error::Error`, what the LZMA decoder reports when it refuses its
/// input. The library carries the value along and never looks into it.
#[verifier::external_type_specification]
#[verifier::external_body]
pub struct ExLzmaError(lzma_rs::error::Error);

/// What went wrong, without the position.
#[derive(Clone, Copy, Debug, PartialEq, Eq, Structural)]
pub enum ErrorKind {
    /// Fewer bytes remain than a decode step requires.
    UnexpectedEndOfInput,
    /// The game-mode byte is none of the known modes.
    InvalidEnumValue,
    /// A string, or the decompressed action text, is not valid UTF-8.
    InvalidUtf8,
    /// An action record has fewer than four sub-fields.
    MissingField,
    /// A sub-field of an action record is not a number of its type.
    InvalidNumericLiteral,
    /// The compressed action blob is corrupt or truncated.
    DecompressionError,
}

impl ErrorKind {
    /// The kind in words.
    pub open spec fn spec_description(self) -> &'static str {
        match self {
            ErrorKind::UnexpectedEndOfInput => "End of file",
            ErrorKind::InvalidEnumValue => "Invalid Game Mode",
            ErrorKind::InvalidUtf8 => "Error converting bytes to UTF-8",
            ErrorKind::MissingField => "Expected value in replay data not found",
            ErrorKind::InvalidNumericLiteral => "Value in replay data is invalid",
            ErrorKind::DecompressionError => "Error decompressing replay data",
        }
    }

    /// The kind in words.
    #[verifier::when_used_as_spec(spec_description)]
    pub fn description(self) -> (r: &'static str)
        ensures
            r == self.spec_description(),
    {
        match self {
            ErrorKind::UnexpectedEndOfInput => "End of file",
            ErrorKind::InvalidEnumValue => "Invalid Game Mode",
            ErrorKind::InvalidUtf8 => "Error converting bytes to UTF-8",
            ErrorKind::MissingField => "Expected value in replay data not found",
            ErrorKind::InvalidNumericLiteral => "Value in replay data is invalid",
            ErrorKind::DecompressionError => "Error decompressing replay data",
        }
    }
}

/// The mathematical content of an error: its kind and the labels of the
/// enclosing decode steps, innermost first.
pub struct Failure {
    pub kind: ErrorKind,
    pub trace: Seq<&'static str>,
}

impl Failure {
    /// A failure that no step has labelled yet.
    pub open spec fn bare(kind: ErrorKind) -> Failure {
        Failure { kind, trace: Seq::empty() }
    }

    /// The same failure seen from one step further out.
    pub open spec fn within(self, label: &'static str) -> Failure {
        Failure { kind: self.kind, trace: self.trace.push(label) }
    }
}

/// The blanks before a line at the given depth: three for each step that
/// encloses it.
pub open spec fn indentation(depth: nat) -> Seq<char>
    decreases depth,
{
    if depth == 0 {
        Seq::empty()
    } else {
        indentation((depth - 1) as nat) + "   "@
    }
}

/// One line of a rendered failure.
pub open spec fn line(depth: nat, text: &str) -> Seq<char> {
    indentation(depth) + text@ + "\n"@
}

/// The lines of the `count` outermost steps of a trace, the outermost step
/// first and each step one level deeper than the step around it.
pub open spec fn rendered_steps(trace: Seq<&'static str>, count: nat) -> Seq<char>
    decreases count,
{
    if count == 0 {
        Seq::empty()
    } else {
        rendered_steps(trace, (count - 1) as nat) + line(
            (count - 1) as nat,
            trace[trace.len() - count],
        )
    }
}

/// A failure as text: its steps from the outermost inwards, one to a line,
/// then what went wrong, below the innermost step.
pub open spec fn rendered(failure: Failure) -> Seq<char> {
    rendered_steps(failure.trace, failure.trace.len()) + line(
        failure.trace.len(),
        failure.kind.spec_description(),
    )
}

/// Appends one line at the given depth.
fn append_line(text: &mut String, depth: usize, label: &str)
    ensures
        final(text)@ == old(text)@ + line(depth as nat, label),
{
    let mut level: usize = 0;
    while level < depth
        invariant
            level <= depth,
            text@ == old(text)@ + indentation(level as nat),
        decreases depth - level,
    {
        text.append("   ");
        level = level + 1;
        assert(text@ =~= old(text)@ + indentation(level as nat));
    }
    text.append(label);
    text.append("\n");
    assert(text@ =~= old(text)@ + line(depth as nat, label));
}

/// A decode failure. Each variant is one kind of [`ErrorKind`] and holds the
/// trace of context labels, innermost step first. The trace is for diagnostics
/// only: no decoder reads it.
#[derive(Debug)]
pub enum ReplayDataError {
    /// Fewer bytes remain than a decode step requires.
    UnexpectedEndOfInput(Vec<&'static str>),
    /// The game-mode byte is none of the known modes.
    InvalidEnumValue(Vec<&'static str>),
    /// A string, or the decompressed action text, is not valid UTF-8.
    InvalidUtf8(Vec<&'static str>),
    /// An action record has fewer than four sub-fields.
    MissingField(Vec<&'static str>),
    /// A sub-field of an action record is not a number of its type.
    InvalidNumericLiteral(Vec<&'static str>),
    /// The compressed action blob is corrupt or truncated; the decoder's own
    /// report comes first.
    DecompressionError(lzma_rs::error::Error, Vec<&'static str>),
}

impl View for ReplayDataError {
    type V = Failure;

    open spec fn view(&self) -> Failure {
        match self {
            ReplayDataError::UnexpectedEndOfInput(t) => Failure {
                kind: ErrorKind::UnexpectedEndOfInput,
                trace: t@,
            },
            ReplayDataError::InvalidEnumValue(t) => Failure {
                kind: ErrorKind::InvalidEnumValue,
                trace: t@,
            },
            ReplayDataError::InvalidUtf8(t) => Failure { kind: ErrorKind::InvalidUtf8, trace: t@ },
            ReplayDataError::MissingField(t) => Failure {
                kind: ErrorKind::MissingField,
                trace: t@,
            },
            ReplayDataError::InvalidNumericLiteral(t) => Failure {
                kind: ErrorKind::InvalidNumericLiteral,
                trace: t@,
            },
            ReplayDataError::DecompressionError(_, t) => Failure {
                kind: ErrorKind::DecompressionError,
                trace: t@,
            },
        }
    }
}

impl ReplayDataError {
    /// The kind of this failure.
    pub fn kind(&self) -> (k: ErrorKind)
        ensures
            k == self@.kind,
    {
        match self {
            ReplayDataError::UnexpectedEndOfInput(_) => ErrorKind::UnexpectedEndOfInput,
            ReplayDataError::InvalidEnumValue(_) => ErrorKind::InvalidEnumValue,
            ReplayDataError::InvalidUtf8(_) => ErrorKind::InvalidUtf8,
            ReplayDataError::MissingField(_) => ErrorKind::MissingField,
            ReplayDataError::InvalidNumericLiteral(_) => ErrorKind::InvalidNumericLiteral,
            ReplayDataError::DecompressionError(_, _) => ErrorKind::DecompressionError,
        }
    }

    /// The context labels, innermost step first.
    pub fn trace(&self) -> (t: &Vec<&'static str>)
        ensures
            t@ == self@.trace,
    {
        match self {
            ReplayDataError::UnexpectedEndOfInput(t) => t,
            ReplayDataError::InvalidEnumValue(t) => t,
            ReplayDataError::InvalidUtf8(t) => t,
            ReplayDataError::MissingField(t) => t,
            ReplayDataError::InvalidNumericLiteral(t) => t,
            ReplayDataError::DecompressionError(_, t) => t,
        }
    }

    /// What the decompressor reported, where decompression is what failed.
    pub fn cause(&self) -> (r: Option<&lzma_rs::error::Error>)
        ensures
            r is Some <==> self@.kind == ErrorKind::DecompressionError,
    {
        match self {
            ReplayDataError::DecompressionError(cause, _) => Some(cause),
            _ => None,
        }
    }

    /// The failure as text for a reader: the steps from the outermost
    /// inwards, one to a line and each three blanks deeper than the one
    /// before, then the kind in words.
    pub fn describe(&self) -> (r: String)
        ensures
            r@ == rendered(self@),
    {
        let trace = self.trace();
        let mut text = String::new();
        let mut depth: usize = 0;
        while depth < trace.len()
            invariant
                depth <= trace@.len(),
                text@ == rendered_steps(trace@, depth as nat),
            decreases trace@.len() - depth,
        {
            let label: &'static str = trace[trace.len() - 1 - depth];
            append_line(&mut text, depth, label);
            depth = depth + 1;
        }
        append_line(&mut text, depth, self.kind().description());
        text
    }

    /// Attaches the label of the step that the failure is passing through.
    /// The kind stays; the trace grows by one entry at its outer end.
    pub fn with_context(self, label: &'static str) -> (r: ReplayDataError)
        ensures
            r@ == self@.within(label),
    {
        match self {
            ReplayDataError::UnexpectedEndOfInput(mut t) => {
                t.push(label);
                ReplayDataError::UnexpectedEndOfInput(t)
            },
            ReplayDataError::InvalidEnumValue(mut t) => {
                t.push(label);
                ReplayDataError::InvalidEnumValue(t)
            },
            ReplayDataError::InvalidUtf8(mut t) => {
                t.push(label);
                ReplayDataError::InvalidUtf8(t)
            },
            ReplayDataError::MissingField(mut t) => {
                t.push(label);
                ReplayDataError::MissingField(t)
            },
            ReplayDataError::InvalidNumericLiteral(mut t) => {
                t.push(label);
                ReplayDataError::InvalidNumericLiteral(t)
            },
            ReplayDataError::DecompressionError(cause, mut t) => {
                t.push(label);
                ReplayDataError::DecompressionError(cause, t)
            },
        }
    }
}

/// Labels a step: a success passes through, a failure gains `label`.
pub fn context<T>(label: &'static str, result: Result<T, ReplayDataError>) -> (r: Result<
    T,
    ReplayDataError,
>)
    ensures
        match result {
            Ok(v) => r == Ok::<T, ReplayDataError>(v),
            Err(e) => r matches Err(labelled) && labelled@ == e@.within(label),
        },
{
    match result {
        Ok(v) => Ok(v),
        Err(e) => Err(e.with_context(label)),
    }
}

} // verus!
