use vstd::prelude::*;

verus! {

/// Which field of a record failed to parse.
#[derive(Clone, Copy, Debug, PartialEq, Eq, Structural)]
pub enum ErrorKind {
    /// The position line is not a decimal `usize`.
    InvalidPosition,
    /// The timecode line is not `HH:MM:SS,mmm --> HH:MM:SS,mmm`.
    InvalidTimecode,
    /// A text line could not be read. Lines of a buffer in memory are always
    /// readable, so [`SubRipParser`](crate::SubRipParser) does not give it.
    InvalidText,
}

impl ErrorKind {
    /// The description of the kind.
    pub open spec fn text(self) -> Seq<char> {
        match self {
            ErrorKind::InvalidPosition => "invalid position"@,
            ErrorKind::InvalidTimecode => "invalid timecode"@,
            ErrorKind::InvalidText => "invalid text"@,
        }
    }

    /// A short description of the kind.
    pub fn as_str(&self) -> (r: &'static str)
        ensures
            r@ == self.text(),
    {
        match self {
            ErrorKind::InvalidPosition => "invalid position",
            ErrorKind::InvalidTimecode => "invalid timecode",
            ErrorKind::InvalidText => "invalid text",
        }
    }
}

/// Why a single field could not be read.
#[derive(Clone, Copy, Debug, PartialEq, Eq, Structural)]
pub enum FieldError {
    /// The number was empty.
    Empty,
    /// A character other than a digit (after an optional sign).
    InvalidDigit,
    /// The number is above the largest value of its type.
    PosOverflow,
    /// The number is below the smallest value of its type.
    NegOverflow,
    /// The timecode line has too few fields.
    MissingField,
}

impl FieldError {
    /// The description of the failure.
    pub open spec fn text(self) -> Seq<char> {
        match self {
            FieldError::Empty => "cannot parse integer from empty string"@,
            FieldError::InvalidDigit => "invalid digit found in string"@,
            FieldError::PosOverflow => "number too large to fit in target type"@,
            FieldError::NegOverflow => "number too small to fit in target type"@,
            FieldError::MissingField => "wrong timecode format"@,
        }
    }

    /// A short description of the failure.
    pub fn as_str(&self) -> (r: &'static str)
        ensures
            r@ == self.text(),
    {
        match self {
            FieldError::Empty => "cannot parse integer from empty string",
            FieldError::InvalidDigit => "invalid digit found in string",
            FieldError::PosOverflow => "number too large to fit in target type",
            FieldError::NegOverflow => "number too small to fit in target type",
            FieldError::MissingField => "wrong timecode format",
        }
    }
}

/// A record that could not be parsed: the field that failed and why.
#[derive(Clone, Copy, Debug, PartialEq, Eq, Structural)]
pub struct Error {
    pub kind: ErrorKind,
    pub cause: FieldError,
}

impl Error {
    /// An error of `kind`, caused by `cause`.
    pub fn new(kind: ErrorKind, cause: FieldError) -> (r: Error)
        ensures
            r == (Error { kind, cause }),
    {
        Error { kind, cause }
    }

    /// The field that failed.
    pub fn kind(&self) -> (r: ErrorKind)
        ensures
            r == self.kind,
    {
        self.kind
    }

    /// The failure underneath the error.
    pub fn cause(&self) -> (r: FieldError)
        ensures
            r == self.cause,
    {
        self.cause
    }

    /// The error as a message: its kind, then the failure underneath.
    pub fn to_string(&self) -> (r: String)
        ensures
            r@ == self.kind.text() + ": "@ + self.cause.text(),
    {
        let mut out = String::from_str(self.kind.as_str());
        out.append(": ");
        out.append(self.cause.as_str());
        out
    }
}

} // verus!
