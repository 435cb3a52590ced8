//! The single error type that every stage reports through.
use vstd::prelude::*;
use vstd::string::StringExecFns;
use crate::text::{dec, push_dec};

verus! {

/// What went wrong, by the stage that noticed it.
#[derive(Debug)]
pub enum ErrorKind {
    /// The chunk is malformed.
    Decoder(String),
    /// The instruction stream cannot be lifted into a syntax tree.
    Parser(String),
    /// Reading or writing an ambient stream failed.
    Io(String),
    /// The syntax tree has no rendering as source text.
    Fmt(String),
}

/// Mathematical view of an [`ErrorKind`]: the messages as character sequences.
pub ghost enum ErrorView {
    Decoder(Seq<char>),
    Parser(Seq<char>),
    Io(Seq<char>),
    Fmt(Seq<char>),
}

/// An error of one of the stages, with its kind and message.
#[derive(Debug)]
pub struct Error {
    pub kind: ErrorKind,
}

impl View for ErrorKind {
    type V = ErrorView;

    open spec fn view(&self) -> ErrorView {
        match self {
            ErrorKind::Decoder(m) => ErrorView::Decoder(m@),
            ErrorKind::Parser(m) => ErrorView::Parser(m@),
            ErrorKind::Io(m) => ErrorView::Io(m@),
            ErrorKind::Fmt(m) => ErrorView::Fmt(m@),
        }
    }
}

impl View for Error {
    type V = ErrorView;

    open spec fn view(&self) -> ErrorView {
        self.kind@
    }
}

impl ErrorView {
    /// The same error, with the byte offset in the chunk at which it arose
    /// added to its message.
    pub open spec fn at_byte(self, offset: nat) -> ErrorView {
        match self {
            ErrorView::Decoder(m) => ErrorView::Decoder(m + " at byte "@ + dec(offset)),
            other => other,
        }
    }

    /// The same error, with the index of the instruction at which it arose
    /// added to its message.
    pub open spec fn at_instruction(self, ip: nat) -> ErrorView {
        match self {
            ErrorView::Parser(m) => ErrorView::Parser(m + " at instruction "@ + dec(ip)),
            other => other,
        }
    }

    /// The one-line diagnostic shown to the user.
    pub open spec fn text(self) -> Seq<char> {
        match self {
            ErrorView::Decoder(m) => "decoder error: "@ + m,
            ErrorView::Parser(m) => "parser error: "@ + m,
            ErrorView::Io(m) => m,
            ErrorView::Fmt(m) => m,
        }
    }
}

impl Error {
    /// An error of the decoder with the given message.
    pub fn new_decoder(message: &str) -> (e: Error)
        ensures
            e@ == ErrorView::Decoder(message@),
    {
        Error { kind: ErrorKind::Decoder(String::from_str(message)) }
    }

    /// An error of the parser with the given message.
    pub fn new_parser(message: &str) -> (e: Error)
        ensures
            e@ == ErrorView::Parser(message@),
    {
        Error { kind: ErrorKind::Parser(String::from_str(message)) }
    }

    /// An error of an ambient stream with the given message.
    pub fn new_io(message: &str) -> (e: Error)
        ensures
            e@ == ErrorView::Io(message@),
    {
        Error { kind: ErrorKind::Io(String::from_str(message)) }
    }

    /// An error of the writer with the given message.
    pub fn new_fmt(message: &str) -> (e: Error)
        ensures
            e@ == ErrorView::Fmt(message@),
    {
        Error { kind: ErrorKind::Fmt(String::from_str(message)) }
    }

    /// Adds the byte offset at which a decoder error arose to its message.
    pub fn at_byte(self, offset: usize) -> (e: Error)
        ensures
            e@ == self@.at_byte(offset as nat),
    {
        match self.kind {
            ErrorKind::Decoder(m) => {
                let mut message = m.concat(" at byte ");
                push_dec(&mut message, offset as u64);
                Error { kind: ErrorKind::Decoder(message) }
            },
            other => Error { kind: other },
        }
    }

    /// Adds the index of the instruction at which a parser error arose to
    /// its message.
    pub fn at_instruction(self, ip: usize) -> (e: Error)
        ensures
            e@ == self@.at_instruction(ip as nat),
    {
        match self.kind {
            ErrorKind::Parser(m) => {
                let mut message = m.concat(" at instruction ");
                push_dec(&mut message, ip as u64);
                Error { kind: ErrorKind::Parser(message) }
            },
            other => Error { kind: other },
        }
    }

    /// The diagnostic line for this error.
    pub fn describe(&self) -> (s: String)
        ensures
            s@ == self@.text(),
    {
        match &self.kind {
            ErrorKind::Decoder(m) => String::from_str("decoder error: ").concat(m.as_str()),
            ErrorKind::Parser(m) => String::from_str("parser error: ").concat(m.as_str()),
            ErrorKind::Io(m) => m.clone(),
            ErrorKind::Fmt(m) => m.clone(),
        }
    }
}

} // verus!
