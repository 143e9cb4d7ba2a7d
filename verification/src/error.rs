//! Error values of the filter protocol.

use vstd::prelude::*;

verus! {

/// Why a frame or a block of frames was rejected.
#[derive(Debug, Clone, Copy, PartialEq, Eq, Structural)]
pub enum ParseError {
    /// A length header holds a byte that is not a hex digit.
    BadHexLen,
    /// A length header announces 1, 2 or 3 bytes, less than the header itself.
    PacketSizeBelowHeader,
    /// A length header announces exactly the header and no payload.
    PacketSizeZero,
    /// A length header announces more payload than a frame may carry.
    MaxPacketSizeExceeded,
    /// A text frame does not end with a newline.
    MissingNewline,
    /// The text of a frame is not valid UTF-8.
    BadUtf8,
    /// The session does not open with `git-filter-client`.
    BadPrelude,
    /// The client does not announce `version=2`.
    UnknownVersion,
    /// The client hello holds more than the two expected lines.
    UnexpectedTextAfterHello,
    /// A command block holds no `command=` entry.
    MissingCommand,
    /// A clean or smudge request holds no `pathname=` entry.
    MissingPathname,
    /// The command word is none of those the server knows.
    UnknownCommand,
    /// A blob that is being collected arrived with content.
    DelayedBlobHasData,
}

/// Why a session stopped.
#[derive(Debug, Clone, Copy, PartialEq, Eq, Structural)]
pub enum Error {
    /// The input violates the protocol.
    Parse(ParseError),
    /// The input ended inside a frame.
    Truncated,
    /// The input ended where a frame would begin.
    EndOfStream,
}

impl ParseError {
    /// A short description for logs and for callers that wrap the error.
    pub fn message(&self) -> (text: &'static str)
        ensures
            text@ == self.message_text(),
    {
        match self {
            ParseError::BadHexLen => "bad hex len",
            ParseError::PacketSizeBelowHeader => "packet size is below the header size",
            ParseError::PacketSizeZero => "packet size is zero",
            ParseError::MaxPacketSizeExceeded => "max packet size exceeded",
            ParseError::MissingNewline => "string should end with \\n",
            ParseError::BadUtf8 => "bad utf-8",
            ParseError::BadPrelude => "bad prelude",
            ParseError::UnknownVersion => "unknown version",
            ParseError::UnexpectedTextAfterHello => "unexpected text after client hello",
            ParseError::MissingCommand => "missing command",
            ParseError::MissingPathname => "missing pathname",
            ParseError::UnknownCommand => "unknown command",
            ParseError::DelayedBlobHasData => "delayed blob should have no data",
        }
    }

    /// The text that [`ParseError::message`] returns.
    pub open spec fn message_text(&self) -> Seq<char> {
        match self {
            ParseError::BadHexLen => "bad hex len"@,
            ParseError::PacketSizeBelowHeader => "packet size is below the header size"@,
            ParseError::PacketSizeZero => "packet size is zero"@,
            ParseError::MaxPacketSizeExceeded => "max packet size exceeded"@,
            ParseError::MissingNewline => "string should end with \\n"@,
            ParseError::BadUtf8 => "bad utf-8"@,
            ParseError::BadPrelude => "bad prelude"@,
            ParseError::UnknownVersion => "unknown version"@,
            ParseError::UnexpectedTextAfterHello => "unexpected text after client hello"@,
            ParseError::MissingCommand => "missing command"@,
            ParseError::MissingPathname => "missing pathname"@,
            ParseError::UnknownCommand => "unknown command"@,
            ParseError::DelayedBlobHasData => "delayed blob should have no data"@,
        }
    }
}

} // verus!
