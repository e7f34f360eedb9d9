//! Bounded request framing before JSON parsing or GTK dispatch.
use crate::text::utf8_string;
use vstd::prelude::*;
use vstd::utf8::{decode_utf8, valid_utf8};

verus! {

/// Largest request line, in bytes, without its line ending.
pub const MAX_REQUEST_BYTES: usize = 4194304;

/// Why a started request line was refused.
#[derive(Debug, PartialEq, Eq, Structural)]
pub enum FrameError {
    /// More bytes than the limit arrived before the newline.
    TooLarge,
    /// The stream ended before the newline.
    MissingNewline,
    /// The line is not UTF-8.
    NotUtf8,
}

impl FrameError {
    /// The message a line reader reports for this error.
    pub fn line_message(&self) -> (m: &'static str)
        ensures
            m@ == spec_line_message(*self),
    {
        match self {
            FrameError::TooLarge => {
                proof {
                    reveal_strlit("line exceeds byte limit");
                }
                "line exceeds byte limit"
            },
            FrameError::MissingNewline => {
                proof {
                    reveal_strlit("line missing newline");
                }
                "line missing newline"
            },
            FrameError::NotUtf8 => {
                proof {
                    reveal_strlit("line is not UTF-8");
                }
                "line is not UTF-8"
            },
        }
    }

    /// The message reported to the client's connection.
    pub fn message(&self) -> (m: &'static str)
        ensures
            m@ == spec_frame_message(*self),
    {
        match self {
            FrameError::TooLarge => {
                proof {
                    reveal_strlit("request exceeds byte limit");
                }
                "request exceeds byte limit"
            },
            FrameError::MissingNewline => {
                proof {
                    reveal_strlit("request missing newline");
                }
                "request missing newline"
            },
            FrameError::NotUtf8 => {
                proof {
                    reveal_strlit("request is not UTF-8");
                }
                "request is not UTF-8"
            },
        }
    }
}

/// The message of each framing error when a line reader (rather than the request socket)
/// reports it.
pub open spec fn spec_line_message(e: FrameError) -> Seq<char> {
    match e {
        FrameError::TooLarge => "line exceeds byte limit"@,
        FrameError::MissingNewline => "line missing newline"@,
        FrameError::NotUtf8 => "line is not UTF-8"@,
    }
}

/// The message of each framing error.
pub open spec fn spec_frame_message(e: FrameError) -> Seq<char> {
    match e {
        FrameError::TooLarge => "request exceeds byte limit"@,
        FrameError::MissingNewline => "request missing newline"@,
        FrameError::NotUtf8 => "request is not UTF-8"@,
    }
}

/// A line without its trailing `\n` and an optional `\r` before it.
pub open spec fn line_body(bytes: Seq<u8>) -> Seq<u8> {
    let b = bytes.drop_last();
    if b.len() > 0 && b.last() == 13u8 {
        b.drop_last()
    } else {
        b
    }
}

/// The request framed from the bytes read for it (at most `limit + 1`, through the first newline).
pub open spec fn spec_frame(bytes: Seq<u8>, limit: nat) -> Result<Seq<char>, FrameError> {
    if bytes.len() > limit {
        Err(FrameError::TooLarge)
    } else if bytes.len() == 0 || bytes.last() != 10u8 {
        Err(FrameError::MissingNewline)
    } else if !valid_utf8(line_body(bytes)) {
        Err(FrameError::NotUtf8)
    } else {
        Ok(decode_utf8(line_body(bytes)))
    }
}

/// Assemble one started UTF-8 line, accepting CRLF and rejecting overflow or incomplete EOF.
/// `bytes` holds what was read for the request: at most `limit + 1` bytes, through the first
/// newline when one arrived.
pub fn frame_request(bytes: Vec<u8>, limit: usize) -> (r: Result<String, FrameError>)
    ensures
        match r {
            Ok(s) => spec_frame(bytes@, limit as nat) == Ok::<Seq<char>, FrameError>(s@),
            Err(e) => spec_frame(bytes@, limit as nat) == Err::<Seq<char>, FrameError>(e),
        },
{
    let mut bytes = bytes;
    if bytes.len() > limit {
        return Err(FrameError::TooLarge);
    }
    let ghost all = bytes@;
    match bytes.pop() {
        Some(last) => {
            if last != 10u8 {
                return Err(FrameError::MissingNewline);
            }
        },
        None => {
            return Err(FrameError::MissingNewline);
        },
    }
    if bytes.len() > 0 && bytes[bytes.len() - 1] == 13u8 {
        bytes.pop();
    }
    assert(bytes@ =~= line_body(all));
    match utf8_string(bytes) {
        Some(s) => Ok(s),
        None => Err(FrameError::NotUtf8),
    }
}

} // verus!
