//! What goes wrong on a HART line, and what is said about it.

use crate::text;
use crate::text::write_digits;
use vstd::prelude::*;
use vstd::string::*;

verus! {

/// A protocol error, or the silence of a device that did not answer.
#[derive(Debug, PartialEq, Eq)]
pub enum HartError {
    /// A frame that opens with fewer than two preambles.
    FewPreambles,
    /// Preambles that go on past any frame's.
    EndlessPreambles,
    /// The low three bits of a delimiter that names no kind of frame.
    UnknownDelimiter(u8),
    /// A frame that stops inside its address.
    CutInsideAddress,
    /// A frame that stops before its checksum.
    CutBeforeChecksum,
    /// A checksum that is not the XOR of what it covers.
    BadChecksum,
    /// Bytes after the frame's checksum.
    TrailingBytes,
    /// More data than the byte count can say.
    TooMuchData,
    /// Text that is no address, as it was given.
    NotAnAddress(String),
    /// A polling address over 63.
    PollingOver63,
    /// An answer to command 0 that is too short or not in its expanded form.
    NotAnIdentity,
    /// An answer without its status bytes.
    NoStatus,
    /// A response code other than OK, or an OK that the second status byte
    /// does not follow.
    ResponseCode(u8),
    /// A chunk without its flags byte.
    NoFlags,
    /// An answer to another command than the one asked.
    AnswerToSomethingElse,
    /// A Stream whose last chunk never came.
    EndlessStream,
    /// No answer in time.
    NoAnswer,
}

/// How text is shown between quotes, escapes and all: what the standard
/// library's `Debug` writes for a string.
pub uninterp spec fn quoted(text: Seq<char>) -> Seq<char>;

/// Calls the `Debug` formatting of `str`. Claimed of it: only that what it
/// writes depends on the text alone, under the name `quoted`.
#[verifier::external_body]
fn quote(text: &str) -> (shown: String)
    ensures
        shown@ == quoted(text@),
{
    format!("{:?}", text)
}

/// `text` between quotes, then what it is not.
pub open spec fn not_an_address(shown: Seq<char>) -> Seq<char> {
    shown + " is not a HART address"@
}

/// What is said of text that is no address, once it is `shown` between quotes.
pub fn refused_address(shown: &str) -> (message: String)
    ensures
        message@ == not_an_address(shown@),
{
    let mut out: String = shown.to_owned();
    out.append(" is not a HART address");
    out
}

impl HartError {
    /// Whether asking again may help: a device may be slow to answer, but one
    /// that refused is not one to ask again.
    pub fn retryable(&self) -> (again: bool)
        ensures
            again == (*self is NoAnswer),
    {
        match self {
            HartError::NoAnswer => true,
            _ => false,
        }
    }

    /// The sentence that `message` gives.
    pub open spec fn sentence(self) -> Seq<char> {
        match self {
            HartError::FewPreambles => "fewer than two preambles"@,
            HartError::EndlessPreambles => "no end of preambles"@,
            HartError::UnknownDelimiter(bits) => "a delimiter HART does not use: 0x"@ + text::digits_of(
                bits as nat,
                16,
                2,
            ),
            HartError::CutInsideAddress => "a frame cut off inside its address"@,
            HartError::CutBeforeChecksum => "a frame cut off before its checksum"@,
            HartError::BadChecksum => "a checksum that does not check"@,
            HartError::TrailingBytes => "bytes after the checksum"@,
            HartError::TooMuchData => "more data than one HART frame carries"@,
            HartError::NotAnAddress(text) => not_an_address(quoted(text@)),
            HartError::PollingOver63 => "a polling address over 63"@,
            HartError::NotAnIdentity => "not a command 0 answer"@,
            HartError::NoStatus => "an answer without its status bytes"@,
            HartError::ResponseCode(code) => "the device answered with response code "@
                + text::digits_of(code as nat, 10, 1),
            HartError::NoFlags => "a chunk without its flags"@,
            HartError::AnswerToSomethingElse => "an answer to something else"@,
            HartError::EndlessStream => "a Stream that never ends"@,
            HartError::NoAnswer => "the device did not answer"@,
        }
    }

    /// What went wrong, in words.
    pub fn message(&self) -> (message: String)
        ensures
            message@ == self.sentence(),
    {
        match self {
            HartError::FewPreambles => "fewer than two preambles".to_owned(),
            HartError::EndlessPreambles => "no end of preambles".to_owned(),
            HartError::UnknownDelimiter(bits) => {
                let mut out: String = "a delimiter HART does not use: 0x".to_owned();
                write_digits(&mut out, *bits as u64, 16, 2);
                out
            },
            HartError::CutInsideAddress => "a frame cut off inside its address".to_owned(),
            HartError::CutBeforeChecksum => "a frame cut off before its checksum".to_owned(),
            HartError::BadChecksum => "a checksum that does not check".to_owned(),
            HartError::TrailingBytes => "bytes after the checksum".to_owned(),
            HartError::TooMuchData => "more data than one HART frame carries".to_owned(),
            HartError::NotAnAddress(text) => refused_address(&quote(text.as_str())),
            HartError::PollingOver63 => "a polling address over 63".to_owned(),
            HartError::NotAnIdentity => "not a command 0 answer".to_owned(),
            HartError::NoStatus => "an answer without its status bytes".to_owned(),
            HartError::ResponseCode(code) => {
                let mut out: String = "the device answered with response code ".to_owned();
                write_digits(&mut out, *code as u64, 10, 1);
                out
            },
            HartError::NoFlags => "a chunk without its flags".to_owned(),
            HartError::AnswerToSomethingElse => "an answer to something else".to_owned(),
            HartError::EndlessStream => "a Stream that never ends".to_owned(),
            HartError::NoAnswer => "the device did not answer".to_owned(),
        }
    }
}

} // verus!
