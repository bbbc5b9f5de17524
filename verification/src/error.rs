//! The errors of the archive engine.
use vstd::prelude::*;
use crate::text::{extend_chars, from_chars, to_chars};

verus! {

/// What can go wrong while reading or writing a package.
#[derive(Debug)]
pub enum Error {
    /// An underlying read or write failed.
    Io(std::io::Error),
    /// A codec failed for a reason other than plain I/O.
    Compression(String),
    /// The control file breaks the grammar; the text describes where.
    ControlSyntax(String),
    /// A required member is absent; the text names it.
    MissingPart(String),
    /// No stanza where exactly one was expected.
    Empty,
    /// No compression scheme is known for this name.
    InvalidCompression(String),
}

/// The fixed text that begins the message of each kind of error.
pub open spec fn message_prefix(e: Error) -> Seq<char> {
    match e {
        Error::Io(_) => "io error: "@,
        Error::Compression(_) => "compression error: "@,
        Error::ControlSyntax(_) => "failed to parse control file: "@,
        Error::MissingPart(_) => "control file was missing "@,
        Error::Empty => "deb file was empty"@,
        Error::InvalidCompression(_) => "compression algorithm could not be detected in '"@,
    }
}

/// The message of an error that carries a text of its own.
pub open spec fn message_spec(e: Error) -> Seq<char> {
    match e {
        Error::Io(_) => message_prefix(e),
        Error::Compression(s) => message_prefix(e) + s@,
        Error::ControlSyntax(s) => message_prefix(e) + s@,
        Error::MissingPart(s) => message_prefix(e) + s@,
        Error::Empty => message_prefix(e),
        Error::InvalidCompression(s) => message_prefix(e) + s@ + "'"@,
    }
}

impl Error {
    /// The message of this error. For an I/O error it begins with
    /// `io error: ` and goes on with the text of the underlying error; for
    /// every other kind it is exactly `message_spec`.
    pub fn to_string(&self) -> (r: String)
        ensures
            self is Io ==> message_prefix(*self).is_prefix_of(r@),
            !(self is Io) ==> r@ == message_spec(*self),
    {
        match self {
            Error::Io(e) => {
                let m = io_message(e);
                prefixed("io error: ", m.as_str(), "")
            },
            Error::Compression(s) => {
                proof {
                    assert("compression error: "@ + s@ + ""@ =~= "compression error: "@ + s@) by {
                        reveal_strlit("");
                    }
                }
                prefixed("compression error: ", s.as_str(), "")
            },
            Error::ControlSyntax(s) => {
                proof {
                    assert("failed to parse control file: "@ + s@ + ""@
                        =~= "failed to parse control file: "@ + s@) by {
                        reveal_strlit("");
                    }
                }
                prefixed("failed to parse control file: ", s.as_str(), "")
            },
            Error::MissingPart(s) => {
                proof {
                    assert("control file was missing "@ + s@ + ""@ =~= "control file was missing "@
                        + s@) by {
                        reveal_strlit("");
                    }
                }
                prefixed("control file was missing ", s.as_str(), "")
            },
            Error::Empty => {
                proof {
                    assert("deb file was empty"@ + ""@ + ""@ =~= "deb file was empty"@) by {
                        reveal_strlit("");
                    }
                }
                prefixed("deb file was empty", "", "")
            },
            Error::InvalidCompression(s) => prefixed(
                "compression algorithm could not be detected in '",
                s.as_str(),
                "'",
            ),
        }
    }
}

/// `detail` between `prefix` and `suffix`.
fn prefixed(prefix: &str, detail: &str, suffix: &str) -> (r: String)
    ensures
        r@ == prefix@ + detail@ + suffix@,
{
    let mut v = to_chars(prefix);
    let d = to_chars(detail);
    let s = to_chars(suffix);
    extend_chars(&mut v, &d);
    extend_chars(&mut v, &s);
    from_chars(&v)
}

/// `std::io::Error`, carried through as it is: nothing is known of what
/// it holds.
#[verifier::external_type_specification]
#[verifier::external_body]
pub struct ExIoError(std::io::Error);

/// `lzma::LzmaError`, carried from the codec to `lzma_failure`: nothing
/// is known of what it holds.
#[verifier::external_type_specification]
#[verifier::external_body]
pub struct ExLzmaError(lzma::LzmaError);

/// Calls `Display` of `std::io::Error`. Nothing is claimed of the text.
#[verifier::external_body]
fn io_message(e: &std::io::Error) -> (r: String) {
    e.to_string()
}

/// Calls `std::io::Error::new` for an error of the kind `InvalidInput`
/// with the message `message`.
#[verifier::external_body]
pub(crate) fn invalid_input(message: &str) -> (e: std::io::Error) {
    std::io::Error::new(std::io::ErrorKind::InvalidInput, message)
}

/// Tells the variants of `lzma::LzmaError` apart: an I/O error is kept as
/// it is, any other is replaced by its `Display` text.
#[verifier::external_body]
pub(crate) fn lzma_failure(err: lzma::LzmaError) -> (e: Error)
    ensures
        e is Io || e is Compression,
{
    match err {
        lzma::LzmaError::Io(err) => Error::Io(err),
        other => Error::Compression(other.to_string()),
    }
}

} // verus!
