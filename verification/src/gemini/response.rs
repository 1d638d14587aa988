//! The header line that opens every Gemini response.

use vstd::prelude::*;
use crate::gemini::Page;
use crate::text::{
    chars_from, chars_of, chars_until, find_char, first_index_of, is_first_index, is_white_space,
    lemma_first_index_at, lemma_trim_end_take, string_from_chars, trim, trim_chars, trim_end,
    trim_start,
};

verus! {

/// The status of a response, by its two-digit code.
#[derive(Debug, PartialEq, Eq, Structural, Clone, Copy)]
pub enum Status {
    Input,
    SensitiveInput,
    Success,
    TemporaryRedirect,
    PermanantRedirect,
    TemporaryFailure,
    ServerUnavailable,
    CGIError,
    ProxyError,
    SlowDown,
    PermanentFailure,
    NotFound,
    Gone,
    ProxyRequestRefused,
    BadRequest,
    ClientCertificateRequried,
    CertificateNotAuthorised,
    CertificateNotValid,
}

/// Why a header could not be read.
#[derive(Debug, PartialEq)]
pub enum HeaderError {
    /// The status field is not one of the codes the protocol defines; the
    /// field is kept.
    InvalidStatus(String),
    /// The header holds no space, so there is no meta field after the status.
    MissingMeta,
}

/// The status that the digits `c1 c2` stand for.
pub open spec fn status_of_digits(c1: char, c2: char) -> Option<Status> {
    if c1 == '1' && c2 == '0' {
        Some(Status::Input)
    } else if c1 == '1' && c2 == '1' {
        Some(Status::SensitiveInput)
    } else if c1 == '2' && c2 == '0' {
        Some(Status::Success)
    } else if c1 == '3' && c2 == '0' {
        Some(Status::TemporaryRedirect)
    } else if c1 == '3' && c2 == '1' {
        Some(Status::PermanantRedirect)
    } else if c1 == '4' && c2 == '0' {
        Some(Status::TemporaryFailure)
    } else if c1 == '4' && c2 == '1' {
        Some(Status::ServerUnavailable)
    } else if c1 == '4' && c2 == '2' {
        Some(Status::CGIError)
    } else if c1 == '4' && c2 == '3' {
        Some(Status::ProxyError)
    } else if c1 == '4' && c2 == '4' {
        Some(Status::SlowDown)
    } else if c1 == '5' && c2 == '0' {
        Some(Status::PermanentFailure)
    } else if c1 == '5' && c2 == '1' {
        Some(Status::NotFound)
    } else if c1 == '5' && c2 == '2' {
        Some(Status::Gone)
    } else if c1 == '5' && c2 == '3' {
        Some(Status::ProxyRequestRefused)
    } else if c1 == '5' && c2 == '9' {
        Some(Status::BadRequest)
    } else if c1 == '6' && c2 == '0' {
        Some(Status::ClientCertificateRequried)
    } else if c1 == '6' && c2 == '1' {
        Some(Status::CertificateNotAuthorised)
    } else if c1 == '6' && c2 == '2' {
        Some(Status::CertificateNotValid)
    } else {
        None
    }
}

/// The status whose code is exactly `s`.
pub open spec fn status_of_code(s: Seq<char>) -> Option<Status> {
    if s.len() == 2 {
        status_of_digits(s[0], s[1])
    } else {
        None
    }
}

impl Status {
    /// Reads a status code: exactly two digits that the protocol defines.
    pub fn from_str(s: &str) -> (r: Result<Status, HeaderError>)
        ensures
            match r {
                Ok(st) => status_of_code(s@) == Some(st),
                Err(HeaderError::InvalidStatus(t)) => status_of_code(s@) is None && t@ == s@,
                Err(HeaderError::MissingMeta) => false,
            },
    {
        let v = chars_of(s);
        match Self::from_chars(v.as_slice()) {
            Some(st) => Ok(st),
            None => Err(HeaderError::InvalidStatus(s.to_owned())),
        }
    }

    fn from_chars(v: &[char]) -> (r: Option<Status>)
        ensures
            r == status_of_code(v@),
    {
        if v.len() != 2 {
            return None;
        }
        let c1 = v[0];
        let c2 = v[1];
        if c1 == '1' && c2 == '0' {
            Some(Status::Input)
        } else if c1 == '1' && c2 == '1' {
            Some(Status::SensitiveInput)
        } else if c1 == '2' && c2 == '0' {
            Some(Status::Success)
        } else if c1 == '3' && c2 == '0' {
            Some(Status::TemporaryRedirect)
        } else if c1 == '3' && c2 == '1' {
            Some(Status::PermanantRedirect)
        } else if c1 == '4' && c2 == '0' {
            Some(Status::TemporaryFailure)
        } else if c1 == '4' && c2 == '1' {
            Some(Status::ServerUnavailable)
        } else if c1 == '4' && c2 == '2' {
            Some(Status::CGIError)
        } else if c1 == '4' && c2 == '3' {
            Some(Status::ProxyError)
        } else if c1 == '4' && c2 == '4' {
            Some(Status::SlowDown)
        } else if c1 == '5' && c2 == '0' {
            Some(Status::PermanentFailure)
        } else if c1 == '5' && c2 == '1' {
            Some(Status::NotFound)
        } else if c1 == '5' && c2 == '2' {
            Some(Status::Gone)
        } else if c1 == '5' && c2 == '3' {
            Some(Status::ProxyRequestRefused)
        } else if c1 == '5' && c2 == '9' {
            Some(Status::BadRequest)
        } else if c1 == '6' && c2 == '0' {
            Some(Status::ClientCertificateRequried)
        } else if c1 == '6' && c2 == '1' {
            Some(Status::CertificateNotAuthorised)
        } else if c1 == '6' && c2 == '2' {
            Some(Status::CertificateNotValid)
        } else {
            None
        }
    }
}

/// The header of a response: its status and the meta field after it.
#[derive(Debug, PartialEq)]
pub struct ResponseHeader {
    pub status: Status,
    pub meta: String,
}

/// The status field of a header line: the trimmed line up to its first space.
pub open spec fn status_field(s: Seq<char>) -> Seq<char> {
    let t = trim(s);
    match first_index_of(t, ' ') {
        Some(i) => t.subrange(0, i),
        None => t,
    }
}

/// The meta field of a header line: the trimmed line after its first space.
pub open spec fn meta_field(s: Seq<char>) -> Option<Seq<char>> {
    let t = trim(s);
    match first_index_of(t, ' ') {
        Some(i) => Some(t.subrange(i + 1, t.len() as int)),
        None => None,
    }
}

impl ResponseHeader {
    /// Reads a header line: surrounding white space is ignored, the status
    /// comes before the first space and the meta field is all that follows it.
    pub fn from_str(s: &str) -> (r: Result<ResponseHeader, HeaderError>)
        ensures
            match r {
                Ok(h) => {
                    &&& status_of_code(status_field(s@)) == Some(h.status)
                    &&& meta_field(s@) == Some(h.meta@)
                },
                Err(HeaderError::InvalidStatus(t)) => {
                    &&& status_of_code(status_field(s@)) is None
                    &&& t@ == status_field(s@)
                },
                Err(HeaderError::MissingMeta) => {
                    &&& status_of_code(status_field(s@)) is Some
                    &&& meta_field(s@) is None
                },
            },
    {
        let v = chars_of(s);
        let t = trim_chars(v.as_slice());
        let space = find_char(t.as_slice(), ' ');
        let code = match space {
            Some(i) => chars_until(t.as_slice(), i),
            None => t.clone(),
        };
        let status = match Status::from_chars(code.as_slice()) {
            Some(st) => st,
            None => {
                return Err(HeaderError::InvalidStatus(string_from_chars(code.as_slice())));
            },
        };
        match space {
            Some(i) => {
                let meta = chars_from(t.as_slice(), i + 1);
                Ok(ResponseHeader { status, meta: string_from_chars(meta.as_slice()) })
            },
            None => Err(HeaderError::MissingMeta),
        }
    }
}

/// A header written as the protocol has it, a status code, a space, the
/// meta field and CR LF, reads back as that status and meta field, as long as
/// the meta field is not empty and does not end in white space.
pub proof fn lemma_header_line_reads_back(code: Seq<char>, meta: Seq<char>)
    requires
        status_of_code(code) is Some,
        meta.len() > 0,
        !is_white_space(meta.last()),
    ensures
        status_field(code + seq![' '] + meta + seq!['\r', '\n']) == code,
        meta_field(code + seq![' '] + meta + seq!['\r', '\n']) == Some(meta),
{
    let line = code + seq![' '] + meta + seq!['\r', '\n'];
    let n: int = line.len() as int;
    assert(code.len() == 2);
    assert(line[0] == code[0]);
    assert(!is_white_space(line[0]));
    assert(trim_start(line) == line);
    assert(line[n - 2] == '\r' && line[n - 1] == '\n');
    lemma_trim_end_take(line, n - 2);
    let body = line.subrange(0, n - 2);
    assert(body =~= code + seq![' '] + meta);
    assert(body.last() == meta.last());
    assert(trim_end(body) == body);
    assert(trim(line) == body);
    assert(is_first_index(body, ' ', 2)) by {
        assert(body[0] == code[0] && body[1] == code[1]);
    }
    lemma_first_index_at(body, ' ', 2);
    assert(body.subrange(0, 2) =~= code);
    assert(body.subrange(3, body.len() as int) =~= meta);
}

/// A whole response: its header and the page in its body.
pub struct Response {
    pub header: ResponseHeader,
    pub page: Page,
}

} // verus!
