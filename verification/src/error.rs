//! Error taxonomy for the probe-output parsers and the command dispatcher.
//!
//! Every failure is fatal to the request it occurs in; nothing is retried.
//! A parse failure records which sub-parser raised it and what went wrong.

use vstd::prelude::*;

verus! {

/// The sub-parser that raised a parse error.
#[derive(Clone, Copy, Debug, PartialEq, Eq, Structural)]
pub enum ParseSource {
    /// The autonomous-system-number parser.
    Asn,
    /// The "hostname (ip) [asn]" token-group parser.
    Host,
    /// The parser for the first line of traceroute output.
    Header,
    /// The parser for a per-hop traceroute line.
    Hop,
}

/// What went wrong while parsing.
#[derive(Clone, Copy, Debug, PartialEq, Eq, Structural)]
pub enum ParseErrorKind {
    /// A required field (hostname, IP address, line segment) was absent.
    MissingField,
    /// A field was present but its delimiters (parentheses, brackets) were
    /// missing or mismatched.
    MalformedDelimiter,
    /// A numeric field did not parse as a number in range.
    MalformedNumber,
    /// More fields were present than the grammar allows.
    ExcessFields,
}

/// A failure of the diagnostic core: either one of the parsers rejected its
/// input, or running the external tool failed.
#[derive(Clone, Copy, Debug, PartialEq, Eq, Structural)]
pub enum LookoutError {
    /// A parser rejected its input; tagged with the sub-parser that raised
    /// the error and the kind of fault.
    Parse(ParseSource, ParseErrorKind),
    /// The external tool could not be spawned or did not run to completion.
    Exec,
    /// The external tool's output was not valid text.
    Decode,
}

impl LookoutError {
    /// A short description of the error, for server-side diagnostics.
    pub fn describe(&self) -> (r: &'static str)
        ensures
            r@ == self.spec_describe(),
    {
        match self {
            LookoutError::Parse(ParseSource::Asn, _) => "malformed AS number",
            LookoutError::Parse(ParseSource::Host, _) => "malformed host group",
            LookoutError::Parse(ParseSource::Header, _) => "malformed traceroute header",
            LookoutError::Parse(ParseSource::Hop, _) => "malformed traceroute hop line",
            LookoutError::Exec => "could not run the external tool",
            LookoutError::Decode => "tool output was not valid text",
        }
    }

    /// The text that `describe` returns.
    pub open spec fn spec_describe(&self) -> Seq<char> {
        match self {
            LookoutError::Parse(ParseSource::Asn, _) => "malformed AS number"@,
            LookoutError::Parse(ParseSource::Host, _) => "malformed host group"@,
            LookoutError::Parse(ParseSource::Header, _) => "malformed traceroute header"@,
            LookoutError::Parse(ParseSource::Hop, _) => "malformed traceroute hop line"@,
            LookoutError::Exec => "could not run the external tool"@,
            LookoutError::Decode => "tool output was not valid text"@,
        }
    }
}

} // verus!
