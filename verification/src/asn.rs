//! Autonomous-system numbers and their short textual forms.
//!
//! An AS number is a sixteen-bit value. The accepted textual forms are a
//! bare decimal numeral, or a decimal numeral behind exactly the prefix
//! "AS" or "as" — mixed case ("As", "aS") is not a prefix, so such strings
//! are rejected as non-numeric.

use vstd::prelude::*;

use crate::error::{LookoutError, ParseErrorKind, ParseSource};
use crate::text::{
    dec_str, dec_val, is_dec_str, is_digit_char, lemma_dec_str, parse_dec_bounded, push_all,
    str_to_chars, chars_to_string, u64_to_chars,
};

verus! {

/// A validated autonomous-system number; always in [0, 65535].
#[derive(Clone, Copy, Debug, PartialEq, Eq, Structural)]
pub struct ASn(pub u16);

/// Whether `s` begins with the strict prefix "AS" or "as" and has something
/// after it.
pub open spec fn has_asn_prefix(s: Seq<char>) -> bool {
    s.len() > 2 && ((s[0] == 'A' && s[1] == 'S') || (s[0] == 'a' && s[1] == 's'))
}

/// The grammar of AS-number text: strip an "AS"/"as" prefix if one is
/// there, then read the rest as a decimal sixteen-bit value. Anything else
/// — the empty string, a bare prefix, mixed case, junk digits, a value past
/// sixteen bits — is a malformed number.
pub open spec fn spec_parse_asn(s: Seq<char>) -> Result<ASn, LookoutError> {
    let digits = if has_asn_prefix(s) {
        s.skip(2)
    } else {
        s
    };
    if is_dec_str(digits) && dec_val(digits) <= 65535 {
        Ok(ASn(dec_val(digits) as u16))
    } else {
        Err(LookoutError::Parse(ParseSource::Asn, ParseErrorKind::MalformedNumber))
    }
}

/// The canonical text of an AS number: "AS" then its decimal digits.
pub open spec fn spec_asn_text(a: ASn) -> Seq<char> {
    seq!['A', 'S'] + dec_str(a.0 as nat)
}

impl ASn {
    /// Parse the character form of an AS number.
    pub fn from_chars(s: &[char]) -> (r: Result<ASn, LookoutError>)
        ensures
            r == spec_parse_asn(s@),
    {
        let digits: &[char] = if s.len() > 2
            && ((s[0] == 'A' && s[1] == 'S') || (s[0] == 'a' && s[1] == 's')) {
            let d = &s[2..s.len()];
            assert(d@ == s@.skip(2));
            d
        } else {
            s
        };
        match parse_dec_bounded(digits, 65535) {
            Some(v) => Ok(ASn(v as u16)),
            None => Err(LookoutError::Parse(ParseSource::Asn, ParseErrorKind::MalformedNumber)),
        }
    }

    /// Parse the textual form of an AS number.
    pub fn from_str(s: &str) -> (r: Result<ASn, LookoutError>)
        ensures
            r == spec_parse_asn(s@),
    {
        let v = str_to_chars(s);
        Self::from_chars(v.as_slice())
    }

    /// The canonical text of this AS number.
    pub fn to_text(&self) -> (r: String)
        ensures
            r@ == spec_asn_text(*self),
    {
        let mut v: Vec<char> = Vec::new();
        v.push('A');
        v.push('S');
        let digits = u64_to_chars(self.0 as u64);
        push_all(&mut v, digits.as_slice());
        proof {
            assert(v@ =~= spec_asn_text(*self));
        }
        chars_to_string(&v)
    }
}

impl From<u16> for ASn {
    /// Wrap a sixteen-bit value, which is always a valid AS number.
    fn from(v: u16) -> (r: ASn) {
        ASn(v)
    }
}

impl vstd::std_specs::convert::FromSpecImpl<u16> for ASn {
    open spec fn obeys_from_spec() -> bool {
        true
    }

    open spec fn from_spec(v: u16) -> ASn {
        ASn(v)
    }
}

/// Every sixteen-bit value is accepted in all three textual forms —
/// "AS"-prefixed, "as"-prefixed, and bare decimal — and reads back to
/// itself.
pub proof fn lemma_asn_parse_forms(n: u16)
    ensures
        spec_parse_asn(seq!['A', 'S'] + dec_str(n as nat)) == Ok::<ASn, LookoutError>(ASn(n)),
        spec_parse_asn(seq!['a', 's'] + dec_str(n as nat)) == Ok::<ASn, LookoutError>(ASn(n)),
        spec_parse_asn(dec_str(n as nat)) == Ok::<ASn, LookoutError>(ASn(n)),
{
    lemma_dec_str(n as nat);
    let d = dec_str(n as nat);
    let upper = seq!['A', 'S'] + d;
    let lower = seq!['a', 's'] + d;
    assert(upper.skip(2) =~= d);
    assert(lower.skip(2) =~= d);
    assert(has_asn_prefix(upper) && has_asn_prefix(lower));
    assert(is_digit_char(d[0]));
    assert(!has_asn_prefix(d));
}

/// A decimal value past sixteen bits is rejected in all three forms.
pub proof fn lemma_asn_parse_overflow(n: nat)
    requires
        n > 65535,
    ensures
        spec_parse_asn(seq!['A', 'S'] + dec_str(n)) is Err,
        spec_parse_asn(seq!['a', 's'] + dec_str(n)) is Err,
        spec_parse_asn(dec_str(n)) is Err,
{
    lemma_dec_str(n);
    let d = dec_str(n);
    let upper = seq!['A', 'S'] + d;
    let lower = seq!['a', 's'] + d;
    assert(upper.skip(2) =~= d);
    assert(lower.skip(2) =~= d);
    assert(is_digit_char(d[0]));
}

/// Round trip: the canonical text of an AS number parses back to it.
pub proof fn lemma_asn_round_trip(a: ASn)
    ensures
        spec_parse_asn(spec_asn_text(a)) == Ok::<ASn, LookoutError>(a),
{
    lemma_asn_parse_forms(a.0);
}

} // verus!
