//! Structured forms of traceroute's textual output: the per-probe host
//! record ("hostname (ip) [asn]"), the first line of the output (the
//! header), the per-hop probe lines, and the whole result.

use vstd::prelude::*;

use crate::asn::{spec_asn_text, spec_parse_asn, ASn};
use crate::error::{LookoutError, ParseErrorKind, ParseSource};
use crate::ip::{
    lemma_ip_round_trip, lemma_join_no_char, parse_ip_chars, spec_ip_text, spec_parse_ip, Ip,
};
use crate::text::{
    chars_to_string, dec_str, dec_val, is_dec_str, is_space_char, lemma_concat_no_char,
    lemma_concat_no_space, lemma_dec_str, lemma_digits_no_char, lemma_digits_no_space,
    lemma_hex_no_char, lemma_hex_no_space, lemma_join_no_space,
    lemma_run_len_concat, lemma_split_ws_concat, lemma_split_ws_single, no_char, no_space,
    parse_dec_bounded, push_all, spec_split_on, spec_split_ws, spec_starts_with, spec_trim,
    spec_trim_end, spec_trim_start, split_on_exec, split_ws_exec, starts_with_exec,
    str_to_chars, trim_exec, u64_to_chars,
};

verus! {

/// The mathematical form of a host record: a hostname, an address, and an
/// optional AS number.
#[verifier::ext_equal]
pub struct SpecHost {
    pub hostname: Seq<char>,
    pub ip: Ip,
    pub asn: Option<ASn>,
}

/// One host as reported by the probe tool: the name it printed (which is
/// the address text itself when reverse lookup failed), the address, and
/// the announcing AS number when the tool resolved one.
#[derive(Debug, PartialEq, Eq)]
pub struct Host {
    pub hostname: String,
    pub ip: Ip,
    pub asn: Option<ASn>,
}

impl View for Host {
    type V = SpecHost;

    open spec fn view(&self) -> SpecHost {
        SpecHost { hostname: self.hostname@, ip: self.ip, asn: self.asn }
    }
}

impl Clone for Host {
    /// Cloning keeps the value.
    fn clone(&self) -> (r: Host)
        ensures
            r@ == self@,
    {
        let r = Host { hostname: self.hostname.clone(), ip: self.ip, asn: self.asn };
        proof {
            assert(r@ =~= self@);
        }
        r
    }
}

/// The grammar of one host record, over its whitespace-split tokens: a
/// hostname, a parenthesised address, and optionally a bracketed AS number
/// or the unresolved marker "[*]"; nothing more.
pub open spec fn spec_parse_host_toks(toks: Seq<Seq<char>>) -> Result<SpecHost, LookoutError> {
    if toks.len() <= 1 {
        Err(LookoutError::Parse(ParseSource::Host, ParseErrorKind::MissingField))
    } else if toks.len() > 3 {
        Err(LookoutError::Parse(ParseSource::Host, ParseErrorKind::ExcessFields))
    } else {
        let ipt = toks[1];
        if !(ipt.len() >= 2 && ipt[0] == '(' && ipt[ipt.len() - 1] == ')') {
            Err(LookoutError::Parse(ParseSource::Host, ParseErrorKind::MalformedDelimiter))
        } else {
            match spec_parse_ip(ipt.subrange(1, ipt.len() - 1)) {
                None => Err(LookoutError::Parse(ParseSource::Host, ParseErrorKind::MalformedNumber)),
                Some(ip) => {
                    if toks.len() == 2 {
                        Ok(SpecHost { hostname: toks[0], ip, asn: None })
                    } else {
                        let at = toks[2];
                        if at == seq!['[', '*', ']'] {
                            Ok(SpecHost { hostname: toks[0], ip, asn: None })
                        } else if !(at.len() >= 2 && at[0] == '[' && at[at.len() - 1] == ']') {
                            Err(LookoutError::Parse(
                                ParseSource::Host,
                                ParseErrorKind::MalformedDelimiter,
                            ))
                        } else {
                            match spec_parse_asn(at.subrange(1, at.len() - 1)) {
                                Ok(a) => Ok(SpecHost { hostname: toks[0], ip, asn: Some(a) }),
                                Err(e) => Err(e),
                            }
                        }
                    }
                }
            }
        }
    }
}

/// The grammar of one host record as text.
pub open spec fn spec_parse_host(s: Seq<char>) -> Result<SpecHost, LookoutError> {
    spec_parse_host_toks(spec_split_ws(s))
}

/// Whether an executable parse result matches the spec-level one on these
/// tokens.
pub open spec fn host_result_matches(
    toks: Seq<Seq<char>>,
    r: Result<Host, LookoutError>,
) -> bool {
    match r {
        Ok(h) => spec_parse_host_toks(toks) == Ok::<SpecHost, LookoutError>(h@),
        Err(e) => spec_parse_host_toks(toks) == Err::<SpecHost, LookoutError>(e),
    }
}

/// Parse one host record from its whitespace-split tokens.
pub(crate) fn parse_host_toks(toks: &[Vec<char>]) -> (r: Result<Host, LookoutError>)
    ensures
        host_result_matches(toks@.map_values(|t: Vec<char>| t@), r),
{
    let ghost gtoks = toks@.map_values(|t: Vec<char>| t@);
    if toks.len() <= 1 {
        return Err(LookoutError::Parse(ParseSource::Host, ParseErrorKind::MissingField));
    }
    if toks.len() > 3 {
        return Err(LookoutError::Parse(ParseSource::Host, ParseErrorKind::ExcessFields));
    }
    let ipt = toks[1].as_slice();
    proof {
        assert(ipt@ == gtoks[1]);
    }
    if !(ipt.len() >= 2 && ipt[0] == '(' && ipt[ipt.len() - 1] == ')') {
        return Err(LookoutError::Parse(ParseSource::Host, ParseErrorKind::MalformedDelimiter));
    }
    let inner = &ipt[1..ipt.len() - 1];
    assert(inner@ == gtoks[1].subrange(1, gtoks[1].len() - 1));
    let ip = match parse_ip_chars(inner) {
        Some(ip) => ip,
        None => {
            return Err(LookoutError::Parse(ParseSource::Host, ParseErrorKind::MalformedNumber));
        },
    };
    let hostname = chars_to_string(&toks[0]);
    proof {
        assert(hostname@ == gtoks[0]);
    }
    if toks.len() == 2 {
        return Ok(Host { hostname, ip, asn: None });
    }
    let at = toks[2].as_slice();
    proof {
        assert(at@ == gtoks[2]);
    }
    if at.len() == 3 && at[0] == '[' && at[1] == '*' && at[2] == ']' {
        proof {
            assert(at@ =~= seq!['[', '*', ']']);
        }
        return Ok(Host { hostname, ip, asn: None });
    }
    proof {
        assert(at@ != seq!['[', '*', ']']);
    }
    if !(at.len() >= 2 && at[0] == '[' && at[at.len() - 1] == ']') {
        return Err(LookoutError::Parse(ParseSource::Host, ParseErrorKind::MalformedDelimiter));
    }
    let ainner = &at[1..at.len() - 1];
    assert(ainner@ == gtoks[2].subrange(1, gtoks[2].len() - 1));
    match ASn::from_chars(ainner) {
        Ok(a) => Ok(Host { hostname, ip, asn: Some(a) }),
        Err(e) => Err(e),
    }
}

impl Host {
    /// Build a host record from its parts.
    pub fn new(hostname: &str, ip: Ip, asn: Option<ASn>) -> (r: Host)
        ensures
            r@ == (SpecHost { hostname: hostname@, ip, asn }),
    {
        let r = Host { hostname: hostname.to_owned(), ip, asn };
        proof {
            assert(r@ =~= (SpecHost { hostname: hostname@, ip, asn }));
        }
        r
    }

    /// Parse one "hostname (ip) [asn]" token group.
    pub fn from_str(s: &str) -> (r: Result<Host, LookoutError>)
        ensures
            host_result_matches(spec_split_ws(s@), r),
    {
        let chars = str_to_chars(s);
        let toks = split_ws_exec(chars.as_slice());
        parse_host_toks(toks.as_slice())
    }

    /// The canonical text of this host record.
    pub fn to_text(&self) -> (r: String)
        ensures
            r@ == spec_host_text(self@),
    {
        let mut v = str_to_chars(self.hostname.as_str());
        v.push(' ');
        v.push('(');
        let ipc = self.ip.to_chars();
        push_all(&mut v, ipc.as_slice());
        v.push(')');
        match &self.asn {
            None => {
                proof {
                    assert(v@ =~= spec_host_text(self@));
                }
                chars_to_string(&v)
            },
            Some(a) => {
                v.push(' ');
                v.push('[');
                v.push('A');
                v.push('S');
                let digits = u64_to_chars(a.0 as u64);
                push_all(&mut v, digits.as_slice());
                v.push(']');
                proof {
                    assert(v@ =~= spec_host_text(self@));
                }
                chars_to_string(&v)
            },
        }
    }
}

/// Canonical text of a host record: "hostname (ip)" and, when an AS number
/// is there, " [ASn]".
pub open spec fn spec_host_text(h: SpecHost) -> Seq<char> {
    h.hostname + seq![' ', '('] + spec_ip_text(h.ip) + seq![')'] + match h.asn {
        None => Seq::<char>::empty(),
        Some(a) => seq![' ', '['] + spec_asn_text(a) + seq![']'],
    }
}

/// The hostnames the canonical form can carry: non-empty and free of
/// whitespace, as one whitespace-split token must be.
pub open spec fn host_wf(h: SpecHost) -> bool {
    h.hostname.len() > 0 && no_space(h.hostname)
}

/// The address text carries no whitespace.
pub proof fn lemma_ip_text_no_space(ip: Ip)
    ensures
        no_space(spec_ip_text(ip)),
{
    match ip {
        Ip::V4(a, b, c, d) => {
            let parts = crate::ip::v4_parts(a, b, c, d);
            lemma_dec_str(a as nat);
            lemma_dec_str(b as nat);
            lemma_dec_str(c as nat);
            lemma_dec_str(d as nat);
            assert forall|i: int| 0 <= i < parts.len() implies no_space(#[trigger] parts[i]) by {
                lemma_digits_no_space(parts[i]);
            }
            lemma_join_no_space(parts, '.');
        },
        Ip::V6(g0, g1, g2, g3, g4, g5, g6, g7) => {
            let parts = crate::ip::v6_parts(g0, g1, g2, g3, g4, g5, g6, g7);
            crate::text::lemma_hex_str(g0 as nat);
            crate::text::lemma_hex_str(g1 as nat);
            crate::text::lemma_hex_str(g2 as nat);
            crate::text::lemma_hex_str(g3 as nat);
            crate::text::lemma_hex_str(g4 as nat);
            crate::text::lemma_hex_str(g5 as nat);
            crate::text::lemma_hex_str(g6 as nat);
            crate::text::lemma_hex_str(g7 as nat);
            assert forall|i: int| 0 <= i < parts.len() implies no_space(#[trigger] parts[i]) by {
                lemma_hex_no_space(parts[i]);
            }
            lemma_join_no_space(parts, ':');
        },
    }
}

/// The address text does not contain the given character, for any character
/// that is not a digit, a hex digit, a dot or a colon.
pub proof fn lemma_ip_text_no_char(ip: Ip, c: char)
    requires
        !crate::text::is_hex_char(c),
        c != '.',
        c != ':',
    ensures
        no_char(spec_ip_text(ip), c),
{
    match ip {
        Ip::V4(a, b, c4, d) => {
            let parts = crate::ip::v4_parts(a, b, c4, d);
            lemma_dec_str(a as nat);
            lemma_dec_str(b as nat);
            lemma_dec_str(c4 as nat);
            lemma_dec_str(d as nat);
            assert forall|i: int| 0 <= i < parts.len() implies no_char(#[trigger] parts[i], c) by {
                lemma_digits_no_char(parts[i], c);
            }
            lemma_join_no_char(parts, '.', c);
        },
        Ip::V6(g0, g1, g2, g3, g4, g5, g6, g7) => {
            let parts = crate::ip::v6_parts(g0, g1, g2, g3, g4, g5, g6, g7);
            crate::text::lemma_hex_str(g0 as nat);
            crate::text::lemma_hex_str(g1 as nat);
            crate::text::lemma_hex_str(g2 as nat);
            crate::text::lemma_hex_str(g3 as nat);
            crate::text::lemma_hex_str(g4 as nat);
            crate::text::lemma_hex_str(g5 as nat);
            crate::text::lemma_hex_str(g6 as nat);
            crate::text::lemma_hex_str(g7 as nat);
            assert forall|i: int| 0 <= i < parts.len() implies no_char(#[trigger] parts[i], c) by {
                lemma_hex_no_char(parts[i], c);
            }
            lemma_join_no_char(parts, ':', c);
        },
    }
}

/// Round trip: the canonical text of a well-formed host record parses back
/// to it.
pub proof fn lemma_host_round_trip(h: SpecHost)
    requires
        host_wf(h),
    ensures
        spec_parse_host(spec_host_text(h)) == Ok::<SpecHost, LookoutError>(h),
{
    let s = spec_host_text(h);
    let iptxt = spec_ip_text(h.ip);
    let ptok = seq!['('] + iptxt + seq![')'];
    lemma_ip_text_no_space(h.ip);
    assert(no_space(ptok)) by {
        lemma_concat_no_space(seq!['('], iptxt);
        lemma_concat_no_space(seq!['('] + iptxt, seq![')']);
        assert(ptok =~= (seq!['('] + iptxt) + seq![')']);
    }
    match h.asn {
        None => {
            assert(s =~= h.hostname + seq![' '] + ptok);
            lemma_split_ws_concat(h.hostname, ptok);
            lemma_split_ws_single(ptok);
            let toks = spec_split_ws(s);
            assert(toks =~= seq![h.hostname, ptok]);
            assert(ptok[0] == '(' && ptok[ptok.len() - 1] == ')');
            assert(ptok.subrange(1, ptok.len() - 1) =~= iptxt);
            lemma_ip_round_trip(h.ip);
            assert(spec_parse_host_toks(toks) == Ok::<SpecHost, LookoutError>(
                SpecHost { hostname: h.hostname, ip: h.ip, asn: None },
            ));
            assert((SpecHost { hostname: h.hostname, ip: h.ip, asn: None }) =~= h);
        },
        Some(a) => {
            let atxt = spec_asn_text(a);
            let atok = seq!['['] + atxt + seq![']'];
            lemma_dec_str(a.0 as nat);
            assert(no_space(atxt)) by {
                lemma_digits_no_space(dec_str(a.0 as nat));
                lemma_concat_no_space(seq!['A', 'S'], dec_str(a.0 as nat));
            }
            assert(no_space(atok)) by {
                lemma_concat_no_space(seq!['['], atxt);
                lemma_concat_no_space(seq!['['] + atxt, seq![']']);
                assert(atok =~= (seq!['['] + atxt) + seq![']']);
            }
            assert(s =~= h.hostname + seq![' '] + (ptok + seq![' '] + atok));
            lemma_split_ws_concat(h.hostname, ptok + seq![' '] + atok);
            lemma_split_ws_concat(ptok, atok);
            lemma_split_ws_single(atok);
            let toks = spec_split_ws(s);
            assert(toks =~= seq![h.hostname, ptok, atok]);
            assert(ptok[0] == '(' && ptok[ptok.len() - 1] == ')');
            assert(ptok.subrange(1, ptok.len() - 1) =~= iptxt);
            lemma_ip_round_trip(h.ip);
            // the bracketed AS token is longer than the unresolved marker
            assert(atok.len() >= 5);
            assert(atok != seq!['[', '*', ']']);
            assert(atok[0] == '[' && atok[atok.len() - 1] == ']');
            assert(atok.subrange(1, atok.len() - 1) =~= atxt);
            crate::asn::lemma_asn_round_trip(a);
            assert(spec_parse_host_toks(toks) == Ok::<SpecHost, LookoutError>(
                SpecHost { hostname: h.hostname, ip: h.ip, asn: Some(a) },
            ));
            assert((SpecHost { hostname: h.hostname, ip: h.ip, asn: Some(a) }) =~= h);
        },
    }
}

/// The mathematical form of the header line.
#[verifier::ext_equal]
pub struct SpecHeader {
    pub destination: SpecHost,
    pub max_hops: int,
    pub packet_size: int,
}

/// The first line of traceroute output: the destination, the hop limit,
/// and the probe packet size.
#[derive(Debug, PartialEq, Eq)]
pub struct TracerouteHeader {
    pub destination: Host,
    pub max_hops: usize,
    pub packet_size: usize,
}

impl View for TracerouteHeader {
    type V = SpecHeader;

    open spec fn view(&self) -> SpecHeader {
        SpecHeader {
            destination: self.destination@,
            max_hops: self.max_hops as int,
            packet_size: self.packet_size as int,
        }
    }
}

/// The fixed phrase that opens a header line.
pub open spec fn header_prefix() -> Seq<char> {
    seq!['t', 'r', 'a', 'c', 'e', 'r', 'o', 'u', 't', 'e', ' ', 't', 'o', ' ']
}

/// `s` with every repetition of the header phrase stripped off the front.
pub open spec fn spec_strip_prefix(s: Seq<char>) -> Seq<char>
    decreases s.len(),
{
    if spec_starts_with(s, header_prefix()) {
        spec_strip_prefix(s.skip(header_prefix().len() as int))
    } else {
        s
    }
}

/// The first space-separated token of a trimmed segment.
pub open spec fn num_token(seg: Seq<char>) -> Seq<char> {
    spec_split_on(spec_trim(seg), ' ')[0]
}

/// The grammar of the header line: three comma-separated segments — the
/// destination host (behind the fixed phrase), the hop limit, and the
/// packet size, each number being the segment's first token. Segments past
/// the third are ignored.
pub open spec fn spec_parse_header(s: Seq<char>) -> Result<SpecHeader, LookoutError> {
    let parts = spec_split_on(s, ',');
    if parts.len() < 3 {
        Err(LookoutError::Parse(ParseSource::Header, ParseErrorKind::MissingField))
    } else {
        match spec_parse_host(spec_strip_prefix(parts[0])) {
            Err(e) => Err(e),
            Ok(dest) => {
                let ht = num_token(parts[1]);
                if !(is_dec_str(ht) && dec_val(ht) <= usize::MAX as int) {
                    Err(LookoutError::Parse(ParseSource::Header, ParseErrorKind::MalformedNumber))
                } else {
                    let pt = num_token(parts[2]);
                    if !(is_dec_str(pt) && dec_val(pt) <= usize::MAX as int) {
                        Err(LookoutError::Parse(
                            ParseSource::Header,
                            ParseErrorKind::MalformedNumber,
                        ))
                    } else {
                        Ok(SpecHeader {
                            destination: dest,
                            max_hops: dec_val(ht),
                            packet_size: dec_val(pt),
                        })
                    }
                }
            },
        }
    }
}

/// Whether an executable parse result matches the spec-level one on this
/// line.
pub open spec fn header_result_matches(
    s: Seq<char>,
    r: Result<TracerouteHeader, LookoutError>,
) -> bool {
    match r {
        Ok(h) => spec_parse_header(s) == Ok::<SpecHeader, LookoutError>(h@),
        Err(e) => spec_parse_header(s) == Err::<SpecHeader, LookoutError>(e),
    }
}

/// The header phrase, as characters.
fn header_prefix_chars() -> (v: Vec<char>)
    ensures
        v@ == header_prefix(),
{
    let mut v: Vec<char> = Vec::new();
    v.push('t');
    v.push('r');
    v.push('a');
    v.push('c');
    v.push('e');
    v.push('r');
    v.push('o');
    v.push('u');
    v.push('t');
    v.push('e');
    v.push(' ');
    v.push('t');
    v.push('o');
    v.push(' ');
    proof {
        assert(v@ =~= header_prefix());
    }
    v
}

/// Strip every repetition of the header phrase off the front.
fn strip_header_prefix<'a>(s: &'a [char]) -> (r: &'a [char])
    ensures
        r@ == spec_strip_prefix(s@),
    decreases s@.len(),
{
    let p = header_prefix_chars();
    if starts_with_exec(s, p.as_slice()) {
        let rest = &s[p.len()..s.len()];
        assert(rest@ == s@.skip(header_prefix().len() as int));
        strip_header_prefix(rest)
    } else {
        s
    }
}

/// The first space-separated token of the trimmed segment.
fn num_token_exec(seg: &[char]) -> (t: Vec<char>)
    ensures
        t@ == num_token(seg@),
{
    let trimmed = trim_exec(seg);
    let mut parts = split_on_exec(trimmed, ' ');
    let first = parts.remove(0);
    proof {
        assert(first@ == spec_split_on(spec_trim(seg@), ' ')[0]);
    }
    first
}

/// Parse the header line from its characters.
pub(crate) fn parse_header_chars(line: &[char]) -> (r: Result<TracerouteHeader, LookoutError>)
    ensures
        header_result_matches(line@, r),
{
    let parts = split_on_exec(line, ',');
    let ghost gparts = spec_split_on(line@, ',');
    if parts.len() < 3 {
        return Err(LookoutError::Parse(ParseSource::Header, ParseErrorKind::MissingField));
    }
    proof {
        assert(parts@[0]@ == gparts[0] && parts@[1]@ == gparts[1] && parts@[2]@ == gparts[2]);
    }
    let seg0 = strip_header_prefix(parts[0].as_slice());
    let toks0 = split_ws_exec(seg0);
    let destination = match parse_host_toks(toks0.as_slice()) {
        Ok(h) => h,
        Err(e) => {
            return Err(e);
        },
    };
    let ht = num_token_exec(parts[1].as_slice());
    let max_hops: usize = match parse_dec_bounded(ht.as_slice(), usize::MAX as u64) {
        Some(v) => v as usize,
        None => {
            return Err(LookoutError::Parse(
                ParseSource::Header,
                ParseErrorKind::MalformedNumber,
            ));
        },
    };
    let pt = num_token_exec(parts[2].as_slice());
    let packet_size: usize = match parse_dec_bounded(pt.as_slice(), usize::MAX as u64) {
        Some(v) => v as usize,
        None => {
            return Err(LookoutError::Parse(
                ParseSource::Header,
                ParseErrorKind::MalformedNumber,
            ));
        },
    };
    Ok(TracerouteHeader { destination, max_hops, packet_size })
}

impl TracerouteHeader {
    /// Parse the first line of traceroute output.
    pub fn from_str(s: &str) -> (r: Result<TracerouteHeader, LookoutError>)
        ensures
            header_result_matches(s@, r),
    {
        let chars = str_to_chars(s);
        parse_header_chars(chars.as_slice())
    }

    /// The canonical text of this header line.
    pub fn to_text(&self) -> (r: String)
        ensures
            r@ == spec_header_text(self@),
    {
        let mut part0 = header_prefix_chars();
        let dest = self.destination.to_text();
        let destc = str_to_chars(dest.as_str());
        push_all(&mut part0, destc.as_slice());

        let mut part1: Vec<char> = Vec::new();
        part1.push(' ');
        let hops = u64_to_chars(self.max_hops as u64);
        push_all(&mut part1, hops.as_slice());
        part1.push(' ');
        part1.push('h');
        part1.push('o');
        part1.push('p');
        part1.push('s');
        part1.push(' ');
        part1.push('m');
        part1.push('a');
        part1.push('x');

        let mut part2: Vec<char> = Vec::new();
        part2.push(' ');
        let size = u64_to_chars(self.packet_size as u64);
        push_all(&mut part2, size.as_slice());
        part2.push(' ');
        part2.push('b');
        part2.push('y');
        part2.push('t');
        part2.push('e');
        part2.push(' ');
        part2.push('p');
        part2.push('a');
        part2.push('c');
        part2.push('k');
        part2.push('e');
        part2.push('t');
        part2.push('s');

        let mut parts: Vec<Vec<char>> = Vec::new();
        parts.push(part0);
        parts.push(part1);
        parts.push(part2);
        proof {
            let gp = header_parts(self@);
            assert(parts@[0]@ =~= gp[0]);
            assert(parts@[1]@ =~= seq![' '] + dec_str(self@.max_hops as nat) + seq![' ']
                + hops_words());
            assert(parts@[2]@ =~= seq![' '] + dec_str(self@.packet_size as nat) + seq![' ']
                + size_words());
            assert(parts@.map_values(|t: Vec<char>| t@) =~= gp);
        }
        let v = crate::text::join_exec(parts.as_slice(), ',');
        chars_to_string(&v)
    }
}

/// The words after the hop limit.
pub open spec fn hops_words() -> Seq<char> {
    seq!['h', 'o', 'p', 's', ' ', 'm', 'a', 'x']
}

/// The words after the packet size.
pub open spec fn size_words() -> Seq<char> {
    seq!['b', 'y', 't', 'e', ' ', 'p', 'a', 'c', 'k', 'e', 't', 's']
}

/// The three comma-separated segments of a canonical header line.
pub open spec fn header_parts(h: SpecHeader) -> Seq<Seq<char>> {
    seq![
        header_prefix() + spec_host_text(h.destination),
        seq![' '] + dec_str(h.max_hops as nat) + seq![' '] + hops_words(),
        seq![' '] + dec_str(h.packet_size as nat) + seq![' '] + size_words(),
    ]
}

/// Canonical text of a header line:
/// "traceroute to {host}, {hops} hops max, {size} byte packets".
pub open spec fn spec_header_text(h: SpecHeader) -> Seq<char> {
    crate::text::join_with(header_parts(h), ',')
}

/// The headers the canonical form can carry: a well-formed destination
/// whose hostname has no comma and whose text does not itself open with the
/// header phrase, and limits that fit the machine.
pub open spec fn header_wf(h: SpecHeader) -> bool {
    &&& host_wf(h.destination)
    &&& no_char(h.destination.hostname, ',')
    &&& !spec_starts_with(spec_host_text(h.destination), header_prefix())
    &&& 0 <= h.max_hops <= usize::MAX as int
    &&& 0 <= h.packet_size <= usize::MAX as int
}

/// The canonical host text has no comma when the hostname has none.
pub proof fn lemma_host_text_no_comma(h: SpecHost)
    requires
        no_char(h.hostname, ','),
    ensures
        no_char(spec_host_text(h), ','),
{
    lemma_ip_text_no_char(h.ip, ',');
    assert(no_char(seq![' ', '('], ',')) by {
        assert(forall|i: int| 0 <= i < 2 ==> seq![' ', '('][i] != ',');
    }
    assert(no_char(seq![')'], ','));
    lemma_concat_no_char(h.hostname, seq![' ', '('], ',');
    lemma_concat_no_char(h.hostname + seq![' ', '('], spec_ip_text(h.ip), ',');
    lemma_concat_no_char(h.hostname + seq![' ', '('] + spec_ip_text(h.ip), seq![')'], ',');
    match h.asn {
        None => {
            assert(spec_host_text(h) =~= h.hostname + seq![' ', '('] + spec_ip_text(h.ip)
                + seq![')']);
        },
        Some(a) => {
            lemma_dec_str(a.0 as nat);
            lemma_digits_no_char(dec_str(a.0 as nat), ',');
            assert(no_char(seq![' ', '[', 'A', 'S'], ',')) by {
                assert(forall|i: int| 0 <= i < 4 ==> seq![' ', '[', 'A', 'S'][i] != ',');
            }
            let tailpart = seq![' ', '['] + spec_asn_text(a) + seq![']'];
            assert(tailpart =~= seq![' ', '[', 'A', 'S'] + dec_str(a.0 as nat) + seq![']']);
            lemma_concat_no_char(seq![' ', '[', 'A', 'S'], dec_str(a.0 as nat), ',');
            lemma_concat_no_char(seq![' ', '[', 'A', 'S'] + dec_str(a.0 as nat), seq![']'], ',');
            lemma_concat_no_char(
                h.hostname + seq![' ', '('] + spec_ip_text(h.ip) + seq![')'],
                tailpart,
                ',',
            );
            assert(spec_host_text(h) =~= (h.hostname + seq![' ', '('] + spec_ip_text(h.ip)
                + seq![')']) + tailpart);
        },
    }
}

/// Round trip: the canonical text of a well-formed header parses back to
/// it.
pub proof fn lemma_header_round_trip(h: SpecHeader)
    requires
        header_wf(h),
    ensures
        spec_parse_header(spec_header_text(h)) == Ok::<SpecHeader, LookoutError>(h),
{
    let s = spec_header_text(h);
    let parts = header_parts(h);
    let htext = spec_host_text(h.destination);
    let hopsn = dec_str(h.max_hops as nat);
    let sizen = dec_str(h.packet_size as nat);
    lemma_dec_str(h.max_hops as nat);
    lemma_dec_str(h.packet_size as nat);

    // the three segments are comma-free, so splitting recovers them
    assert forall|i: int| 0 <= i < parts.len() implies no_char(#[trigger] parts[i], ',') by {
        lemma_host_text_no_comma(h.destination);
        assert(no_char(header_prefix(), ',')) by {
            assert(forall|j: int| 0 <= j < 14 ==> header_prefix()[j] != ',');
        }
        lemma_concat_no_char(header_prefix(), htext, ',');
        lemma_digits_no_char(hopsn, ',');
        lemma_digits_no_char(sizen, ',');
        assert(no_char(seq![' '], ','));
        assert(no_char(hops_words(), ',')) by {
            assert(forall|j: int| 0 <= j < 8 ==> hops_words()[j] != ',');
        }
        assert(no_char(size_words(), ',')) by {
            assert(forall|j: int| 0 <= j < 12 ==> size_words()[j] != ',');
        }
        lemma_concat_no_char(seq![' '], hopsn, ',');
        lemma_concat_no_char(seq![' '] + hopsn, seq![' '], ',');
        lemma_concat_no_char(seq![' '] + hopsn + seq![' '], hops_words(), ',');
        lemma_concat_no_char(seq![' '], sizen, ',');
        lemma_concat_no_char(seq![' '] + sizen, seq![' '], ',');
        lemma_concat_no_char(seq![' '] + sizen + seq![' '], size_words(), ',');
    }
    crate::text::lemma_split_on_join(parts, ',');
    assert(spec_split_on(s, ',') == parts);

    // segment one: strip the phrase, then the host round trip
    let part0 = parts[0];
    assert(spec_starts_with(part0, header_prefix())) by {
        assert(part0.take(header_prefix().len() as int) =~= header_prefix());
    }
    assert(part0.skip(header_prefix().len() as int) =~= htext);
    assert(spec_strip_prefix(part0) == spec_strip_prefix(htext));
    assert(spec_strip_prefix(htext) == htext);
    lemma_host_round_trip(h.destination);

    // segment two: trimming drops the single leading space, and the hop
    // limit is the first token
    let part1 = parts[1];
    let x1 = hopsn + seq![' '] + hops_words();
    assert(part1.skip(1) =~= x1);
    assert(part1[0] == ' ');
    assert(x1[0] == hopsn[0]);
    assert(crate::text::is_digit_char(hopsn[0]));
    assert(!is_space_char(x1[0]));
    assert(spec_trim_start(x1) == x1);
    assert(spec_trim_start(part1) == x1);
    assert(x1[x1.len() - 1] == hops_words()[hops_words().len() - 1]);
    assert(!is_space_char(x1[x1.len() - 1]));
    assert(spec_trim_end(x1) == x1);
    lemma_digits_no_space(hopsn);
    lemma_run_len_concat(hopsn, hops_words(), ' ');
    crate::text::lemma_run_len(x1, ' ');
    assert(num_token(part1) =~= hopsn) by {
        assert(spec_split_on(x1, ' ')[0] == x1.take(hopsn.len() as int));
        assert(x1.take(hopsn.len() as int) =~= hopsn);
    }

    // segment three, the same way
    let part2 = parts[2];
    let x2 = sizen + seq![' '] + size_words();
    assert(part2.skip(1) =~= x2);
    assert(part2[0] == ' ');
    assert(x2[0] == sizen[0]);
    assert(crate::text::is_digit_char(sizen[0]));
    assert(!is_space_char(x2[0]));
    assert(spec_trim_start(x2) == x2);
    assert(spec_trim_start(part2) == x2);
    assert(x2[x2.len() - 1] == size_words()[size_words().len() - 1]);
    assert(!is_space_char(x2[x2.len() - 1]));
    assert(spec_trim_end(x2) == x2);
    lemma_digits_no_space(sizen);
    lemma_run_len_concat(sizen, size_words(), ' ');
    crate::text::lemma_run_len(x2, ' ');
    assert(num_token(part2) =~= sizen) by {
        assert(spec_split_on(x2, ' ')[0] == x2.take(sizen.len() as int));
        assert(x2.take(sizen.len() as int) =~= sizen);
    }

    assert(spec_parse_header(s) == Ok::<SpecHeader, LookoutError>(
        SpecHeader { destination: h.destination, max_hops: dec_val(hopsn),
            packet_size: dec_val(sizen) },
    ));
    assert((SpecHeader { destination: h.destination, max_hops: dec_val(hopsn),
        packet_size: dec_val(sizen) }) =~= h);
}

/// The mathematical form of one hop line: three probe slots, each with an
/// optional round-trip time and an optional host.
#[verifier::ext_equal]
pub struct SpecHop {
    pub rtts: Seq<Option<int>>,
    pub hosts: Seq<Option<SpecHost>>,
}

/// One hop of a traceroute: up to three probes, each with a round-trip
/// time (absent on timeout) and the host that answered (absent on timeout,
/// carried forward within the line when the tool omits a repeated host).
#[derive(Debug, PartialEq, Eq)]
pub struct TracerouteHop {
    pub rtts: [Option<isize>; 3],
    pub hosts: [Option<Host>; 3],
}

impl View for TracerouteHop {
    type V = SpecHop;

    open spec fn view(&self) -> SpecHop {
        SpecHop {
            rtts: self.rtts@.map_values(|o: Option<isize>| match o {
                Some(v) => Some(v as int),
                None => None,
            }),
            hosts: self.hosts@.map_values(|o: Option<Host>| opt_host_view(o)),
        }
    }
}

/// The spec-level image of an optional host.
pub open spec fn opt_host_view(o: Option<Host>) -> Option<SpecHost> {
    match o {
        Some(h) => Some(h@),
        None => None,
    }
}

/// The spec-level image of one parsed probe slot.
pub open spec fn slot_view(s: (Option<isize>, Option<Host>)) -> (Option<int>, Option<SpecHost>) {
    (
        match s.0 {
            Some(v) => Some(v as int),
            None => None,
        },
        opt_host_view(s.1),
    )
}

/// A token that opens a probe slot: the timeout marker, or a round-trip
/// time.
pub open spec fn is_slot_start(t: Seq<char>) -> bool {
    t == seq!['*'] || crate::text::spec_parse_int(t) is Some
}

/// The grammar of the probe slots of one hop line, over its remaining
/// tokens. Each slot is either the timeout marker "*" (no time, no host)
/// or a round-trip time, optionally followed by a host group — hostname,
/// parenthesised address, and a bracketed token when one follows. A slot
/// with a time but no host group repeats the last host seen on this line.
pub open spec fn spec_parse_slots(
    toks: Seq<Seq<char>>,
    last: Option<SpecHost>,
) -> Result<Seq<(Option<int>, Option<SpecHost>)>, LookoutError>
    decreases toks.len(),
{
    if toks.len() == 0 {
        Ok(Seq::empty())
    } else if toks[0] == seq!['*'] {
        match spec_parse_slots(toks.skip(1), last) {
            Ok(rest) => Ok(seq![(None::<int>, None::<SpecHost>)] + rest),
            Err(e) => Err(e),
        }
    } else {
        match crate::text::spec_parse_int(toks[0]) {
            None => Err(LookoutError::Parse(ParseSource::Hop, ParseErrorKind::MalformedNumber)),
            Some(v) => {
                if !(isize::MIN <= v <= isize::MAX) {
                    Err(LookoutError::Parse(ParseSource::Hop, ParseErrorKind::MalformedNumber))
                } else if toks.len() >= 2 && !is_slot_start(toks[1]) {
                    let glen: int = if toks.len() >= 4 && toks[3].len() > 0 && toks[3][0] == '[' {
                        3
                    } else if toks.len() >= 3 {
                        2
                    } else {
                        1
                    };
                    match spec_parse_host_toks(toks.subrange(1, 1 + glen)) {
                        Err(e) => Err(e),
                        Ok(h) => match spec_parse_slots(toks.skip(1 + glen), Some(h)) {
                            Ok(rest) => Ok(seq![(Some(v), Some(h))] + rest),
                            Err(e) => Err(e),
                        },
                    }
                } else {
                    match spec_parse_slots(toks.skip(1), last) {
                        Ok(rest) => Ok(seq![(Some(v), last)] + rest),
                        Err(e) => Err(e),
                    }
                }
            },
        }
    }
}

/// The time of slot `i`, absent past the parsed slots.
pub open spec fn slot_rtt(slots: Seq<(Option<int>, Option<SpecHost>)>, i: int) -> Option<int> {
    if i < slots.len() {
        slots[i].0
    } else {
        None
    }
}

/// The host of slot `i`, absent past the parsed slots.
pub open spec fn slot_host(
    slots: Seq<(Option<int>, Option<SpecHost>)>,
    i: int,
) -> Option<SpecHost> {
    if i < slots.len() {
        slots[i].1
    } else {
        None
    }
}

/// The hop record of at most three parsed slots, padded with absences.
pub open spec fn spec_hop_of_slots(slots: Seq<(Option<int>, Option<SpecHost>)>) -> SpecHop {
    SpecHop {
        rtts: seq![slot_rtt(slots, 0), slot_rtt(slots, 1), slot_rtt(slots, 2)],
        hosts: seq![slot_host(slots, 0), slot_host(slots, 1), slot_host(slots, 2)],
    }
}

/// The grammar of one hop line: the hop's number, then at most three probe
/// slots.
pub open spec fn spec_parse_hop(s: Seq<char>) -> Result<SpecHop, LookoutError> {
    let toks = spec_split_ws(s);
    if toks.len() == 0 {
        Err(LookoutError::Parse(ParseSource::Hop, ParseErrorKind::MissingField))
    } else if !is_dec_str(toks[0]) {
        Err(LookoutError::Parse(ParseSource::Hop, ParseErrorKind::MalformedNumber))
    } else {
        match spec_parse_slots(toks.skip(1), None) {
            Err(e) => Err(e),
            Ok(slots) => {
                if slots.len() > 3 {
                    Err(LookoutError::Parse(ParseSource::Hop, ParseErrorKind::ExcessFields))
                } else {
                    Ok(spec_hop_of_slots(slots))
                }
            },
        }
    }
}

/// Whether an executable parse result matches the spec-level one on this
/// line.
pub open spec fn hop_result_matches(
    s: Seq<char>,
    r: Result<TracerouteHop, LookoutError>,
) -> bool {
    match r {
        Ok(h) => spec_parse_hop(s) == Ok::<SpecHop, LookoutError>(h@),
        Err(e) => spec_parse_hop(s) == Err::<SpecHop, LookoutError>(e),
    }
}

/// Whether this token opens a probe slot.
fn is_slot_start_exec(t: &[char]) -> (b: bool)
    ensures
        b == is_slot_start(t@),
{
    if t.len() == 1 && t[0] == '*' {
        proof {
            assert(t@ =~= seq!['*']);
        }
        true
    } else {
        proof {
            if t@ == seq!['*'] {
                assert(t@.len() == 1 && t@[0] == '*');
            }
        }
        crate::text::int_syntax(t)
    }
}

/// Clone an optional host, keeping its value.
fn clone_opt_host(o: &Option<Host>) -> (r: Option<Host>)
    ensures
        opt_host_view(r) == opt_host_view(*o),
{
    match o {
        Some(h) => Some(h.clone()),
        None => None,
    }
}

/// Parse the probe slots of one hop line from its remaining tokens,
/// carrying the last host seen on the line.
pub(crate) fn parse_slots(toks: &[Vec<char>], last: Option<Host>) -> (r: Result<
    Vec<(Option<isize>, Option<Host>)>,
    LookoutError,
>)
    ensures
        ({
            let gtoks = toks@.map_values(|t: Vec<char>| t@);
            match r {
                Ok(v) => spec_parse_slots(gtoks, opt_host_view(last))
                    == Ok::<Seq<(Option<int>, Option<SpecHost>)>, LookoutError>(
                    v@.map_values(|s: (Option<isize>, Option<Host>)| slot_view(s)),
                ),
                Err(e) => spec_parse_slots(gtoks, opt_host_view(last))
                    == Err::<Seq<(Option<int>, Option<SpecHost>)>, LookoutError>(e),
            }
        }),
    decreases toks@.len(),
{
    let ghost gtoks = toks@.map_values(|t: Vec<char>| t@);
    if toks.len() == 0 {
        let v: Vec<(Option<isize>, Option<Host>)> = Vec::new();
        proof {
            assert(v@.map_values(|s: (Option<isize>, Option<Host>)| slot_view(s))
                =~= Seq::<(Option<int>, Option<SpecHost>)>::empty());
        }
        return Ok(v);
    }
    let t0 = toks[0].as_slice();
    proof {
        assert(t0@ == gtoks[0]);
    }
    if t0.len() == 1 && t0[0] == '*' {
        proof {
            assert(t0@ =~= seq!['*']);
        }
        let tail = &toks[1..toks.len()];
        proof {
            assert(tail@.map_values(|t: Vec<char>| t@) =~= gtoks.skip(1));
        }
        match parse_slots(tail, last) {
            Ok(mut rest) => {
                let ghost grest = rest@.map_values(
                    |s: (Option<isize>, Option<Host>)| slot_view(s),
                );
                rest.insert(0, (None, None));
                proof {
                    assert(rest@.map_values(|s: (Option<isize>, Option<Host>)| slot_view(s))
                        =~= seq![(None::<int>, None::<SpecHost>)] + grest);
                }
                Ok(rest)
            },
            Err(e) => Err(e),
        }
    } else {
        proof {
            if t0@ == seq!['*'] {
                assert(t0@.len() == 1 && t0@[0] == '*');
            }
        }
        match crate::text::parse_int_isize(t0) {
            None => Err(LookoutError::Parse(ParseSource::Hop, ParseErrorKind::MalformedNumber)),
            Some(v) => {
                let mut group_follows = false;
                if toks.len() >= 2 {
                    proof {
                        assert(toks@[1]@ == gtoks[1]);
                    }
                    group_follows = !is_slot_start_exec(toks[1].as_slice());
                }
                if group_follows {
                    let glen: usize;
                    if toks.len() >= 4 {
                        let t3 = toks[3].as_slice();
                        proof {
                            assert(t3@ == gtoks[3]);
                        }
                        glen = if t3.len() > 0 && t3[0] == '[' {
                            3
                        } else {
                            2
                        };
                    } else if toks.len() >= 3 {
                        glen = 2;
                    } else {
                        glen = 1;
                    }
                    let sub = &toks[1..1 + glen];
                    proof {
                        assert(sub@.map_values(|t: Vec<char>| t@)
                            =~= gtoks.subrange(1, 1 + glen as int));
                    }
                    match parse_host_toks(sub) {
                        Err(e) => Err(e),
                        Ok(h) => {
                            let h2 = h.clone();
                            let tail = &toks[1 + glen..toks.len()];
                            proof {
                                assert(tail@.map_values(|t: Vec<char>| t@)
                                    =~= gtoks.skip(1 + glen as int));
                            }
                            match parse_slots(tail, Some(h)) {
                                Err(e) => Err(e),
                                Ok(mut rest) => {
                                    let ghost grest = rest@.map_values(
                                        |s: (Option<isize>, Option<Host>)| slot_view(s),
                                    );
                                    rest.insert(0, (Some(v), Some(h2)));
                                    proof {
                                        assert(rest@.map_values(
                                            |s: (Option<isize>, Option<Host>)| slot_view(s),
                                        ) =~= seq![(Some(v as int), Some(h2@))] + grest);
                                    }
                                    Ok(rest)
                                },
                            }
                        },
                    }
                } else {
                    let last2 = clone_opt_host(&last);
                    let tail = &toks[1..toks.len()];
                    proof {
                        assert(tail@.map_values(|t: Vec<char>| t@) =~= gtoks.skip(1));
                    }
                    match parse_slots(tail, last2) {
                        Err(e) => Err(e),
                        Ok(mut rest) => {
                            let ghost grest = rest@.map_values(
                                |s: (Option<isize>, Option<Host>)| slot_view(s),
                            );
                            rest.insert(0, (Some(v), last));
                            proof {
                                assert(rest@.map_values(
                                    |s: (Option<isize>, Option<Host>)| slot_view(s),
                                ) =~= seq![(Some(v as int), opt_host_view(last))] + grest);
                            }
                            Ok(rest)
                        },
                    }
                }
            },
        }
    }
}

/// Parse one hop line from its characters.
pub(crate) fn parse_hop_chars(line: &[char]) -> (r: Result<TracerouteHop, LookoutError>)
    ensures
        hop_result_matches(line@, r),
{
    let toks = split_ws_exec(line);
    let ghost gtoks = spec_split_ws(line@);
    if toks.len() == 0 {
        return Err(LookoutError::Parse(ParseSource::Hop, ParseErrorKind::MissingField));
    }
    proof {
        assert(toks@[0]@ == gtoks[0]);
    }
    if !crate::text::is_dec_exec(toks[0].as_slice()) {
        return Err(LookoutError::Parse(ParseSource::Hop, ParseErrorKind::MalformedNumber));
    }
    let tail = &toks[1..toks.len()];
    proof {
        assert(tail@.map_values(|t: Vec<char>| t@) =~= gtoks.skip(1));
    }
    match parse_slots(tail, None) {
        Err(e) => Err(e),
        Ok(slots) => {
            let ghost gslots = slots@.map_values(|s: (Option<isize>, Option<Host>)| slot_view(s));
            if slots.len() > 3 {
                return Err(LookoutError::Parse(ParseSource::Hop, ParseErrorKind::ExcessFields));
            }
            let r0: Option<isize> = if slots.len() > 0 { slots[0].0 } else { None };
            let r1: Option<isize> = if slots.len() > 1 { slots[1].0 } else { None };
            let r2: Option<isize> = if slots.len() > 2 { slots[2].0 } else { None };
            let h0: Option<Host> = if slots.len() > 0 { clone_opt_host(&slots[0].1) } else { None };
            let h1: Option<Host> = if slots.len() > 1 { clone_opt_host(&slots[1].1) } else { None };
            let h2: Option<Host> = if slots.len() > 2 { clone_opt_host(&slots[2].1) } else { None };
            let hop = TracerouteHop { rtts: [r0, r1, r2], hosts: [h0, h1, h2] };
            proof {
                assert(hop.rtts@ =~= seq![r0, r1, r2]);
                assert(hop.hosts@ =~= seq![h0, h1, h2]);
                assert(hop@ =~= spec_hop_of_slots(gslots));
            }
            Ok(hop)
        },
    }
}

impl TracerouteHop {
    /// Parse one per-hop line of traceroute output.
    pub fn from_str(s: &str) -> (r: Result<TracerouteHop, LookoutError>)
        ensures
            hop_result_matches(s@, r),
    {
        let chars = str_to_chars(s);
        parse_hop_chars(chars.as_slice())
    }
}

/// The mathematical form of a whole traceroute result.
#[verifier::ext_equal]
pub struct SpecResult {
    pub header: SpecHeader,
    pub hops: Seq<SpecHop>,
}

/// A whole parsed traceroute: the header line, then one record per hop
/// line.
#[derive(Debug, PartialEq, Eq)]
pub struct TracerouteResult {
    pub header: TracerouteHeader,
    pub hops: Vec<TracerouteHop>,
}

impl View for TracerouteResult {
    type V = SpecResult;

    open spec fn view(&self) -> SpecResult {
        SpecResult {
            header: self.header@,
            hops: self.hops@.map_values(|h: TracerouteHop| h@),
        }
    }
}

/// The hop records of the lines after the header; lines of nothing but
/// whitespace are passed over.
pub open spec fn spec_parse_hop_lines(lines: Seq<Seq<char>>) -> Result<Seq<SpecHop>, LookoutError>
    decreases lines.len(),
{
    if lines.len() == 0 {
        Ok(Seq::empty())
    } else if spec_trim(lines[0]).len() == 0 {
        spec_parse_hop_lines(lines.skip(1))
    } else {
        match spec_parse_hop(lines[0]) {
            Err(e) => Err(e),
            Ok(h) => match spec_parse_hop_lines(lines.skip(1)) {
                Ok(rest) => Ok(seq![h] + rest),
                Err(e) => Err(e),
            },
        }
    }
}

/// The grammar of a whole traceroute output: the first line is the header,
/// every further non-blank line is a hop.
pub open spec fn spec_parse_result(s: Seq<char>) -> Result<SpecResult, LookoutError> {
    let lines = spec_split_on(s, '\n');
    match spec_parse_header(lines[0]) {
        Err(e) => Err(e),
        Ok(header) => match spec_parse_hop_lines(lines.skip(1)) {
            Err(e) => Err(e),
            Ok(hops) => Ok(SpecResult { header, hops }),
        },
    }
}

/// Whether an executable parse result matches the spec-level one on this
/// output.
pub open spec fn result_matches(
    s: Seq<char>,
    r: Result<TracerouteResult, LookoutError>,
) -> bool {
    match r {
        Ok(t) => spec_parse_result(s) == Ok::<SpecResult, LookoutError>(t@),
        Err(e) => spec_parse_result(s) == Err::<SpecResult, LookoutError>(e),
    }
}

/// Parse the hop lines after the header.
fn parse_hop_lines(lines: &[Vec<char>]) -> (r: Result<Vec<TracerouteHop>, LookoutError>)
    ensures
        ({
            let glines = lines@.map_values(|t: Vec<char>| t@);
            match r {
                Ok(v) => spec_parse_hop_lines(glines) == Ok::<Seq<SpecHop>, LookoutError>(
                    v@.map_values(|h: TracerouteHop| h@),
                ),
                Err(e) => spec_parse_hop_lines(glines) == Err::<Seq<SpecHop>, LookoutError>(e),
            }
        }),
    decreases lines@.len(),
{
    let ghost glines = lines@.map_values(|t: Vec<char>| t@);
    if lines.len() == 0 {
        let v: Vec<TracerouteHop> = Vec::new();
        proof {
            assert(v@.map_values(|h: TracerouteHop| h@) =~= Seq::<SpecHop>::empty());
        }
        return Ok(v);
    }
    proof {
        assert(lines@[0]@ == glines[0]);
    }
    let trimmed = trim_exec(lines[0].as_slice());
    let tail = &lines[1..lines.len()];
    proof {
        assert(tail@.map_values(|t: Vec<char>| t@) =~= glines.skip(1));
    }
    if trimmed.len() == 0 {
        return parse_hop_lines(tail);
    }
    match parse_hop_chars(lines[0].as_slice()) {
        Err(e) => Err(e),
        Ok(h) => match parse_hop_lines(tail) {
            Err(e) => Err(e),
            Ok(mut rest) => {
                let ghost grest = rest@.map_values(|x: TracerouteHop| x@);
                let ghost gh = h@;
                rest.insert(0, h);
                proof {
                    assert(rest@.map_values(|x: TracerouteHop| x@) =~= seq![gh] + grest);
                }
                Ok(rest)
            },
        },
    }
}

impl TracerouteResult {
    /// Parse a whole traceroute output.
    pub fn from_output(s: &str) -> (r: Result<TracerouteResult, LookoutError>)
        ensures
            result_matches(s@, r),
    {
        let chars = str_to_chars(s);
        let lines = split_on_exec(chars.as_slice(), '\n');
        let ghost glines = spec_split_on(s@, '\n');
        proof {
            assert(lines@[0]@ == glines[0]);
        }
        let header = match parse_header_chars(lines[0].as_slice()) {
            Ok(h) => h,
            Err(e) => {
                return Err(e);
            },
        };
        let tail = &lines[1..lines.len()];
        proof {
            assert(tail@.map_values(|t: Vec<char>| t@) =~= glines.skip(1));
        }
        match parse_hop_lines(tail) {
            Err(e) => Err(e),
            Ok(hops) => Ok(TracerouteResult { header, hops }),
        }
    }
}

} // verus!
