//! IP addresses as the probe tools print them: dotted-quad IPv4
//! ("198.51.100.7") and colon-separated hexadecimal IPv6, with a single
//! "::" allowed to stand for a run of zero groups ("2001:db8::1").
//!
//! The address is held as plain integers, so everything that reads one —
//! host records, formatting, dispatch — works on values this crate can
//! reason about. Mapped-IPv4 spellings of IPv6 addresses ("::ffff:0:1.2.3.4")
//! are not recognised.

use vstd::prelude::*;

use crate::text::{
    all_hex, dec_str, dec_val, hex_digit_val, hex_str, hex_val, is_dec_str, is_hex_char,
    join_exec, join_with, lemma_dec_str, lemma_digits_no_char, lemma_hex_no_char,
    lemma_hex_str, lemma_hex_val_step, lemma_run_len_no_sep, lemma_split_on_join,
    parse_dec_bounded, spec_split_on, split_on_exec, str_to_chars, chars_to_string,
    u64_to_chars, u16_to_hex_chars,
};

verus! {

/// An IP address: four octets, or eight sixteen-bit groups.
#[derive(Clone, Copy, Debug, PartialEq, Eq, Structural)]
pub enum Ip {
    V4(u8, u8, u8, u8),
    V6(u16, u16, u16, u16, u16, u16, u16, u16),
}

/// A dotted-quad octet: decimal, at most 255, with a leading zero only for
/// "0" itself.
pub open spec fn valid_octet(s: Seq<char>) -> bool {
    is_dec_str(s) && dec_val(s) <= 255 && (s[0] == '0' ==> s.len() == 1)
}

/// The dotted-quad grammar: exactly four valid octets.
pub open spec fn spec_parse_ipv4(s: Seq<char>) -> Option<Ip> {
    let parts = spec_split_on(s, '.');
    if parts.len() == 4 && valid_octet(parts[0]) && valid_octet(parts[1])
        && valid_octet(parts[2]) && valid_octet(parts[3]) {
        Some(Ip::V4(
            dec_val(parts[0]) as u8,
            dec_val(parts[1]) as u8,
            dec_val(parts[2]) as u8,
            dec_val(parts[3]) as u8,
        ))
    } else {
        None
    }
}

/// An IPv6 group: one to four hexadecimal digits.
pub open spec fn valid_hex_group(s: Seq<char>) -> bool {
    1 <= s.len() <= 4 && all_hex(s)
}

/// Sixteen to the power of `k`, for `k` in [0, 4].
pub open spec fn pow16(k: int) -> int {
    if k <= 0 { 1 }
    else if k == 1 { 16 }
    else if k == 2 { 256 }
    else if k == 3 { 4096 }
    else { 65536 }
}

/// The value of at most four hex digits stays under sixteen to their count.
pub proof fn lemma_hex_val_bound(s: Seq<char>)
    requires
        all_hex(s),
        s.len() <= 4,
    ensures
        0 <= hex_val(s) < pow16(s.len() as int),
    decreases s.len(),
{
    if s.len() > 0 {
        let prefix = s.take(s.len() - 1);
        assert(all_hex(prefix)) by {
            assert(forall|i: int| 0 <= i < prefix.len() ==> prefix[i] == s[i]);
        }
        lemma_hex_val_bound(prefix);
        assert(is_hex_char(s[s.len() - 1]));
        crate::text::lemma_hex_digit_val_bounds(s[s.len() - 1]);
    }
}

/// Index of the first empty segment, or the segment count when none is
/// empty.
pub open spec fn first_empty(segs: Seq<Seq<char>>) -> int
    decreases segs.len(),
{
    if segs.len() == 0 {
        0
    } else if segs[0].len() == 0 {
        0
    } else {
        1 + first_empty(segs.skip(1))
    }
}

/// `first_empty` is the unique index with no empty segment before it and an
/// empty one (or the end) at it.
pub proof fn lemma_first_empty_is(segs: Seq<Seq<char>>, f: int)
    requires
        0 <= f <= segs.len(),
        forall|j: int| 0 <= j < f ==> #[trigger] segs[j].len() > 0,
        f < segs.len() ==> segs[f].len() == 0,
    ensures
        first_empty(segs) == f,
    decreases segs.len(),
{
    if segs.len() > 0 && f > 0 {
        assert(segs[0].len() > 0);
        assert(forall|j: int| 0 <= j < segs.skip(1).len() ==> segs.skip(1)[j] == segs[j + 1]);
        lemma_first_empty_is(segs.skip(1), f - 1);
    }
}

/// Every segment in `[from, to)` is a valid hex group.
pub open spec fn groups_valid(segs: Seq<Seq<char>>, from: int, to: int) -> bool {
    forall|i: int| from <= i < to ==> valid_hex_group(#[trigger] segs[i])
}

/// The group standing at position `j` of the eight, when the groups before
/// the "::" are `head` and the ones after it are `tail`.
pub open spec fn v6_group_at(head: Seq<Seq<char>>, tail: Seq<Seq<char>>, j: int) -> u16 {
    if j < head.len() {
        hex_val(head[j]) as u16
    } else if j >= 8 - tail.len() {
        hex_val(tail[j - (8 - tail.len())]) as u16
    } else {
        0
    }
}

/// The address with `head` groups, then zeros, then `tail` groups.
pub open spec fn v6_of(head: Seq<Seq<char>>, tail: Seq<Seq<char>>) -> Ip {
    Ip::V6(
        v6_group_at(head, tail, 0),
        v6_group_at(head, tail, 1),
        v6_group_at(head, tail, 2),
        v6_group_at(head, tail, 3),
        v6_group_at(head, tail, 4),
        v6_group_at(head, tail, 5),
        v6_group_at(head, tail, 6),
        v6_group_at(head, tail, 7),
    )
}

/// The colon-hex grammar. Splitting on ':' leaves empty segments exactly
/// where colons are adjacent or at the ends, so a single "::" shows up as
/// one empty segment in the middle, two at an end, or three for "::" alone;
/// every other pattern of empty segments is malformed. Without "::" there
/// must be exactly eight groups; with it, at most seven.
pub open spec fn spec_parse_ipv6(s: Seq<char>) -> Option<Ip> {
    let segs = spec_split_on(s, ':');
    let n = segs.len() as int;
    let f = first_empty(segs);
    if f == n {
        if n == 8 && groups_valid(segs, 0, 8) {
            Some(v6_of(segs, Seq::empty()))
        } else {
            None
        }
    } else if f == 0 {
        if n >= 3 && segs[1].len() == 0 {
            if n == 3 && segs[2].len() == 0 {
                Some(Ip::V6(0, 0, 0, 0, 0, 0, 0, 0))
            } else if groups_valid(segs, 2, n) && n - 2 <= 7 {
                Some(v6_of(Seq::empty(), segs.skip(2)))
            } else {
                None
            }
        } else {
            None
        }
    } else if f <= n - 2 {
        if segs[f + 1].len() == 0 {
            if f == n - 2 && groups_valid(segs, 0, f) && f <= 7 {
                Some(v6_of(segs.take(f), Seq::empty()))
            } else {
                None
            }
        } else {
            if groups_valid(segs, 0, f) && groups_valid(segs, f + 1, n) && n - 1 <= 7 {
                Some(v6_of(segs.take(f), segs.skip(f + 1)))
            } else {
                None
            }
        }
    } else {
        None
    }
}

/// An IP literal: dotted quad if it reads as one, else colon-hex.
pub open spec fn spec_parse_ip(s: Seq<char>) -> Option<Ip> {
    if spec_parse_ipv4(s) is Some {
        spec_parse_ipv4(s)
    } else {
        spec_parse_ipv6(s)
    }
}

/// The four numerals of a dotted quad.
pub open spec fn v4_parts(a: u8, b: u8, c: u8, d: u8) -> Seq<Seq<char>> {
    seq![dec_str(a as nat), dec_str(b as nat), dec_str(c as nat), dec_str(d as nat)]
}

/// The eight numerals of an uncompressed colon-hex address.
pub open spec fn v6_parts(
    g0: u16, g1: u16, g2: u16, g3: u16, g4: u16, g5: u16, g6: u16, g7: u16,
) -> Seq<Seq<char>> {
    seq![
        hex_str(g0 as nat), hex_str(g1 as nat), hex_str(g2 as nat), hex_str(g3 as nat),
        hex_str(g4 as nat), hex_str(g5 as nat), hex_str(g6 as nat), hex_str(g7 as nat),
    ]
}

/// Canonical text of an address: the dotted quad, or the uncompressed
/// lowercase colon-hex form (no "::", no leading zeros within a group).
pub open spec fn spec_ip_text(ip: Ip) -> Seq<char> {
    match ip {
        Ip::V4(a, b, c, d) => join_with(v4_parts(a, b, c, d), '.'),
        Ip::V6(g0, g1, g2, g3, g4, g5, g6, g7) => join_with(
            v6_parts(g0, g1, g2, g3, g4, g5, g6, g7),
            ':',
        ),
    }
}

/// Parse one dotted-quad octet.
fn parse_octet(s: &[char]) -> (r: Option<u8>)
    ensures
        match r {
            Some(v) => valid_octet(s@) && v == dec_val(s@),
            None => !valid_octet(s@),
        },
{
    match parse_dec_bounded(s, 255) {
        Some(v) => {
            if s.len() > 1 && s[0] == '0' {
                None
            } else {
                Some(v as u8)
            }
        },
        None => None,
    }
}

/// Parse one IPv6 group of one to four hex digits.
fn parse_hex_group(s: &[char]) -> (r: Option<u16>)
    ensures
        match r {
            Some(v) => valid_hex_group(s@) && v == hex_val(s@),
            None => !valid_hex_group(s@),
        },
{
    if s.len() == 0 || s.len() > 4 {
        return None;
    }
    let mut acc: u32 = 0;
    let mut i: usize = 0;
    while i < s.len()
        invariant
            i <= s@.len() <= 4,
            all_hex(s@.take(i as int)),
            acc == hex_val(s@.take(i as int)),
            0 <= acc < pow16(i as int),
        decreases s@.len() - i,
    {
        let c = s[i];
        let d: u32 = if '0' <= c && c <= '9' {
            c as u32 - '0' as u32
        } else if 'a' <= c && c <= 'f' {
            c as u32 - 'a' as u32 + 10
        } else if 'A' <= c && c <= 'F' {
            c as u32 - 'A' as u32 + 10
        } else {
            assert(!is_hex_char(s@[i as int]));
            return None;
        };
        assert(is_hex_char(s@[i as int]) && d == hex_digit_val(s@[i as int]) && d <= 15);
        proof {
            lemma_hex_val_step(s@, i as int);
            assert(forall|j: int| 0 <= j < i + 1 ==> s@.take(i + 1)[j] == s@[j]);
        }
        acc = acc * 16 + d;
        i += 1;
    }
    proof {
        assert(s@.take(s@.len() as int) =~= s@);
    }
    Some(acc as u16)
}

/// Parse segments `[from, to)` as hex groups; `Some` exactly when all are
/// valid.
fn parse_groups(segs: &Vec<Vec<char>>, from: usize, to: usize) -> (r: Option<Vec<u16>>)
    requires
        from <= to <= segs@.len(),
    ensures
        match r {
            Some(v) => {
                &&& groups_valid(segs@.map_values(|t: Vec<char>| t@), from as int, to as int)
                &&& v@.len() == to - from
                &&& forall|j: int| 0 <= j < v@.len()
                    ==> #[trigger] v@[j] == hex_val(segs@[from + j]@) as u16
            },
            None => !groups_valid(segs@.map_values(|t: Vec<char>| t@), from as int, to as int),
        },
{
    let ghost gsegs = segs@.map_values(|t: Vec<char>| t@);
    let mut v: Vec<u16> = Vec::new();
    let mut i: usize = from;
    while i < to
        invariant
            from <= i <= to <= segs@.len(),
            gsegs == segs@.map_values(|t: Vec<char>| t@),
            groups_valid(gsegs, from as int, i as int),
            v@.len() == i - from,
            forall|j: int| 0 <= j < v@.len()
                ==> #[trigger] v@[j] == hex_val(segs@[from + j]@) as u16,
        decreases to - i,
    {
        match parse_hex_group(segs[i].as_slice()) {
            Some(g) => {
                v.push(g);
                proof {
                    assert(gsegs[i as int] == segs@[i as int]@);
                }
            },
            None => {
                proof {
                    assert(gsegs[i as int] == segs@[i as int]@);
                }
                return None;
            },
        }
        i += 1;
    }
    Some(v)
}

/// Eight group values: `head`, then zeros, then `tail`.
fn assemble_groups(head: &Vec<u16>, tail: &Vec<u16>) -> (r: Vec<u16>)
    requires
        head@.len() + tail@.len() <= 8,
    ensures
        r@.len() == 8,
        forall|j: int| 0 <= j < head@.len() ==> #[trigger] r@[j] == head@[j],
        forall|j: int| 8 - tail@.len() <= j < 8 ==> #[trigger] r@[j] == tail@[j - (8 - tail@.len())],
        forall|j: int| head@.len() <= j < 8 - tail@.len() ==> #[trigger] r@[j] == 0,
{
    let mut r: Vec<u16> = Vec::new();
    let mut i: usize = 0;
    while i < head.len()
        invariant
            i <= head@.len(),
            r@ == head@.take(i as int),
        decreases head@.len() - i,
    {
        r.push(head[i]);
        proof {
            assert(head@.take(i + 1) =~= head@.take(i as int) + seq![head@[i as int]]);
        }
        i += 1;
    }
    proof {
        assert(head@.take(head@.len() as int) =~= head@);
    }
    let zeros = 8 - head.len() - tail.len();
    let mut z: usize = 0;
    while z < zeros
        invariant
            z <= zeros,
            zeros == 8 - head@.len() - tail@.len(),
            r@.len() == head@.len() + z,
            forall|j: int| 0 <= j < head@.len() ==> #[trigger] r@[j] == head@[j],
            forall|j: int| head@.len() <= j < r@.len() ==> #[trigger] r@[j] == 0,
        decreases zeros - z,
    {
        r.push(0);
        z += 1;
    }
    let mut t: usize = 0;
    while t < tail.len()
        invariant
            t <= tail@.len(),
            r@.len() == 8 - tail@.len() + t,
            head@.len() + tail@.len() <= 8,
            forall|j: int| 0 <= j < head@.len() ==> #[trigger] r@[j] == head@[j],
            forall|j: int| head@.len() <= j < 8 - tail@.len() ==> #[trigger] r@[j] == 0,
            forall|j: int| 8 - tail@.len() <= j < r@.len()
                ==> #[trigger] r@[j] == tail@[j - (8 - tail@.len())],
        decreases tail@.len() - t,
    {
        r.push(tail[t]);
        t += 1;
    }
    r
}

/// Parse a dotted-quad address.
pub fn parse_ipv4(s: &[char]) -> (r: Option<Ip>)
    ensures
        r == spec_parse_ipv4(s@),
{
    let parts = split_on_exec(s, '.');
    let ghost gparts = spec_split_on(s@, '.');
    if parts.len() != 4 {
        return None;
    }
    proof {
        assert(parts@[0]@ == gparts[0] && parts@[1]@ == gparts[1] && parts@[2]@ == gparts[2]
            && parts@[3]@ == gparts[3]);
    }
    let a = match parse_octet(parts[0].as_slice()) {
        Some(v) => v,
        None => { return None; },
    };
    let b = match parse_octet(parts[1].as_slice()) {
        Some(v) => v,
        None => { return None; },
    };
    let c = match parse_octet(parts[2].as_slice()) {
        Some(v) => v,
        None => { return None; },
    };
    let d = match parse_octet(parts[3].as_slice()) {
        Some(v) => v,
        None => { return None; },
    };
    Some(Ip::V4(a, b, c, d))
}

/// Parse a colon-hex address.
pub fn parse_ipv6(s: &[char]) -> (r: Option<Ip>)
    ensures
        r == spec_parse_ipv6(s@),
{
    let segs = split_on_exec(s, ':');
    let ghost gsegs = spec_split_on(s@, ':');
    let n = segs.len();
    let mut f: usize = 0;
    while f < n && segs[f].len() > 0
        invariant
            f <= n,
            n == segs@.len(),
            gsegs == segs@.map_values(|t: Vec<char>| t@),
            forall|j: int| 0 <= j < f ==> #[trigger] gsegs[j].len() > 0,
        decreases n - f,
    {
        proof {
            assert(gsegs[f as int] == segs@[f as int]@);
        }
        f += 1;
    }
    proof {
        if f < n {
            assert(gsegs[f as int] == segs@[f as int]@);
        }
        lemma_first_empty_is(gsegs, f as int);
    }
    if f == n {
        if n != 8 {
            return None;
        }
        match parse_groups(&segs, 0, 8) {
            Some(g) => {
                let ip = Ip::V6(g[0], g[1], g[2], g[3], g[4], g[5], g[6], g[7]);
                proof {
                    assert(forall|j: int| 0 <= j < 8 ==> gsegs[j] == segs@[j]@);
                    assert(ip == v6_of(gsegs, Seq::<Seq<char>>::empty()));
                }
                Some(ip)
            },
            None => None,
        }
    } else if f == 0 {
        if !(n >= 3 && segs[1].len() == 0) {
            proof {
                if n >= 3 {
                    assert(gsegs[1] == segs@[1]@);
                }
            }
            return None;
        }
        proof {
            assert(gsegs[1] == segs@[1]@);
            assert(gsegs[2] == segs@[2]@);
        }
        if n == 3 && segs[2].len() == 0 {
            return Some(Ip::V6(0, 0, 0, 0, 0, 0, 0, 0));
        }
        if n - 2 > 7 {
            return None;
        }
        match parse_groups(&segs, 2, n) {
            Some(g) => {
                let empty_head: Vec<u16> = Vec::new();
                let vals = assemble_groups(&empty_head, &g);
                let ip = Ip::V6(
                    vals[0], vals[1], vals[2], vals[3], vals[4], vals[5], vals[6], vals[7],
                );
                proof {
                    let tail = gsegs.skip(2);
                    assert(forall|j: int| 0 <= j < tail.len() ==> tail[j] == gsegs[j + 2]);
                    assert(groups_valid(tail, 0, tail.len() as int));
                    assert forall|j: int| 0 <= j < 8 implies vals@[j] == v6_group_at(
                        Seq::<Seq<char>>::empty(), tail, j,
                    ) by {
                        if j >= 8 - tail.len() {
                            assert(vals@[j] == g@[j - (8 - tail.len())]);
                            assert(g@[j - (8 - tail.len())]
                                == hex_val(segs@[2 + (j - (8 - tail.len()))]@) as u16);
                            assert(tail[j - (8 - tail.len())] == gsegs[2 + (j - (8 - tail.len()))]);
                        }
                    }
                    assert(ip == v6_of(Seq::<Seq<char>>::empty(), tail));
                }
                Some(ip)
            },
            None => {
                proof {
                    let tail = gsegs.skip(2);
                    assert(forall|j: int| 0 <= j < tail.len() ==> tail[j] == gsegs[j + 2]);
                    assert(!groups_valid(gsegs, 2, n as int));
                }
                None
            },
        }
    } else if f <= n - 2 {
        proof {
            assert(gsegs[f + 1] == segs@[f + 1]@);
        }
        if segs[f + 1].len() == 0 {
            if !(f == n - 2 && f <= 7) {
                return None;
            }
            match parse_groups(&segs, 0, f) {
                Some(g) => {
                    let empty_tail: Vec<u16> = Vec::new();
                    let vals = assemble_groups(&g, &empty_tail);
                    let ip = Ip::V6(
                        vals[0], vals[1], vals[2], vals[3], vals[4], vals[5], vals[6], vals[7],
                    );
                    proof {
                        let head = gsegs.take(f as int);
                        assert(forall|j: int| 0 <= j < head.len() ==> head[j] == gsegs[j]);
                        assert(groups_valid(head, 0, head.len() as int));
                        assert forall|j: int| 0 <= j < 8 implies vals@[j] == v6_group_at(
                            head, Seq::<Seq<char>>::empty(), j,
                        ) by {
                            if j < head.len() {
                                assert(vals@[j] == g@[j]);
                                assert(g@[j] == hex_val(segs@[j]@) as u16);
                            }
                        }
                        assert(ip == v6_of(head, Seq::<Seq<char>>::empty()));
                    }
                    Some(ip)
                },
                None => None,
            }
        } else {
            if n - 1 > 7 {
                return None;
            }
            match parse_groups(&segs, 0, f) {
                Some(gh) => {
                    match parse_groups(&segs, f + 1, n) {
                        Some(gt) => {
                            let vals = assemble_groups(&gh, &gt);
                            let ip = Ip::V6(
                                vals[0], vals[1], vals[2], vals[3], vals[4], vals[5], vals[6],
                                vals[7],
                            );
                            proof {
                                let head = gsegs.take(f as int);
                                let tail = gsegs.skip(f + 1);
                                assert(forall|j: int| 0 <= j < head.len() ==> head[j] == gsegs[j]);
                                assert(forall|j: int| 0 <= j < tail.len()
                                    ==> tail[j] == gsegs[j + f + 1]);
                                assert forall|j: int| 0 <= j < 8 implies vals@[j] == v6_group_at(
                                    head, tail, j,
                                ) by {
                                    if j < head.len() {
                                        assert(vals@[j] == gh@[j]);
                                        assert(gh@[j] == hex_val(segs@[j]@) as u16);
                                    } else if j >= 8 - tail.len() {
                                        assert(vals@[j] == gt@[j - (8 - tail.len())]);
                                        assert(gt@[j - (8 - tail.len())]
                                            == hex_val(segs@[f + 1 + (j - (8 - tail.len()))]@) as u16);
                                    }
                                }
                                assert(ip == v6_of(head, tail));
                            }
                            Some(ip)
                        },
                        None => None,
                    }
                },
                None => None,
            }
        }
    } else {
        None
    }
}

/// Parse an IP literal, trying the dotted quad first.
pub fn parse_ip_chars(s: &[char]) -> (r: Option<Ip>)
    ensures
        r == spec_parse_ip(s@),
{
    match parse_ipv4(s) {
        Some(ip) => Some(ip),
        None => parse_ipv6(s),
    }
}

impl Ip {
    /// Parse the textual form of an IP address.
    pub fn from_str(s: &str) -> (r: Option<Ip>)
        ensures
            r == spec_parse_ip(s@),
    {
        let v = str_to_chars(s);
        parse_ip_chars(v.as_slice())
    }

    /// The canonical text of this address, as characters.
    pub fn to_chars(&self) -> (r: Vec<char>)
        ensures
            r@ == spec_ip_text(*self),
    {
        match self {
            Ip::V4(a, b, c, d) => {
                let mut parts: Vec<Vec<char>> = Vec::new();
                parts.push(u64_to_chars(*a as u64));
                parts.push(u64_to_chars(*b as u64));
                parts.push(u64_to_chars(*c as u64));
                parts.push(u64_to_chars(*d as u64));
                proof {
                    assert(parts@.map_values(|t: Vec<char>| t@) =~= v4_parts(*a, *b, *c, *d));
                }
                join_exec(parts.as_slice(), '.')
            },
            Ip::V6(g0, g1, g2, g3, g4, g5, g6, g7) => {
                let mut parts: Vec<Vec<char>> = Vec::new();
                parts.push(u16_to_hex_chars(*g0));
                parts.push(u16_to_hex_chars(*g1));
                parts.push(u16_to_hex_chars(*g2));
                parts.push(u16_to_hex_chars(*g3));
                parts.push(u16_to_hex_chars(*g4));
                parts.push(u16_to_hex_chars(*g5));
                parts.push(u16_to_hex_chars(*g6));
                parts.push(u16_to_hex_chars(*g7));
                proof {
                    assert(parts@.map_values(|t: Vec<char>| t@) =~= v6_parts(
                        *g0, *g1, *g2, *g3, *g4, *g5, *g6, *g7,
                    ));
                }
                join_exec(parts.as_slice(), ':')
            },
        }
    }

    /// The canonical text of this address.
    pub fn to_text(&self) -> (r: String)
        ensures
            r@ == spec_ip_text(*self),
    {
        let v = self.to_chars();
        chars_to_string(&v)
    }
}

/// Round trip: the canonical text of an address parses back to it.
pub proof fn lemma_ip_round_trip(ip: Ip)
    ensures
        spec_parse_ip(spec_ip_text(ip)) == Some(ip),
{
    match ip {
        Ip::V4(a, b, c, d) => {
            let parts = v4_parts(a, b, c, d);
            let s = spec_ip_text(ip);
            lemma_dec_str(a as nat);
            lemma_dec_str(b as nat);
            lemma_dec_str(c as nat);
            lemma_dec_str(d as nat);
            assert forall|i: int| 0 <= i < parts.len() implies crate::text::no_char(
                #[trigger] parts[i], '.',
            ) by {
                lemma_digits_no_char(parts[i], '.');
            }
            lemma_split_on_join(parts, '.');
            assert(valid_octet(parts[0]) && valid_octet(parts[1]) && valid_octet(parts[2])
                && valid_octet(parts[3]));
            assert(spec_parse_ipv4(s) == Some(ip));
        },
        Ip::V6(g0, g1, g2, g3, g4, g5, g6, g7) => {
            let parts = v6_parts(g0, g1, g2, g3, g4, g5, g6, g7);
            let s = spec_ip_text(ip);
            lemma_hex_str(g0 as nat);
            lemma_hex_str(g1 as nat);
            lemma_hex_str(g2 as nat);
            lemma_hex_str(g3 as nat);
            lemma_hex_str(g4 as nat);
            lemma_hex_str(g5 as nat);
            lemma_hex_str(g6 as nat);
            lemma_hex_str(g7 as nat);
            assert forall|i: int| 0 <= i < parts.len() implies crate::text::no_char(
                #[trigger] parts[i], ':',
            ) by {
                lemma_hex_no_char(parts[i], ':');
            }
            lemma_split_on_join(parts, ':');
            // the colon-hex text has no dot, so the dotted-quad parse sees a
            // single segment and fails
            assert forall|i: int| 0 <= i < parts.len() implies crate::text::no_char(
                #[trigger] parts[i], '.',
            ) by {
                lemma_hex_no_char(parts[i], '.');
            }
            assert(crate::text::no_char(s, '.')) by {
                lemma_join_no_char(parts, ':', '.');
            }
            lemma_run_len_no_sep(s, '.');
            assert(spec_split_on(s, '.') =~= seq![s]);
            assert(spec_parse_ipv4(s) is None);
            let segs = spec_split_on(s, ':');
            assert(segs == parts);
            assert forall|j: int| 0 <= j < 8 implies #[trigger] segs[j].len() > 0 by {
                assert(valid_hex_group(parts[j]));
            }
            lemma_first_empty_is(segs, 8);
            assert(groups_valid(segs, 0, 8)) by {
                assert(forall|j: int| 0 <= j < 8 ==> valid_hex_group(#[trigger] parts[j]));
            }
            assert(v6_of(segs, Seq::<Seq<char>>::empty()) == ip) by {
                assert(hex_val(segs[0]) == g0 && hex_val(segs[1]) == g1 && hex_val(segs[2]) == g2
                    && hex_val(segs[3]) == g3 && hex_val(segs[4]) == g4 && hex_val(segs[5]) == g5
                    && hex_val(segs[6]) == g6 && hex_val(segs[7]) == g7);
            }
            assert(spec_parse_ipv6(s) == Some(ip));
        },
    }
}

/// A character that is in no part and is not the separator is not in the
/// joined string.
pub proof fn lemma_join_no_char(parts: Seq<Seq<char>>, sep: char, c: char)
    requires
        c != sep,
        forall|i: int| 0 <= i < parts.len() ==> crate::text::no_char(#[trigger] parts[i], c),
    ensures
        crate::text::no_char(join_with(parts, sep), c),
    decreases parts.len(),
{
    if parts.len() > 1 {
        assert(forall|i: int| 0 <= i < parts.skip(1).len() ==> parts.skip(1)[i] == parts[i + 1]);
        lemma_join_no_char(parts.skip(1), sep, c);
        let s = join_with(parts, sep);
        let rest = join_with(parts.skip(1), sep);
        assert(s == parts[0] + seq![sep] + rest);
        assert forall|i: int| 0 <= i < s.len() implies s[i] != c by {
            if i < parts[0].len() {
                assert(s[i] == parts[0][i]);
            } else if i == parts[0].len() {
                assert(s[i] == sep);
            } else {
                assert(s[i] == rest[i - parts[0].len() - 1]);
            }
        }
    }
}

} // verus!
