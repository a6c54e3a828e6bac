//! Character-level text utilities shared by the parsers: character classes,
//! decimal and hexadecimal numerals, whitespace and separator splitting, and
//! the plumbing between `&str` and `Vec<char>`.
//!
//! Every parser in this crate works on sequences of characters; the grammar
//! of each textual form is stated by the spec functions here and in the
//! parser modules, and the executable code is proved to follow them.

use vstd::prelude::*;
use vstd::string::StrSliceExecFns;

verus! {

/// The whitespace characters the tokenizer recognises (ASCII whitespace, as
/// traceroute output uses).
pub open spec fn is_space_char(c: char) -> bool {
    c == ' ' || c == '\t' || c == '\n' || c == '\r'
}

/// Decimal digit.
pub open spec fn is_digit_char(c: char) -> bool {
    '0' <= c && c <= '9'
}

/// Hexadecimal digit, either case.
pub open spec fn is_hex_char(c: char) -> bool {
    is_digit_char(c) || ('a' <= c && c <= 'f') || ('A' <= c && c <= 'F')
}

/// Value of a decimal digit.
pub open spec fn digit_val(c: char) -> int {
    c as u32 - '0' as u32
}

/// Value of a hexadecimal digit.
pub open spec fn hex_digit_val(c: char) -> int {
    if is_digit_char(c) {
        c as u32 - '0' as u32
    } else if 'a' <= c && c <= 'f' {
        c as u32 - 'a' as u32 + 10
    } else {
        c as u32 - 'A' as u32 + 10
    }
}

/// Every character of `s` is a decimal digit.
pub open spec fn all_digits(s: Seq<char>) -> bool {
    forall|i: int| 0 <= i < s.len() ==> #[trigger] is_digit_char(s[i])
}

/// A non-empty string of decimal digits.
pub open spec fn is_dec_str(s: Seq<char>) -> bool {
    s.len() > 0 && all_digits(s)
}

/// Every character of `s` is a hexadecimal digit.
pub open spec fn all_hex(s: Seq<char>) -> bool {
    forall|i: int| 0 <= i < s.len() ==> #[trigger] is_hex_char(s[i])
}

/// Numeric value of a string of decimal digits, most significant first.
pub open spec fn dec_val(s: Seq<char>) -> int
    decreases s.len(),
{
    if s.len() == 0 {
        0
    } else {
        dec_val(s.take(s.len() - 1)) * 10 + digit_val(s[s.len() - 1])
    }
}

/// Numeric value of a string of hexadecimal digits, most significant first.
pub open spec fn hex_val(s: Seq<char>) -> int
    decreases s.len(),
{
    if s.len() == 0 {
        0
    } else {
        hex_val(s.take(s.len() - 1)) * 16 + hex_digit_val(s[s.len() - 1])
    }
}

/// The decimal digit character for a value in [0, 9].
pub open spec fn digit_char(d: int) -> char {
    if d == 0 { '0' }
    else if d == 1 { '1' }
    else if d == 2 { '2' }
    else if d == 3 { '3' }
    else if d == 4 { '4' }
    else if d == 5 { '5' }
    else if d == 6 { '6' }
    else if d == 7 { '7' }
    else if d == 8 { '8' }
    else { '9' }
}

/// The lowercase hexadecimal digit character for a value in [0, 15].
pub open spec fn hex_char(d: int) -> char {
    if d < 10 { digit_char(d) }
    else if d == 10 { 'a' }
    else if d == 11 { 'b' }
    else if d == 12 { 'c' }
    else if d == 13 { 'd' }
    else if d == 14 { 'e' }
    else { 'f' }
}

/// Shortest decimal numeral of `n`, most significant digit first.
pub open spec fn dec_str(n: nat) -> Seq<char>
    decreases n,
{
    if n < 10 {
        seq![digit_char(n as int)]
    } else {
        dec_str(n / 10) + seq![digit_char((n % 10) as int)]
    }
}

/// Shortest lowercase hexadecimal numeral of `n`, most significant digit
/// first.
pub open spec fn hex_str(n: nat) -> Seq<char>
    decreases n,
{
    if n < 16 {
        seq![hex_char(n as int)]
    } else {
        hex_str(n / 16) + seq![hex_char((n % 16) as int)]
    }
}

/// An optionally negated decimal numeral, as a mathematical integer;
/// `None` when `s` is not of that shape.
pub open spec fn spec_parse_int(s: Seq<char>) -> Option<int> {
    if s.len() > 0 && s[0] == '-' {
        if is_dec_str(s.skip(1)) {
            Some(-dec_val(s.skip(1)))
        } else {
            None
        }
    } else if is_dec_str(s) {
        Some(dec_val(s))
    } else {
        None
    }
}

/// A decimal digit's value is in [0, 9].
pub proof fn lemma_digit_val_bounds(c: char)
    requires
        is_digit_char(c),
    ensures
        0 <= digit_val(c) <= 9,
{
}

/// A hexadecimal digit's value is in [0, 15].
pub proof fn lemma_hex_digit_val_bounds(c: char)
    requires
        is_hex_char(c),
    ensures
        0 <= hex_digit_val(c) <= 15,
{
}

/// Digit values are in [0, 9], so a digit string's value is non-negative.
pub proof fn lemma_dec_val_nonneg(s: Seq<char>)
    requires
        all_digits(s),
    ensures
        dec_val(s) >= 0,
    decreases s.len(),
{
    if s.len() > 0 {
        assert(all_digits(s.take(s.len() - 1))) by {
            assert(forall|i: int| 0 <= i < s.len() - 1 ==> s.take(s.len() - 1)[i] == s[i]);
        }
        lemma_dec_val_nonneg(s.take(s.len() - 1));
        assert(is_digit_char(s[s.len() - 1]));
        lemma_digit_val_bounds(s[s.len() - 1]);
    }
}

/// Extending a digit string by one digit multiplies its value by ten and
/// adds the digit.
pub proof fn lemma_dec_val_step(s: Seq<char>, i: int)
    requires
        0 <= i < s.len(),
    ensures
        dec_val(s.take(i + 1)) == dec_val(s.take(i)) * 10 + digit_val(s[i]),
{
    assert(s.take(i + 1).take(i) =~= s.take(i));
    assert(s.take(i + 1)[i] == s[i]);
    assert(s.take(i + 1).len() == i + 1);
}

/// The value of a digit string is at least the value of any of its prefixes.
pub proof fn lemma_dec_val_take_le(s: Seq<char>, i: int)
    requires
        all_digits(s),
        0 <= i <= s.len(),
    ensures
        dec_val(s.take(i)) <= dec_val(s),
    decreases s.len() - i,
{
    if i < s.len() {
        lemma_dec_val_step(s, i);
        assert(all_digits(s.take(i))) by {
            assert(forall|j: int| 0 <= j < i ==> s.take(i)[j] == s[j]);
        }
        lemma_dec_val_nonneg(s.take(i));
        assert(dec_val(s.take(i)) * 10 >= dec_val(s.take(i))) by (nonlinear_arith)
            requires dec_val(s.take(i)) >= 0;
        assert(is_digit_char(s[i]));
        lemma_digit_val_bounds(s[i]);
        lemma_dec_val_take_le(s, i + 1);
    } else {
        assert(s.take(i) =~= s);
    }
}

/// Same for hexadecimal strings.
pub proof fn lemma_hex_val_step(s: Seq<char>, i: int)
    requires
        0 <= i < s.len(),
    ensures
        hex_val(s.take(i + 1)) == hex_val(s.take(i)) * 16 + hex_digit_val(s[i]),
{
    assert(s.take(i + 1).take(i) =~= s.take(i));
    assert(s.take(i + 1)[i] == s[i]);
    assert(s.take(i + 1).len() == i + 1);
}

/// The characters of a decimal numeral are digits, the numeral is non-empty,
/// it has a leading zero only for zero itself, and it reads back to the
/// number it was made from.
pub proof fn lemma_dec_str(n: nat)
    ensures
        dec_str(n).len() >= 1,
        all_digits(dec_str(n)),
        dec_val(dec_str(n)) == n,
        dec_str(n)[0] == '0' ==> n == 0,
        n <= 9 ==> dec_str(n).len() == 1,
    decreases n,
{
    if n < 10 {
        assert(dec_str(n) =~= seq![digit_char(n as int)]);
        assert(dec_val(dec_str(n)) == dec_val(seq![digit_char(n as int)].take(0)) * 10
            + digit_val(digit_char(n as int)));
        assert(seq![digit_char(n as int)].take(0) =~= Seq::<char>::empty());
        assert(dec_val(Seq::<char>::empty()) == 0);
    } else {
        lemma_dec_str(n / 10);
        let prefix = dec_str(n / 10);
        let s = dec_str(n);
        assert(s == prefix + seq![digit_char((n % 10) as int)]);
        assert(s.take(s.len() - 1) =~= prefix);
        assert(s[s.len() - 1] == digit_char((n % 10) as int));
        assert(dec_val(s) == dec_val(prefix) * 10 + digit_val(digit_char((n % 10) as int)));
        assert(digit_val(digit_char((n % 10) as int)) == n % 10);
        assert((n / 10) * 10 + n % 10 == n) by (nonlinear_arith);
        assert(all_digits(s)) by {
            assert(forall|i: int| 0 <= i < prefix.len() ==> s[i] == prefix[i]);
        }
        assert(s[0] == prefix[0]);
    }
}

/// The same facts for hexadecimal numerals, plus a length bound for values
/// that fit in sixteen bits.
pub proof fn lemma_hex_str(n: nat)
    ensures
        hex_str(n).len() >= 1,
        all_hex(hex_str(n)),
        hex_val(hex_str(n)) == n,
        n < 0x10000 ==> hex_str(n).len() <= 4,
    decreases n,
{
    if n < 16 {
        assert(hex_str(n) =~= seq![hex_char(n as int)]);
        assert(seq![hex_char(n as int)].take(0) =~= Seq::<char>::empty());
        assert(hex_val(Seq::<char>::empty()) == 0);
        assert(hex_digit_val(hex_char(n as int)) == n);
    } else {
        lemma_hex_str(n / 16);
        let prefix = hex_str(n / 16);
        let s = hex_str(n);
        assert(s == prefix + seq![hex_char((n % 16) as int)]);
        assert(s.take(s.len() - 1) =~= prefix);
        assert(s[s.len() - 1] == hex_char((n % 16) as int));
        assert(hex_val(s) == hex_val(prefix) * 16 + hex_digit_val(hex_char((n % 16) as int)));
        assert(hex_digit_val(hex_char((n % 16) as int)) == n % 16);
        assert((n / 16) * 16 + n % 16 == n) by (nonlinear_arith);
        assert(all_hex(s)) by {
            assert(forall|i: int| 0 <= i < prefix.len() ==> s[i] == prefix[i]);
        }
        if n < 0x10000 {
            if n / 16 >= 16 {
                assert(hex_str(n / 16) == hex_str(n / 16 / 16) + seq![hex_char((n / 16 % 16) as int)]);
                lemma_hex_str(n / 16 / 16);
                if n / 16 / 16 >= 16 {
                    assert(hex_str(n / 16 / 16) == hex_str(n / 16 / 16 / 16)
                        + seq![hex_char((n / 16 / 16 % 16) as int)]);
                    lemma_hex_str(n / 16 / 16 / 16);
                    assert(n / 16 / 16 / 16 < 16) by (nonlinear_arith)
                        requires n < 0x10000;
                }
            }
        }
    }
}

/// Collect the characters of a string slice.
pub fn str_to_chars(s: &str) -> (v: Vec<char>)
    ensures
        v@ == s@,
{
    let n = s.unicode_len();
    let mut v: Vec<char> = Vec::new();
    let mut i: usize = 0;
    while i < n
        invariant
            i <= n,
            n == s@.len(),
            v@ == s@.take(i as int),
        decreases n - i,
    {
        let c = s.get_char(i);
        v.push(c);
        proof {
            assert(s@.take(i + 1) =~= s@.take(i as int) + seq![s@[i as int]]);
        }
        i += 1;
    }
    proof {
        assert(s@.take(n as int) =~= s@);
    }
    v
}

/// Relies on `String`'s `FromIterator<char>` implementation: collecting
/// characters yields the string of exactly those characters, in order.
#[verifier::external_body]
pub fn chars_to_string(v: &Vec<char>) -> (s: String)
    ensures
        s@ == v@,
{
    v.iter().collect()
}

/// Append every character of `src` to `dst`.
pub fn push_all(dst: &mut Vec<char>, src: &[char])
    ensures
        final(dst)@ == old(dst)@ + src@,
{
    let mut i: usize = 0;
    while i < src.len()
        invariant
            i <= src@.len(),
            dst@ == old(dst)@ + src@.take(i as int),
        decreases src@.len() - i,
    {
        dst.push(src[i]);
        proof {
            assert(old(dst)@ + src@.take(i + 1) =~= (old(dst)@ + src@.take(i as int))
                + seq![src@[i as int]]);
        }
        i += 1;
    }
    proof {
        assert(src@.take(src@.len() as int) =~= src@);
    }
}

/// Decimal parse with an inclusive upper bound: `Some` exactly when `s` is a
/// non-empty digit string whose value is at most `max`.
pub fn parse_dec_bounded(s: &[char], max: u64) -> (r: Option<u64>)
    ensures
        match r {
            Some(v) => is_dec_str(s@) && dec_val(s@) == v && v <= max,
            None => !(is_dec_str(s@) && dec_val(s@) <= max),
        },
{
    if s.len() == 0 {
        return None;
    }
    let mut acc: u64 = 0;
    let mut i: usize = 0;
    while i < s.len()
        invariant
            0 < s@.len(),
            i <= s@.len(),
            all_digits(s@.take(i as int)),
            acc == dec_val(s@.take(i as int)),
            acc <= max,
        decreases s@.len() - i,
    {
        let c = s[i];
        if !('0' <= c && c <= '9') {
            assert(!is_digit_char(s@[i as int]));
            return None;
        }
        let d: u64 = (c as u32 - '0' as u32) as u64;
        assert(d == digit_val(s@[i as int]) && d <= 9);
        proof {
            lemma_dec_val_step(s@, i as int);
        }
        if acc > max / 10 {
            proof {
                assert(acc * 10 + d > max) by (nonlinear_arith)
                    requires acc > max / 10, d >= 0, max >= 0;
                if is_dec_str(s@) && dec_val(s@) <= max {
                    lemma_dec_val_take_le(s@, i + 1);
                }
            }
            return None;
        }
        let base = acc * 10;
        proof {
            assert(acc * 10 <= max) by (nonlinear_arith)
                requires acc <= max / 10, max >= 0;
        }
        if d > max - base {
            proof {
                if is_dec_str(s@) && dec_val(s@) <= max {
                    lemma_dec_val_take_le(s@, i + 1);
                }
            }
            return None;
        }
        acc = base + d;
        proof {
            assert(all_digits(s@.take(i + 1))) by {
                assert(forall|j: int| 0 <= j < i + 1 ==> s@.take(i + 1)[j] == s@[j]);
            }
        }
        i += 1;
    }
    proof {
        assert(s@.take(s@.len() as int) =~= s@);
    }
    Some(acc)
}

/// Whether `s` is a non-empty digit string.
pub fn is_dec_exec(s: &[char]) -> (b: bool)
    ensures
        b == is_dec_str(s@),
{
    if s.len() == 0 {
        return false;
    }
    let mut i: usize = 0;
    while i < s.len()
        invariant
            i <= s@.len(),
            all_digits(s@.take(i as int)),
        decreases s@.len() - i,
    {
        let c = s[i];
        if !('0' <= c && c <= '9') {
            assert(!is_digit_char(s@[i as int]));
            return false;
        }
        proof {
            assert(forall|j: int| 0 <= j < i + 1 ==> s@.take(i + 1)[j] == s@[j]);
        }
        i += 1;
    }
    proof {
        assert(s@.take(s@.len() as int) =~= s@);
    }
    true
}

/// Whether `s` has the shape of an optionally negated decimal numeral.
pub fn int_syntax(s: &[char]) -> (b: bool)
    ensures
        b == (spec_parse_int(s@) is Some),
{
    if s.len() > 0 && s[0] == '-' {
        let rest = &s[1..s.len()];
        assert(rest@ == s@.skip(1));
        is_dec_exec(rest)
    } else {
        is_dec_exec(s)
    }
}

/// Parse an optionally negated decimal numeral as an `isize`: `Some` exactly
/// when the shape is right and the value fits.
pub fn parse_int_isize(s: &[char]) -> (r: Option<isize>)
    ensures
        match r {
            Some(v) => spec_parse_int(s@) == Some(v as int),
            None => match spec_parse_int(s@) {
                Some(v) => !(isize::MIN <= v <= isize::MAX),
                None => true,
            },
        },
{
    if s.len() > 0 && s[0] == '-' {
        let rest = &s[1..s.len()];
        assert(rest@ == s@.skip(1));
        let bound: u64 = (isize::MAX as u64) + 1;
        match parse_dec_bounded(rest, bound) {
            Some(m) => {
                if m == bound {
                    Some(isize::MIN)
                } else {
                    Some(-(m as isize))
                }
            },
            None => {
                proof {
                    if is_dec_str(rest@) {
                        lemma_dec_val_nonneg(rest@);
                    }
                }
                None
            },
        }
    } else {
        match parse_dec_bounded(s, isize::MAX as u64) {
            Some(v) => Some(v as isize),
            None => {
                proof {
                    if is_dec_str(s@) {
                        lemma_dec_val_nonneg(s@);
                    }
                }
                None
            },
        }
    }
}

/// Decimal numeral of a 64-bit value, as characters.
pub fn u64_to_chars(n: u64) -> (v: Vec<char>)
    ensures
        v@ == dec_str(n as nat),
    decreases n,
{
    let d = n % 10;
    let c: char = if d == 0 { '0' }
    else if d == 1 { '1' }
    else if d == 2 { '2' }
    else if d == 3 { '3' }
    else if d == 4 { '4' }
    else if d == 5 { '5' }
    else if d == 6 { '6' }
    else if d == 7 { '7' }
    else if d == 8 { '8' }
    else { '9' };
    assert(c == digit_char(d as int));
    if n < 10 {
        let v = vec![c];
        assert(v@ =~= dec_str(n as nat));
        v
    } else {
        let mut v = u64_to_chars(n / 10);
        v.push(c);
        assert(v@ =~= dec_str((n / 10) as nat) + seq![digit_char((n % 10) as int)]);
        v
    }
}

/// Lowercase hexadecimal numeral of a 16-bit value, as characters.
pub fn u16_to_hex_chars(n: u16) -> (v: Vec<char>)
    ensures
        v@ == hex_str(n as nat),
    decreases n,
{
    let d = n % 16;
    let c: char = if d == 0 { '0' }
    else if d == 1 { '1' }
    else if d == 2 { '2' }
    else if d == 3 { '3' }
    else if d == 4 { '4' }
    else if d == 5 { '5' }
    else if d == 6 { '6' }
    else if d == 7 { '7' }
    else if d == 8 { '8' }
    else if d == 9 { '9' }
    else if d == 10 { 'a' }
    else if d == 11 { 'b' }
    else if d == 12 { 'c' }
    else if d == 13 { 'd' }
    else if d == 14 { 'e' }
    else { 'f' };
    assert(c == hex_char(d as int));
    if n < 16 {
        let v = vec![c];
        assert(v@ =~= hex_str(n as nat));
        v
    } else {
        let mut v = u16_to_hex_chars(n / 16);
        v.push(c);
        assert(v@ =~= hex_str((n / 16) as nat) + seq![hex_char((n % 16) as int)]);
        v
    }
}

/// No character of `s` is whitespace.
pub open spec fn no_space(s: Seq<char>) -> bool {
    forall|i: int| 0 <= i < s.len() ==> !is_space_char(#[trigger] s[i])
}

/// The character `c` does not occur in `s`.
pub open spec fn no_char(s: Seq<char>, c: char) -> bool {
    forall|i: int| 0 <= i < s.len() ==> #[trigger] s[i] != c
}

/// Digit strings contain no whitespace.
pub proof fn lemma_digits_no_space(s: Seq<char>)
    requires
        all_digits(s),
    ensures
        no_space(s),
{
    assert forall|i: int| 0 <= i < s.len() implies !is_space_char(s[i]) by {
        assert(is_digit_char(s[i]));
    }
}

/// Hex strings contain no whitespace.
pub proof fn lemma_hex_no_space(s: Seq<char>)
    requires
        all_hex(s),
    ensures
        no_space(s),
{
    assert forall|i: int| 0 <= i < s.len() implies !is_space_char(s[i]) by {
        assert(is_hex_char(s[i]));
    }
}

/// A character that is not a digit does not occur in a digit string.
pub proof fn lemma_digits_no_char(s: Seq<char>, c: char)
    requires
        all_digits(s),
        !is_digit_char(c),
    ensures
        no_char(s, c),
{
    assert forall|i: int| 0 <= i < s.len() implies s[i] != c by {
        assert(is_digit_char(s[i]));
    }
}

/// A character that is not a hex digit does not occur in a hex string.
pub proof fn lemma_hex_no_char(s: Seq<char>, c: char)
    requires
        all_hex(s),
        !is_hex_char(c),
    ensures
        no_char(s, c),
{
    assert forall|i: int| 0 <= i < s.len() implies s[i] != c by {
        assert(is_hex_char(s[i]));
    }
}

/// Concatenation keeps a character out if both halves do.
pub proof fn lemma_concat_no_char(a: Seq<char>, b: Seq<char>, c: char)
    requires
        no_char(a, c),
        no_char(b, c),
    ensures
        no_char(a + b, c),
{
    assert forall|i: int| 0 <= i < (a + b).len() implies (a + b)[i] != c by {
        if i < a.len() {
            assert((a + b)[i] == a[i]);
        } else {
            assert((a + b)[i] == b[i - a.len()]);
        }
    }
}

/// Concatenation keeps whitespace out if both halves do.
pub proof fn lemma_concat_no_space(a: Seq<char>, b: Seq<char>)
    requires
        no_space(a),
        no_space(b),
    ensures
        no_space(a + b),
{
    assert forall|i: int| 0 <= i < (a + b).len() implies !is_space_char((a + b)[i]) by {
        if i < a.len() {
            assert((a + b)[i] == a[i]);
        } else {
            assert((a + b)[i] == b[i - a.len()]);
        }
    }
}

/// Joining whitespace-free parts with a non-whitespace separator yields a
/// whitespace-free string.
pub proof fn lemma_join_no_space(parts: Seq<Seq<char>>, sep: char)
    requires
        !is_space_char(sep),
        forall|i: int| 0 <= i < parts.len() ==> no_space(#[trigger] parts[i]),
    ensures
        no_space(join_with(parts, sep)),
    decreases parts.len(),
{
    if parts.len() > 1 {
        assert(forall|i: int| 0 <= i < parts.skip(1).len() ==> parts.skip(1)[i] == parts[i + 1]);
        lemma_join_no_space(parts.skip(1), sep);
        let s = join_with(parts, sep);
        let rest = join_with(parts.skip(1), sep);
        assert(s == parts[0] + seq![sep] + rest);
        assert forall|i: int| 0 <= i < s.len() implies !is_space_char(s[i]) by {
            if i < parts[0].len() {
                assert(s[i] == parts[0][i]);
            } else if i == parts[0].len() {
                assert(s[i] == sep);
            } else {
                assert(s[i] == rest[i - parts[0].len() - 1]);
            }
        }
    }
}

/// Length of the leading run of non-whitespace characters.
pub open spec fn token_len(s: Seq<char>) -> nat
    decreases s.len(),
{
    if s.len() == 0 || is_space_char(s[0]) {
        0
    } else {
        1 + token_len(s.skip(1))
    }
}

/// The leading token is within bounds, free of whitespace, and maximal.
pub proof fn lemma_token_len(s: Seq<char>)
    ensures
        token_len(s) <= s.len(),
        forall|i: int| 0 <= i < token_len(s) ==> !is_space_char(#[trigger] s[i]),
        token_len(s) < s.len() ==> is_space_char(s[token_len(s) as int]),
    decreases s.len(),
{
    if s.len() > 0 && !is_space_char(s[0]) {
        lemma_token_len(s.skip(1));
        assert(forall|i: int| 0 <= i < s.skip(1).len() ==> s.skip(1)[i] == s[i + 1]);
        assert forall|i: int| 0 <= i < token_len(s) implies !is_space_char(s[i]) by {
            if i > 0 {
                assert(!is_space_char(s.skip(1)[i - 1]));
            }
        }
    }
}

/// The tokens of `s`, splitting on runs of whitespace; leading and trailing
/// whitespace yield no tokens, and no token is empty.
pub open spec fn spec_split_ws(s: Seq<char>) -> Seq<Seq<char>>
    decreases s.len(),
    via spec_split_ws_decreases
{
    if s.len() == 0 {
        Seq::empty()
    } else if is_space_char(s[0]) {
        spec_split_ws(s.skip(1))
    } else {
        seq![s.take(token_len(s) as int)] + spec_split_ws(s.skip(token_len(s) as int))
    }
}

#[via_fn]
proof fn spec_split_ws_decreases(s: Seq<char>) {
    if s.len() > 0 && !is_space_char(s[0]) {
        lemma_token_len(s);
    }
}

/// Length of the leading run of characters other than `sep`.
pub open spec fn run_len(s: Seq<char>, sep: char) -> nat
    decreases s.len(),
{
    if s.len() == 0 || s[0] == sep {
        0
    } else {
        1 + run_len(s.skip(1), sep)
    }
}

/// The leading separator-free run is within bounds, free of `sep`, and
/// maximal.
pub proof fn lemma_run_len(s: Seq<char>, sep: char)
    ensures
        run_len(s, sep) <= s.len(),
        forall|i: int| 0 <= i < run_len(s, sep) ==> #[trigger] s[i] != sep,
        run_len(s, sep) < s.len() ==> s[run_len(s, sep) as int] == sep,
    decreases s.len(),
{
    if s.len() > 0 && s[0] != sep {
        lemma_run_len(s.skip(1), sep);
        assert(forall|i: int| 0 <= i < s.skip(1).len() ==> s.skip(1)[i] == s[i + 1]);
        assert forall|i: int| 0 <= i < run_len(s, sep) implies s[i] != sep by {
            if i > 0 {
                assert(s.skip(1)[i - 1] != sep);
            }
        }
    }
}

/// The segments of `s` between occurrences of `sep`: always at least one
/// segment, and a segment is empty where two separators are adjacent or a
/// separator starts or ends the string.
pub open spec fn spec_split_on(s: Seq<char>, sep: char) -> Seq<Seq<char>>
    decreases s.len(),
    via spec_split_on_decreases
{
    if run_len(s, sep) == s.len() {
        seq![s]
    } else {
        seq![s.take(run_len(s, sep) as int)] + spec_split_on(
            s.skip(run_len(s, sep) as int + 1),
            sep,
        )
    }
}

#[via_fn]
proof fn spec_split_on_decreases(s: Seq<char>, sep: char) {
    lemma_run_len(s, sep);
}

/// `s` without leading whitespace.
pub open spec fn spec_trim_start(s: Seq<char>) -> Seq<char>
    decreases s.len(),
{
    if s.len() > 0 && is_space_char(s[0]) {
        spec_trim_start(s.skip(1))
    } else {
        s
    }
}

/// `s` without trailing whitespace.
pub open spec fn spec_trim_end(s: Seq<char>) -> Seq<char>
    decreases s.len(),
{
    if s.len() > 0 && is_space_char(s[s.len() - 1]) {
        spec_trim_end(s.take(s.len() - 1))
    } else {
        s
    }
}

/// `s` without leading and trailing whitespace.
pub open spec fn spec_trim(s: Seq<char>) -> Seq<char> {
    spec_trim_end(spec_trim_start(s))
}

/// `s` begins with `p`.
pub open spec fn spec_starts_with(s: Seq<char>, p: Seq<char>) -> bool {
    s.len() >= p.len() && s.take(p.len() as int) == p
}

/// The parts joined by single occurrences of `sep`.
pub open spec fn join_with(parts: Seq<Seq<char>>, sep: char) -> Seq<char>
    decreases parts.len(),
{
    if parts.len() == 0 {
        Seq::empty()
    } else if parts.len() == 1 {
        parts[0]
    } else {
        parts[0] + seq![sep] + join_with(parts.skip(1), sep)
    }
}

/// A separator-free string is one whole leading run.
pub proof fn lemma_run_len_no_sep(s: Seq<char>, sep: char)
    requires
        no_char(s, sep),
    ensures
        run_len(s, sep) == s.len(),
    decreases s.len(),
{
    if s.len() > 0 {
        assert(s[0] != sep);
        assert(no_char(s.skip(1), sep)) by {
            assert(forall|i: int| 0 <= i < s.skip(1).len() ==> s.skip(1)[i] == s[i + 1]);
        }
        lemma_run_len_no_sep(s.skip(1), sep);
    }
}

/// The leading run of `a + [sep] + b` is exactly `a` when `a` is
/// separator-free.
pub proof fn lemma_run_len_concat(a: Seq<char>, b: Seq<char>, sep: char)
    requires
        no_char(a, sep),
    ensures
        run_len(a + seq![sep] + b, sep) == a.len(),
    decreases a.len(),
{
    let s = a + seq![sep] + b;
    if a.len() == 0 {
        assert(s[0] == sep);
    } else {
        assert(s[0] == a[0]);
        assert(a[0] != sep);
        assert(no_char(a.skip(1), sep)) by {
            assert(forall|i: int| 0 <= i < a.skip(1).len() ==> a.skip(1)[i] == a[i + 1]);
        }
        lemma_run_len_concat(a.skip(1), b, sep);
        assert(s.skip(1) =~= a.skip(1) + seq![sep] + b);
    }
}

/// Splitting undoes joining, for separator-free parts.
pub proof fn lemma_split_on_join(parts: Seq<Seq<char>>, sep: char)
    requires
        parts.len() >= 1,
        forall|i: int| 0 <= i < parts.len() ==> no_char(#[trigger] parts[i], sep),
    ensures
        spec_split_on(join_with(parts, sep), sep) == parts,
    decreases parts.len(),
{
    if parts.len() == 1 {
        lemma_run_len_no_sep(parts[0], sep);
        assert(spec_split_on(parts[0], sep) =~= seq![parts[0]]);
        assert(seq![parts[0]] =~= parts);
    } else {
        let s = join_with(parts, sep);
        let rest = join_with(parts.skip(1), sep);
        assert(s == parts[0] + seq![sep] + rest);
        lemma_run_len_concat(parts[0], rest, sep);
        lemma_run_len(s, sep);
        assert(s.take(parts[0].len() as int) =~= parts[0]);
        assert(s.skip(parts[0].len() as int + 1) =~= rest);
        assert(forall|i: int| 0 <= i < parts.skip(1).len()
            ==> parts.skip(1)[i] == parts[i + 1]);
        lemma_split_on_join(parts.skip(1), sep);
        assert(spec_split_on(s, sep) =~= seq![parts[0]] + spec_split_on(rest, sep));
        assert(seq![parts[0]] + parts.skip(1) =~= parts);
    }
}

/// A whitespace-free, non-empty string is a single token.
pub proof fn lemma_split_ws_single(t: Seq<char>)
    requires
        t.len() > 0,
        no_space(t),
    ensures
        spec_split_ws(t) == seq![t],
{
    lemma_token_len_no_space(t);
    assert(!is_space_char(t[0]));
    assert(t.take(t.len() as int) =~= t);
    assert(t.skip(t.len() as int) =~= Seq::<char>::empty());
    assert(spec_split_ws(Seq::<char>::empty()) =~= Seq::<Seq<char>>::empty());
    assert(spec_split_ws(t) =~= seq![t]);
}

/// A whitespace-free string is one whole leading token.
pub proof fn lemma_token_len_no_space(s: Seq<char>)
    requires
        no_space(s),
    ensures
        token_len(s) == s.len(),
    decreases s.len(),
{
    if s.len() > 0 {
        assert(!is_space_char(s[0]));
        assert(no_space(s.skip(1))) by {
            assert(forall|i: int| 0 <= i < s.skip(1).len() ==> s.skip(1)[i] == s[i + 1]);
        }
        lemma_token_len_no_space(s.skip(1));
    }
}

/// The leading token of `a + " " + b` is exactly `a` when `a` is
/// whitespace-free and non-empty.
pub proof fn lemma_token_len_concat(a: Seq<char>, b: Seq<char>)
    requires
        no_space(a),
    ensures
        token_len(a + seq![' '] + b) == a.len(),
    decreases a.len(),
{
    let s = a + seq![' '] + b;
    if a.len() == 0 {
        assert(s[0] == ' ');
    } else {
        assert(s[0] == a[0]);
        assert(!is_space_char(a[0]));
        assert(no_space(a.skip(1))) by {
            assert(forall|i: int| 0 <= i < a.skip(1).len() ==> a.skip(1)[i] == a[i + 1]);
        }
        lemma_token_len_concat(a.skip(1), b);
        assert(s.skip(1) =~= a.skip(1) + seq![' '] + b);
    }
}

/// Tokenizing `a + " " + rest` yields `a` and then the tokens of `rest`,
/// when `a` is whitespace-free and non-empty.
pub proof fn lemma_split_ws_concat(a: Seq<char>, rest: Seq<char>)
    requires
        a.len() > 0,
        no_space(a),
    ensures
        spec_split_ws(a + seq![' '] + rest) == seq![a] + spec_split_ws(rest),
{
    let s = a + seq![' '] + rest;
    lemma_token_len_concat(a, rest);
    assert(!is_space_char(s[0]));
    assert(s.take(a.len() as int) =~= a);
    assert(s.skip(a.len() as int) =~= seq![' '] + rest);
    assert((seq![' '] + rest).skip(1) =~= rest);
    assert(spec_split_ws(seq![' '] + rest) == spec_split_ws(rest));
}

/// Length of the leading non-whitespace token.
pub fn token_len_exec(s: &[char]) -> (n: usize)
    ensures
        n == token_len(s@),
    decreases s@.len(),
{
    if s.len() == 0 {
        0
    } else {
        let c = s[0];
        if c == ' ' || c == '\t' || c == '\n' || c == '\r' {
            0
        } else {
            let rest = &s[1..s.len()];
            assert(rest@ == s@.skip(1));
            proof {
                lemma_token_len(rest@);
            }
            1 + token_len_exec(rest)
        }
    }
}

/// Split into whitespace-separated tokens.
pub fn split_ws_exec(s: &[char]) -> (r: Vec<Vec<char>>)
    ensures
        r@.map_values(|t: Vec<char>| t@) == spec_split_ws(s@),
    decreases s@.len(),
{
    if s.len() == 0 {
        let r: Vec<Vec<char>> = Vec::new();
        assert(r@.map_values(|t: Vec<char>| t@) =~= spec_split_ws(s@));
        r
    } else {
        let c = s[0];
        if c == ' ' || c == '\t' || c == '\n' || c == '\r' {
            let rest = &s[1..s.len()];
            assert(rest@ == s@.skip(1));
            split_ws_exec(rest)
        } else {
            let t = token_len_exec(s);
            proof {
                lemma_token_len(s@);
            }
            let tok = vstd::slice::slice_to_vec(&s[0..t]);
            let rest = &s[t..s.len()];
            assert(rest@ == s@.skip(t as int));
            let mut r = split_ws_exec(rest);
            r.insert(0, tok);
            assert(r@.map_values(|t2: Vec<char>| t2@) =~= spec_split_ws(s@));
            r
        }
    }
}

/// Split on every occurrence of `sep`.
pub fn split_on_exec(s: &[char], sep: char) -> (r: Vec<Vec<char>>)
    ensures
        r@.map_values(|t: Vec<char>| t@) == spec_split_on(s@, sep),
        r@.len() >= 1,
    decreases s@.len(),
{
    proof {
        assert(s@.skip(0) =~= s@);
    }
    let mut t: usize = 0;
    while t < s.len() && s[t] != sep
        invariant
            t <= s@.len(),
            run_len(s@, sep) == t + run_len(s@.skip(t as int), sep),
        decreases s@.len() - t,
    {
        proof {
            assert(s@.skip(t as int)[0] == s@[t as int]);
            assert(s@.skip(t as int).skip(1) =~= s@.skip(t + 1));
        }
        t += 1;
    }
    proof {
        if t < s.len() {
            assert(s@.skip(t as int)[0] == s@[t as int]);
            assert(run_len(s@.skip(t as int), sep) == 0);
        } else {
            assert(s@.skip(t as int).len() == 0);
        }
        assert(run_len(s@, sep) == t);
    }
    if t == s.len() {
        let whole = vstd::slice::slice_to_vec(s);
        let mut r: Vec<Vec<char>> = Vec::new();
        r.push(whole);
        assert(r@.map_values(|t2: Vec<char>| t2@) =~= spec_split_on(s@, sep));
        r
    } else {
        let seg = vstd::slice::slice_to_vec(&s[0..t]);
        let rest = &s[t + 1..s.len()];
        assert(rest@ == s@.skip(t + 1));
        let mut r = split_on_exec(rest, sep);
        r.insert(0, seg);
        assert(r@.map_values(|t2: Vec<char>| t2@) =~= spec_split_on(s@, sep));
        r
    }
}

/// Drop leading whitespace.
pub fn trim_start_exec<'a>(s: &'a [char]) -> (r: &'a [char])
    ensures
        r@ == spec_trim_start(s@),
    decreases s@.len(),
{
    if s.len() > 0 {
        let c = s[0];
        if c == ' ' || c == '\t' || c == '\n' || c == '\r' {
            let rest = &s[1..s.len()];
            assert(rest@ == s@.skip(1));
            return trim_start_exec(rest);
        }
    }
    s
}

/// Drop trailing whitespace.
pub fn trim_end_exec<'a>(s: &'a [char]) -> (r: &'a [char])
    ensures
        r@ == spec_trim_end(s@),
    decreases s@.len(),
{
    if s.len() > 0 {
        let c = s[s.len() - 1];
        if c == ' ' || c == '\t' || c == '\n' || c == '\r' {
            let rest = &s[0..s.len() - 1];
            assert(rest@ == s@.take(s@.len() - 1));
            return trim_end_exec(rest);
        }
    }
    s
}

/// Drop leading and trailing whitespace.
pub fn trim_exec<'a>(s: &'a [char]) -> (r: &'a [char])
    ensures
        r@ == spec_trim(s@),
{
    trim_end_exec(trim_start_exec(s))
}

/// Join parts with single occurrences of `sep`.
pub fn join_exec(parts: &[Vec<char>], sep: char) -> (r: Vec<char>)
    ensures
        r@ == join_with(parts@.map_values(|t: Vec<char>| t@), sep),
    decreases parts@.len(),
{
    let ghost gp = parts@.map_values(|t: Vec<char>| t@);
    if parts.len() == 0 {
        let r: Vec<char> = Vec::new();
        assert(r@ =~= join_with(gp, sep));
        r
    } else if parts.len() == 1 {
        let r = vstd::slice::slice_to_vec(parts[0].as_slice());
        assert(r@ == gp[0]);
        r
    } else {
        let mut r = vstd::slice::slice_to_vec(parts[0].as_slice());
        r.push(sep);
        let tail = &parts[1..parts.len()];
        assert(tail@ == parts@.skip(1));
        let rest = join_exec(tail, sep);
        push_all(&mut r, rest.as_slice());
        proof {
            assert(tail@.map_values(|t: Vec<char>| t@) =~= gp.skip(1));
            assert(r@ =~= gp[0] + seq![sep] + join_with(gp.skip(1), sep));
        }
        r
    }
}

/// Whether `s` begins with `p`.
pub fn starts_with_exec(s: &[char], p: &[char]) -> (b: bool)
    ensures
        b == spec_starts_with(s@, p@),
{
    if s.len() < p.len() {
        return false;
    }
    let mut i: usize = 0;
    while i < p.len()
        invariant
            i <= p@.len() <= s@.len(),
            forall|j: int| 0 <= j < i ==> s@[j] == p@[j],
        decreases p@.len() - i,
    {
        if s[i] != p[i] {
            proof {
                assert(s@.take(p@.len() as int)[i as int] == s@[i as int]);
            }
            return false;
        }
        i += 1;
    }
    proof {
        assert(s@.take(p@.len() as int) =~= p@);
    }
    true
}

} // verus!
