//! Character and number-to-text helpers shared by the tokenizer, the URL
//! builders and the embed builders.

use vstd::prelude::*;

verus! {

/// Relies on String::push of std: appends exactly one character.
#[verifier::external_body]
pub fn push_char(s: &mut String, c: char)
    ensures
        final(s)@ == old(s)@.push(c),
{
    s.push(c);
}

/// Whitespace as the tokenizer understands it: token separators of chat
/// messages.
pub open spec fn is_ws_char(c: char) -> bool {
    c == ' ' || c == '\t' || c == '\n' || c == '\r'
}

pub fn is_ws(c: char) -> (r: bool)
    ensures
        r == is_ws_char(c),
{
    c == ' ' || c == '\t' || c == '\n' || c == '\r'
}

pub open spec fn is_digit_char(c: char) -> bool {
    '0' <= c && c <= '9'
}

pub fn is_digit(c: char) -> (r: bool)
    ensures
        r == is_digit_char(c),
{
    '0' <= c && c <= '9'
}

/// ASCII lowercasing of one character; anything but `A`-`Z` is unchanged.
pub open spec fn lower_char(c: char) -> char {
    if 'A' <= c && c <= 'Z' {
        ((c as u32) + 32) as char
    } else {
        c
    }
}

pub fn to_lower(c: char) -> (r: char)
    ensures
        r == lower_char(c),
{
    match c {
        'A' => 'a',
        'B' => 'b',
        'C' => 'c',
        'D' => 'd',
        'E' => 'e',
        'F' => 'f',
        'G' => 'g',
        'H' => 'h',
        'I' => 'i',
        'J' => 'j',
        'K' => 'k',
        'L' => 'l',
        'M' => 'm',
        'N' => 'n',
        'O' => 'o',
        'P' => 'p',
        'Q' => 'q',
        'R' => 'r',
        'S' => 's',
        'T' => 't',
        'U' => 'u',
        'V' => 'v',
        'W' => 'w',
        'X' => 'x',
        'Y' => 'y',
        'Z' => 'z',
        _ => c,
    }
}

/// ASCII lowercasing of a whole sequence.
pub open spec fn lower_seq(s: Seq<char>) -> Seq<char> {
    s.map_values(|c: char| lower_char(c))
}

/// ASCII-lowercased copy of a string.
pub fn lowercased(s: &str) -> (r: String)
    ensures
        r@ == lower_seq(s@),
{
    let len = s.unicode_len();
    let mut out = String::new();
    let mut i: usize = 0;
    while i < len
        invariant
            i <= len,
            len == s@.len(),
            out@ == lower_seq(s@.take(i as int)),
        decreases len - i,
    {
        let c = s.get_char(i);
        push_char(&mut out, to_lower(c));
        proof {
            assert(s@.take(i + 1).map_values(|c: char| lower_char(c)) =~= s@.take(
                i as int,
            ).map_values(|c: char| lower_char(c)).push(lower_char(s@[i as int])));
        }
        i += 1;
    }
    proof {
        assert(s@.take(len as int) =~= s@);
    }
    out
}

/// The decimal digit character for one digit value.
pub open spec fn digit_char(d: int) -> char {
    if d == 0 {
        '0'
    } else if d == 1 {
        '1'
    } else if d == 2 {
        '2'
    } else if d == 3 {
        '3'
    } else if d == 4 {
        '4'
    } else if d == 5 {
        '5'
    } else if d == 6 {
        '6'
    } else if d == 7 {
        '7'
    } else if d == 8 {
        '8'
    } else {
        '9'
    }
}

fn digit_to_char(d: u64) -> (r: char)
    requires
        d < 10,
    ensures
        r == digit_char(d as int),
{
    match d {
        0 => '0',
        1 => '1',
        2 => '2',
        3 => '3',
        4 => '4',
        5 => '5',
        6 => '6',
        7 => '7',
        8 => '8',
        _ => '9',
    }
}

/// The decimal digits of `n`, most significant first, no leading zeros
/// (a single zero for zero).
pub open spec fn dec_digits(n: int) -> Seq<char>
    decreases n,
{
    if n < 10 {
        seq![digit_char(n)]
    } else {
        dec_digits(n / 10).push(digit_char(n % 10))
    }
}

/// Decimal rendering of an unsigned number.
pub fn u64_to_dec(n: u64) -> (r: String)
    ensures
        r@ == dec_digits(n as int),
    decreases n,
{
    if n < 10 {
        let mut out = String::new();
        push_char(&mut out, digit_to_char(n));
        proof {
            assert(out@ =~= dec_digits(n as int));
        }
        out
    } else {
        let mut out = u64_to_dec(n / 10);
        push_char(&mut out, digit_to_char(n % 10));
        out
    }
}

/// Digits grouped by thousands with commas, from the right.
pub open spec fn comma_sep(digits: Seq<char>) -> Seq<char>
    decreases digits.len(),
{
    if digits.len() <= 3 {
        digits
    } else {
        comma_sep(digits.take(digits.len() - 3)) + seq![','] + digits.skip(digits.len() - 3)
    }
}

fn group_commas(digits: &str) -> (r: String)
    ensures
        r@ == comma_sep(digits@),
    decreases digits@.len(),
{
    let len = digits.unicode_len();
    if len <= 3 {
        let out = digits.to_owned();
        proof {
            assert(out@ =~= comma_sep(digits@));
        }
        out
    } else {
        let head = digits.substring_char(0, len - 3);
        let tail = digits.substring_char(len - 3, len);
        let mut out = group_commas(head);
        out.append(",");
        out.append(tail);
        proof {
            reveal_strlit(",");
            assert(","@ =~= seq![',']);
            assert(out@ =~= comma_sep(digits@));
        }
        out
    }
}

/// A number with its thousands separated by commas.
pub fn with_comma_u64(n: u64) -> (r: String)
    ensures
        r@ == comma_sep(dec_digits(n as int)),
{
    let digits = u64_to_dec(n);
    group_commas(digits.as_str())
}

/// Uppercase of one ASCII character; anything but `a`-`z` is unchanged.
pub open spec fn upper_char(c: char) -> char {
    if 'a' <= c && c <= 'z' {
        ((c as u32) - 32) as char
    } else {
        c
    }
}

pub fn to_upper(c: char) -> (r: char)
    ensures
        r == upper_char(c),
{
    match c {
        'a' => 'A',
        'b' => 'B',
        'c' => 'C',
        'd' => 'D',
        'e' => 'E',
        'f' => 'F',
        'g' => 'G',
        'h' => 'H',
        'i' => 'I',
        'j' => 'J',
        'k' => 'K',
        'l' => 'L',
        'm' => 'M',
        'n' => 'N',
        'o' => 'O',
        'p' => 'P',
        'q' => 'Q',
        'r' => 'R',
        's' => 'S',
        't' => 'T',
        'u' => 'U',
        'v' => 'V',
        'w' => 'W',
        'x' => 'X',
        'y' => 'Y',
        'z' => 'Z',
        _ => c,
    }
}

/// The lowercase hexadecimal digit character for one digit value.
pub open spec fn hex_digit_char(d: int) -> char {
    if d < 10 {
        digit_char(d)
    } else if d == 10 {
        'a'
    } else if d == 11 {
        'b'
    } else if d == 12 {
        'c'
    } else if d == 13 {
        'd'
    } else if d == 14 {
        'e'
    } else {
        'f'
    }
}

fn hex_digit_to_char(d: u32) -> (r: char)
    requires
        d < 16,
    ensures
        r == hex_digit_char(d as int),
{
    match d {
        0 => '0',
        1 => '1',
        2 => '2',
        3 => '3',
        4 => '4',
        5 => '5',
        6 => '6',
        7 => '7',
        8 => '8',
        9 => '9',
        10 => 'a',
        11 => 'b',
        12 => 'c',
        13 => 'd',
        14 => 'e',
        _ => 'f',
    }
}

/// The lowercase hexadecimal digits of `n`, most significant first.
pub open spec fn hex_digits(n: int) -> Seq<char>
    decreases n,
{
    if n < 16 {
        seq![hex_digit_char(n)]
    } else {
        hex_digits(n / 16).push(hex_digit_char(n % 16))
    }
}

/// Lowercase hexadecimal rendering of an unsigned number.
pub fn u32_to_hex(n: u32) -> (r: String)
    ensures
        r@ == hex_digits(n as int),
    decreases n,
{
    if n < 16 {
        let mut out = String::new();
        push_char(&mut out, hex_digit_to_char(n));
        proof {
            assert(out@ =~= hex_digits(n as int));
        }
        out
    } else {
        let mut out = u32_to_hex(n / 16);
        push_char(&mut out, hex_digit_to_char(n % 16));
        out
    }
}

/// The decimal digits of a signed number, a minus sign leading when it is
/// negative.
pub open spec fn dec_digits_signed(n: int) -> Seq<char> {
    if n < 0 {
        seq!['-'] + dec_digits(-n)
    } else {
        dec_digits(n)
    }
}

/// Decimal rendering of a signed number.
pub fn i64_to_dec(n: i64) -> (r: String)
    ensures
        r@ == dec_digits_signed(n as int),
{
    if n >= 0 {
        u64_to_dec(n as u64)
    } else {
        let mag: u64 = ((-(n + 1)) as u64) + 1;
        let mut out = String::new();
        push_char(&mut out, '-');
        let digits = u64_to_dec(mag);
        out.append(digits.as_str());
        proof {
            assert(out@ =~= dec_digits_signed(n as int));
        }
        out
    }
}

/// The numeric value of a sequence of decimal digit characters.
pub open spec fn dec_value(s: Seq<char>) -> int
    decreases s.len(),
{
    if s.len() == 0 {
        0
    } else {
        dec_value(s.drop_last()) * 10 + (s.last() as int - '0' as int)
    }
}

/// Parse a sequence of decimal digits from a character-indexable string
/// range; `None` exactly when the range is empty, holds a non-digit, or
/// its value does not fit.
pub fn parse_u64_range(s: &str, from: usize, to: usize) -> (r: Option<u64>)
    requires
        from <= to <= s@.len(),
    ensures
        match r {
            Some(v) => (forall|k: int| from <= k < to ==> is_digit_char(#[trigger] s@[k])) && to
                > from && v as int == dec_value(s@.subrange(from as int, to as int)),
            None => to == from || (exists|k: int|
                from <= k < to && !is_digit_char(#[trigger] s@[k])) || dec_value(
                s@.subrange(from as int, to as int),
            ) > u64::MAX,
        },
{
    if to == from {
        return None;
    }
    let mut acc: u64 = 0;
    let mut i: usize = from;
    while i < to
        invariant
            from <= i <= to <= s@.len(),
            forall|k: int| from <= k < i ==> is_digit_char(#[trigger] s@[k]),
            acc as int == dec_value(s@.subrange(from as int, i as int)),
        decreases to - i,
    {
        let c = s.get_char(i);
        if !is_digit(c) {
            return None;
        }
        let d: u64 = (c as u32 as u64) - 48;
        proof {
            assert(d < 10);
        }
        let overflow: bool = match acc.checked_mul(10) {
            Some(x) => match x.checked_add(d) {
                Some(y) => {
                    acc = y;
                    false
                },
                None => true,
            },
            None => true,
        };
        if overflow {
            proof {
                lemma_digits_overflow(s@, from as int, i as int, to as int);
            }
            return None;
        }
        proof {
            assert(s@.subrange(from as int, i + 1).drop_last() =~= s@.subrange(
                from as int,
                i as int,
            ));
            assert(s@.subrange(from as int, i + 1).last() == s@[i as int]);
        }
        i += 1;
    }
    proof {
        assert(s@.subrange(from as int, i as int) =~= s@.subrange(from as int, to as int));
    }
    Some(acc)
}

/// All-digit prefixes of a digit string are never worth more than the
/// whole string.
proof fn lemma_dec_value_extend(whole: Seq<char>, p: int)
    requires
        0 <= p <= whole.len(),
        forall|k: int| 0 <= k < whole.len() ==> is_digit_char(#[trigger] whole[k]),
    ensures
        dec_value(whole) >= dec_value(whole.subrange(0, p)),
        dec_value(whole.subrange(0, p)) >= 0,
    decreases whole.len() - p,
{
    let pre = whole.subrange(0, p);
    assert(forall|k: int| 0 <= k < pre.len() ==> is_digit_char(#[trigger] pre[k]));
    lemma_dec_value_nonneg(pre);
    if p < whole.len() {
        let mid = whole.subrange(0, p + 1);
        assert(mid.drop_last() =~= pre);
        assert(mid.last() == whole[p]);
        assert(dec_value(mid) == dec_value(pre) * 10 + (whole[p] as int - '0' as int));
        assert(dec_value(pre) * 10 >= dec_value(pre)) by (nonlinear_arith)
            requires
                dec_value(pre) >= 0,
        ;
        lemma_dec_value_extend(whole, p + 1);
        assert(whole.subrange(0, p + 1) =~= mid);
    } else {
        assert(pre =~= whole);
    }
}

proof fn lemma_dec_value_nonneg(s: Seq<char>)
    requires
        forall|k: int| 0 <= k < s.len() ==> is_digit_char(#[trigger] s[k]),
    ensures
        dec_value(s) >= 0,
    decreases s.len(),
{
    if s.len() > 0 {
        assert(forall|k: int|
            0 <= k < s.drop_last().len() ==> is_digit_char(#[trigger] s.drop_last()[k]));
        lemma_dec_value_nonneg(s.drop_last());
        assert(dec_value(s.drop_last()) * 10 >= 0) by (nonlinear_arith)
            requires
                dec_value(s.drop_last()) >= 0,
        ;
    }
}

/// When accumulating digits overflows at position `i`, either a later
/// character is not a digit, or the whole range's value does not fit.
proof fn lemma_digits_overflow(s: Seq<char>, from: int, i: int, to: int)
    requires
        0 <= from <= i < to <= s.len(),
        forall|k: int| from <= k <= i ==> is_digit_char(#[trigger] s[k]),
        dec_value(s.subrange(from, i)) * 10 + (s[i] as int - '0' as int) > u64::MAX,
    ensures
        (exists|k: int| from <= k < to && !is_digit_char(#[trigger] s[k])) || dec_value(
            s.subrange(from, to),
        ) > u64::MAX,
{
    if forall|k: int| i < k < to ==> is_digit_char(#[trigger] s[k]) {
        let whole = s.subrange(from, to);
        assert(forall|k: int| 0 <= k < whole.len() ==> is_digit_char(#[trigger] whole[k]));
        let pre = s.subrange(from, i);
        let mid = s.subrange(from, i + 1);
        assert(mid.drop_last() =~= pre);
        assert(mid.last() == s[i]);
        assert(dec_value(mid) == dec_value(pre) * 10 + (s[i] as int - '0' as int));
        lemma_dec_value_extend(whole, i + 1 - from);
        assert(whole.subrange(0, i + 1 - from) =~= mid);
    } else {
        let k = choose|k: int| i < k < to && !is_digit_char(#[trigger] s[k]);
        assert(from <= k < to && !is_digit_char(s[k]));
    }
}

} // verus!
