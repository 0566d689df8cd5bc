//! Small verified text utilities: decimal rendering of integers, fixed-
//! point money and percentage strings, ASCII case folding and substring
//! search over bytes, digit parsing, and file-path stems.

use vstd::prelude::*;

verus! {

/// The decimal digit character for `d` (0 to 9).
pub open spec fn spec_digit_char(d: int) -> char {
    if d == 0 {
        '0'
    } else if d == 1 {
        '1'
    } else if d == 2 {
        '2'
    } else if d == 3 {
        '3'
    } else if d == 4 {
        '4'
    } else if d == 5 {
        '5'
    } else if d == 6 {
        '6'
    } else if d == 7 {
        '7'
    } else if d == 8 {
        '8'
    } else {
        '9'
    }
}

/// The decimal rendering of a natural number, without leading zeros.
pub open spec fn spec_dec_str(n: nat) -> Seq<char>
    decreases n,
{
    if n < 10 {
        seq![spec_digit_char(n as int)]
    } else {
        spec_dec_str(n / 10).push(spec_digit_char((n % 10) as int))
    }
}

/// A single decimal digit as a string slice.
fn digit_str(d: u64) -> (r: &'static str)
    requires
        d < 10,
    ensures
        r@ == seq![spec_digit_char(d as int)],
{
    proof {
        reveal_strlit("0");
        reveal_strlit("1");
        reveal_strlit("2");
        reveal_strlit("3");
        reveal_strlit("4");
        reveal_strlit("5");
        reveal_strlit("6");
        reveal_strlit("7");
        reveal_strlit("8");
        reveal_strlit("9");
    }
    let r: &'static str = if d == 0 {
        "0"
    } else if d == 1 {
        "1"
    } else if d == 2 {
        "2"
    } else if d == 3 {
        "3"
    } else if d == 4 {
        "4"
    } else if d == 5 {
        "5"
    } else if d == 6 {
        "6"
    } else if d == 7 {
        "7"
    } else if d == 8 {
        "8"
    } else {
        "9"
    };
    proof {
        assert(r@ =~= seq![spec_digit_char(d as int)]);
    }
    r
}

/// Render a 64-bit natural number in decimal.
pub fn u64_to_string(n: u64) -> (r: String)
    ensures
        r@ == spec_dec_str(n as nat),
    decreases n,
{
    if n < 10 {
        digit_str(n).to_owned()
    } else {
        let mut s = u64_to_string(n / 10);
        s.append(digit_str(n % 10));
        proof {
            assert(s@ =~= spec_dec_str(n as nat));
        }
        s
    }
}

/// The decimal rendering of a signed integer: a minus sign for negative
/// values, then the digits of the magnitude.
pub open spec fn spec_dec_str_signed(n: int) -> Seq<char> {
    if n < 0 {
        seq!['-'] + spec_dec_str((-n) as nat)
    } else {
        spec_dec_str(n as nat)
    }
}

/// Render a 64-bit signed integer in decimal.
pub fn i64_to_string(n: i64) -> (r: String)
    ensures
        r@ == spec_dec_str_signed(n as int),
{
    if n >= 0 {
        u64_to_string(n as u64)
    } else {
        proof {
            reveal_strlit("-");
        }
        let mag: u64 = if n == i64::MIN {
            9223372036854775808u64
        } else {
            (-n) as u64
        };
        let mut s = "-".to_owned();
        let digits = u64_to_string(mag);
        s.append(digits.as_str());
        proof {
            assert(s@ =~= spec_dec_str_signed(n as int));
        }
        s
    }
}

/// Two decimal digits, zero-padded on the left.
pub open spec fn spec_two_digits(c: int) -> Seq<char> {
    seq![spec_digit_char(c / 10), spec_digit_char(c % 10)]
}

/// A money amount in micros rendered as dollars with two decimals,
/// truncated to the cent: 10_890_000 micros is "10.89".
pub open spec fn spec_money_str(micros: int) -> Seq<char> {
    spec_dec_str((micros / 1_000_000) as nat) + seq!['.'] + spec_two_digits(
        (micros / 10_000) % 100,
    )
}

/// Render a micro-dollar amount as dollars with two decimals, truncated.
pub fn money_string(micros: u64) -> (r: String)
    ensures
        r@ == spec_money_str(micros as int),
{
    proof {
        reveal_strlit(".");
    }
    let mut s = u64_to_string(micros / 1_000_000);
    s.append(".");
    let cents: u64 = (micros / 10_000) % 100;
    s.append(digit_str(cents / 10));
    s.append(digit_str(cents % 10));
    proof {
        assert(s@ =~= spec_money_str(micros as int));
    }
    s
}

/// A quantity in tenths rendered with one decimal: 123 tenths is "12.3".
pub open spec fn spec_one_decimal_str(tenths: int) -> Seq<char> {
    spec_dec_str((tenths / 10) as nat) + seq!['.'] + seq![spec_digit_char(tenths % 10)]
}

/// Render a quantity of tenths with one decimal place.
pub fn one_decimal_string(tenths: u64) -> (r: String)
    ensures
        r@ == spec_one_decimal_str(tenths as int),
{
    proof {
        reveal_strlit(".");
    }
    let mut s = u64_to_string(tenths / 10);
    s.append(".");
    s.append(digit_str(tenths % 10));
    proof {
        assert(s@ =~= spec_one_decimal_str(tenths as int));
    }
    s
}

/// Whether two string slices hold the same characters.
pub fn str_eq(a: &str, b: &str) -> (r: bool)
    ensures
        r == (a@ == b@),
{
    let sa = a.to_owned();
    let sb = b.to_owned();
    sa == sb
}

/// ASCII lowercase of one byte: letters 'A' to 'Z' move down by 32.
pub open spec fn spec_lower_byte(b: u8) -> u8 {
    if 65 <= b <= 90 {
        (b + 32) as u8
    } else {
        b
    }
}

/// ASCII lowercase of a byte sequence.
pub open spec fn spec_lower_bytes(s: Seq<u8>) -> Seq<u8> {
    s.map_values(|b: u8| spec_lower_byte(b))
}

/// Lowercase the ASCII letters of a byte string.
pub fn lower_bytes(s: &[u8]) -> (r: Vec<u8>)
    ensures
        r@ == spec_lower_bytes(s@),
{
    let mut out: Vec<u8> = Vec::new();
    let mut i: usize = 0;
    while i < s.len()
        invariant
            i <= s@.len(),
            out@ =~= spec_lower_bytes(s@.take(i as int)),
        decreases s@.len() - i,
    {
        let b = s[i];
        if 65 <= b && b <= 90 {
            out.push(b + 32);
        } else {
            out.push(b);
        }
        proof {
            assert(s@.take(i + 1).drop_last() =~= s@.take(i as int));
            assert(out@ =~= spec_lower_bytes(s@.take(i + 1)));
        }
        i = i + 1;
    }
    proof {
        assert(s@.take(s@.len() as int) =~= s@);
    }
    out
}

/// Whether `needle` occurs as a contiguous subsequence of `haystack`.
pub open spec fn spec_contains_sub(haystack: Seq<u8>, needle: Seq<u8>) -> bool {
    exists|i: int|
        0 <= i && i + needle.len() <= haystack.len() && #[trigger] haystack.subrange(
            i,
            i + needle.len() as int,
        ) == needle
}

/// Whether `needle` matches `haystack` at offset `i`.
fn match_at(haystack: &Vec<u8>, needle: &Vec<u8>, i: usize) -> (r: bool)
    requires
        i + needle@.len() <= haystack@.len(),
    ensures
        r == (haystack@.subrange(i as int, i as int + needle@.len() as int) == needle@),
{
    let hlen = haystack.len();
    let mut j: usize = 0;
    while j < needle.len()
        invariant
            i + needle@.len() <= haystack@.len(),
            hlen == haystack@.len(),
            j <= needle@.len(),
            forall|k: int| 0 <= k < j ==> haystack@[i + k] == needle@[k],
        decreases needle@.len() - j,
    {
        if haystack[i + j] != needle[j] {
            proof {
                assert(haystack@.subrange(i as int, i as int + needle@.len() as int)[j as int]
                    == haystack@[i + j]);
            }
            return false;
        }
        j = j + 1;
    }
    proof {
        assert(haystack@.subrange(i as int, i as int + needle@.len() as int) =~= needle@);
    }
    true
}

/// Naive substring search over bytes.
pub fn contains_sub(haystack: &Vec<u8>, needle: &Vec<u8>) -> (r: bool)
    ensures
        r == spec_contains_sub(haystack@, needle@),
{
    if needle.len() > haystack.len() {
        return false;
    }
    if needle.len() == 0 {
        proof {
            assert(haystack@.subrange(0, 0 + needle@.len() as int) =~= needle@);
        }
        return true;
    }
    let end = haystack.len() - needle.len();
    let mut i: usize = 0;
    while i <= end
        invariant
            1 <= needle@.len() <= haystack@.len(),
            end == haystack@.len() - needle@.len(),
            end < usize::MAX,
            i <= end + 1,
            forall|k: int|
                0 <= k < i ==> #[trigger] haystack@.subrange(k, k + needle@.len() as int)
                    != needle@,
        decreases end + 1 - i,
    {
        if match_at(haystack, needle, i) {
            return true;
        }
        i = i + 1;
    }
    false
}

/// Strict lexicographic order on byte sequences.
pub open spec fn spec_lex_less(a: Seq<u8>, b: Seq<u8>) -> bool
    decreases a.len(),
{
    if b.len() == 0 {
        false
    } else if a.len() == 0 {
        true
    } else if a[0] < b[0] {
        true
    } else if a[0] > b[0] {
        false
    } else {
        spec_lex_less(a.skip(1), b.skip(1))
    }
}

/// Compare two byte strings lexicographically.
pub fn lex_less(a: &Vec<u8>, b: &Vec<u8>) -> (r: bool)
    ensures
        r == spec_lex_less(a@, b@),
{
    let mut i: usize = 0;
    proof {
        assert(a@.skip(0) =~= a@);
        assert(b@.skip(0) =~= b@);
    }
    loop
        invariant
            i <= a@.len(),
            i <= b@.len(),
            forall|k: int| 0 <= k < i ==> a@[k] == b@[k],
            spec_lex_less(a@, b@) == spec_lex_less(a@.skip(i as int), b@.skip(i as int)),
        decreases a@.len() - i,
    {
        if i >= b.len() {
            proof {
                assert(b@.skip(i as int).len() == 0);
            }
            return false;
        }
        if i >= a.len() {
            proof {
                assert(a@.skip(i as int).len() == 0);
                assert(b@.skip(i as int).len() > 0);
            }
            return true;
        }
        let ab = a[i];
        let bb = b[i];
        proof {
            assert(a@.skip(i as int)[0] == a@[i as int]);
            assert(b@.skip(i as int)[0] == b@[i as int]);
        }
        if ab < bb {
            return true;
        }
        if ab > bb {
            return false;
        }
        proof {
            assert(a@.skip(i as int).skip(1) =~= a@.skip(i + 1));
            assert(b@.skip(i as int).skip(1) =~= b@.skip(i + 1));
        }
        i = i + 1;
    }
}

/// The first position of a byte in a string, scanning from offset `i`.
pub open spec fn spec_find_byte(s: Seq<u8>, b: u8, i: int) -> Option<int>
    decreases s.len() - i,
{
    if i < 0 || i >= s.len() {
        None
    } else if s[i] == b {
        Some(i)
    } else {
        spec_find_byte(s, b, i + 1)
    }
}

/// A found byte is the first occurrence at or after the scan start.
pub proof fn lemma_find_byte_at(s: Seq<u8>, b: u8, i: int, j: int)
    requires
        0 <= i <= j < s.len(),
        s[j] == b,
        forall|k: int| i <= k < j ==> s[k] != b,
    ensures
        spec_find_byte(s, b, i) == Some(j),
    decreases j - i,
{
    if i < j {
        lemma_find_byte_at(s, b, i + 1, j);
    }
}

/// A found byte lies within the string, at or after the scan start.
pub proof fn lemma_find_byte_range(s: Seq<u8>, b: u8, i: int)
    ensures
        spec_find_byte(s, b, i) matches Some(k) ==> 0 <= i <= k < s.len(),
    decreases s.len() - i,
{
    if 0 <= i < s.len() && s[i] != b {
        lemma_find_byte_range(s, b, i + 1);
    }
}

/// A byte that occurs nowhere at or after the scan start is not found.
pub proof fn lemma_find_byte_none(s: Seq<u8>, b: u8, i: int)
    requires
        forall|k: int| i <= k < s.len() ==> s[k] != b,
    ensures
        spec_find_byte(s, b, i) is None,
    decreases s.len() - i,
{
    if 0 <= i < s.len() {
        lemma_find_byte_none(s, b, i + 1);
    }
}

/// The lexicographic order on byte strings is transitive.
pub proof fn lemma_lex_less_trans(a: Seq<u8>, b: Seq<u8>, c: Seq<u8>)
    requires
        spec_lex_less(a, b),
        spec_lex_less(b, c),
    ensures
        spec_lex_less(a, c),
    decreases a.len() + b.len() + c.len(),
{
    if a.len() == 0 {
    } else {
        if a[0] == c[0] {
            assert(a[0] == b[0]);
            lemma_lex_less_trans(a.skip(1), b.skip(1), c.skip(1));
        }
    }
}

/// The lexicographic order is strict: nothing is below itself.
pub proof fn lemma_lex_less_irrefl(a: Seq<u8>)
    ensures
        !spec_lex_less(a, a),
    decreases a.len(),
{
    if a.len() > 0 {
        lemma_lex_less_irrefl(a.skip(1));
    }
}

/// Whether a byte is an ASCII decimal digit.
pub open spec fn spec_is_digit(b: u8) -> bool {
    48 <= b <= 57
}

/// Whether every byte of the sequence is a decimal digit, and there is at
/// least one.
pub open spec fn spec_all_digits(s: Seq<u8>) -> bool {
    s.len() > 0 && forall|i: int| 0 <= i < s.len() ==> spec_is_digit(#[trigger] s[i])
}

/// The number the digit string denotes.
pub open spec fn spec_digits_value(s: Seq<u8>) -> int
    decreases s.len(),
{
    if s.len() == 0 {
        0
    } else {
        spec_digits_value(s.drop_last()) * 10 + (s.last() - 48)
    }
}

/// Parse a non-empty all-digit byte string as a number, refusing values
/// above `u32::MAX` and any non-digit character.
pub fn parse_u32_digits(s: &Vec<u8>) -> (r: Option<u32>)
    ensures
        r matches Some(v) ==> spec_all_digits(s@) && v == spec_digits_value(s@) && spec_digits_value(
            s@,
        ) <= u32::MAX,
        r is None ==> !spec_all_digits(s@) || spec_digits_value(s@) > u32::MAX,
{
    if s.len() == 0 {
        return None;
    }
    let mut acc: u32 = 0;
    let mut i: usize = 0;
    while i < s.len()
        invariant
            0 < s@.len(),
            i <= s@.len(),
            forall|k: int| 0 <= k < i ==> spec_is_digit(#[trigger] s@[k]),
            acc == spec_digits_value(s@.take(i as int)),
            spec_digits_value(s@.take(i as int)) <= u32::MAX,
        decreases s@.len() - i,
    {
        let b = s[i];
        if b < 48 || b > 57 {
            return None;
        }
        let d: u32 = (b - 48) as u32;
        if acc > (u32::MAX - d) / 10 {
            proof {
                assert(s@.take(i + 1).drop_last() =~= s@.take(i as int));
                assert(s@.take(i + 1).last() == s@[i as int]);
                assert(spec_digits_value(s@.take(i + 1)) == acc * 10 + d);
                assert(acc * 10 + d > u32::MAX) by (nonlinear_arith)
                    requires
                        acc > (u32::MAX - d) / 10,
                        0 <= d <= 9,
                        acc >= 0,
                ;
                if spec_all_digits(s@) {
                    lemma_digits_value_monotone(s@, i + 1);
                }
            }
            return None;
        }
        acc = acc * 10 + d;
        proof {
            assert(s@.take(i + 1).drop_last() =~= s@.take(i as int));
            assert(s@.take(i + 1).last() == s@[i as int]);
        }
        i = i + 1;
    }
    proof {
        assert(s@.take(s@.len() as int) =~= s@);
    }
    Some(acc)
}

/// Once a prefix's value exceeds what extending by digits can shrink,
/// the whole string's value is at least the prefix's value: appending
/// digits never decreases the denoted number.
proof fn lemma_digits_value_monotone(s: Seq<u8>, i: int)
    requires
        0 <= i <= s.len(),
        forall|k: int| 0 <= k < s.len() ==> spec_is_digit(#[trigger] s[k]),
    ensures
        spec_digits_value(s) >= spec_digits_value(s.take(i)),
        spec_digits_value(s) >= 0,
        spec_digits_value(s.take(i)) >= 0,
    decreases s.len() - i,
{
    lemma_digits_value_nonneg(s.take(i));
    if i == s.len() {
        assert(s.take(i) =~= s);
        lemma_digits_value_nonneg(s);
    } else {
        lemma_digits_value_monotone(s, i + 1);
        assert(s.take(i + 1).drop_last() =~= s.take(i));
        assert(spec_digits_value(s.take(i + 1)) == spec_digits_value(s.take(i)) * 10 + (s[i]
            - 48));
        lemma_digits_value_nonneg(s.take(i));
        assert(spec_digits_value(s.take(i)) * 10 >= spec_digits_value(s.take(i)))
            by (nonlinear_arith)
            requires
                spec_digits_value(s.take(i)) >= 0,
        ;
    }
}

/// The value a digit string denotes is never negative.
proof fn lemma_digits_value_nonneg(s: Seq<u8>)
    requires
        forall|k: int| 0 <= k < s.len() ==> spec_is_digit(#[trigger] s[k]),
    ensures
        spec_digits_value(s) >= 0,
    decreases s.len(),
{
    if s.len() > 0 {
        lemma_digits_value_nonneg(s.drop_last());
    }
}

} // verus!
