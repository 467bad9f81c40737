//! Character and string helpers: ASCII case folding, decimal formatting and
//! parsing, and whitespace trimming, each specified over sequences of
//! characters.

use vstd::prelude::*;

verus! {

/// ASCII upper-casing of a single character: a lowercase ASCII letter is
/// mapped to its uppercase form, every other character is unchanged.
pub open spec fn upper_char(c: char) -> char {
    if 'a' <= c && c <= 'z' {
        ((c as u32 - 32) as u8) as char
    } else {
        c
    }
}

pub fn to_upper_char(c: char) -> (r: char)
    ensures
        r == upper_char(c),
{
    let u = c as u32;
    if 97 <= u && u <= 122 {
        ((u - 32) as u8) as char
    } else {
        c
    }
}

/// Upper-casing is idempotent: no lowercase letter is ever produced.
pub proof fn lemma_upper_idempotent(c: char)
    ensures
        upper_char(upper_char(c)) == upper_char(c),
{
}

pub open spec fn is_digit_char(c: char) -> bool {
    '0' <= c && c <= '9'
}

pub open spec fn digit_val(c: char) -> int {
    c as u32 - 48
}

pub open spec fn digit_char(d: int) -> char {
    ((d + 48) as u8) as char
}

/// The decimal representation of a non-negative integer, most significant
/// digit first, with no leading zeros (the number 0 is the single digit `0`).
pub open spec fn dec_rep(n: int) -> Seq<char>
    recommends
        n >= 0,
    decreases n,
{
    if n < 10 {
        seq![digit_char(if n >= 0 { n } else { 0 })]
    } else {
        dec_rep(n / 10).push(digit_char(n % 10))
    }
}

/// The decimal representation of an integer, with a leading minus sign when
/// it is negative.
pub open spec fn int_rep(n: int) -> Seq<char> {
    if n < 0 {
        seq!['-'] + dec_rep(-n)
    } else {
        dec_rep(n)
    }
}

/// Relies on `String::push`: appends one character to the end of the string.
#[verifier::external_body]
pub fn push_char(s: &mut String, c: char)
    ensures
        final(s)@ == old(s)@ + seq![c],
{
    s.push(c)
}

/// Appends the decimal representation of `n` to `s`.
pub fn push_u64_dec(s: &mut String, n: u64)
    ensures
        final(s)@ == old(s)@ + dec_rep(n as int),
    decreases n,
{
    if n >= 10 {
        push_u64_dec(s, n / 10);
        push_char(s, ((n % 10) as u8 + 48) as char);
    } else {
        push_char(s, (n as u8 + 48) as char);
    }
}

/// Appends the decimal representation of `n`, with a minus sign when it is
/// negative.
pub fn push_i32_dec(s: &mut String, n: i32)
    ensures
        final(s)@ == old(s)@ + int_rep(n as int),
{
    if n < 0 {
        push_char(s, '-');
        push_u64_dec(s, (-(n as i64)) as u64);
    } else {
        push_u64_dec(s, n as u64);
    }
}

pub open spec fn all_digits(s: Seq<char>) -> bool {
    forall|i: int| 0 <= i < s.len() ==> is_digit_char(#[trigger] s[i])
}

/// The value of a sequence of decimal digits, most significant first.
pub open spec fn digits_value(s: Seq<char>) -> int
    decreases s.len(),
{
    if s.len() == 0 {
        0
    } else {
        digits_value(s.drop_last()) * 10 + digit_val(s.last())
    }
}

/// What a decimal numeral denotes: `None` when the text is not an optional
/// sign followed by at least one digit; otherwise the sign and the value of
/// the digits.
pub open spec fn spec_parse_num(s: Seq<char>) -> Option<(bool, int)> {
    if s.len() > 0 && (s[0] == '+' || s[0] == '-') {
        let rest = s.subrange(1, s.len() as int);
        if rest.len() > 0 && all_digits(rest) {
            Some((s[0] == '-', digits_value(rest)))
        } else {
            None
        }
    } else {
        if s.len() > 0 && all_digits(s) {
            Some((false, digits_value(s)))
        } else {
            None
        }
    }
}

pub proof fn lemma_digits_value_nonneg(s: Seq<char>)
    requires
        all_digits(s),
    ensures
        digits_value(s) >= 0,
    decreases s.len(),
{
    if s.len() > 0 {
        assert(all_digits(s.drop_last())) by {
            assert(forall|i: int|
                0 <= i < s.len() - 1 ==> is_digit_char(#[trigger] s.drop_last()[i]) == is_digit_char(
                    s[i],
                ));
        }
        lemma_digits_value_nonneg(s.drop_last());
    }
}

proof fn lemma_digits_value_prefix(s: Seq<char>, i: int)
    requires
        all_digits(s),
        0 <= i <= s.len(),
    ensures
        digits_value(s.subrange(0, i)) <= digits_value(s),
    decreases s.len() - i,
{
    if i < s.len() {
        lemma_digits_value_prefix(s, i + 1);
        let p = s.subrange(0, i);
        let q = s.subrange(0, i + 1);
        assert(q.drop_last() =~= p);
        assert(all_digits(p));
        lemma_digits_value_nonneg(p);
        assert(digit_val(q.last()) >= 0);
        assert(digits_value(q) == digits_value(p) * 10 + digit_val(q.last()));
    } else {
        assert(s.subrange(0, i) =~= s);
    }
}

/// Parses `s@.subrange(start, ..)` as a plain run of decimal digits: `Some`
/// exactly when the run is non-empty, all digits, and its value is at most
/// `cap`.
fn parse_digits(s: &str, start: usize, cap: u64) -> (r: Option<u64>)
    requires
        start <= s@.len(),
        cap <= 0xFFFF_FFFF,
    ensures
        ({
            let t = s@.subrange(start as int, s@.len() as int);
            match r {
                Some(v) => t.len() > 0 && all_digits(t) && v == digits_value(t) && v <= cap,
                None => !(t.len() > 0 && all_digits(t) && digits_value(t) <= cap),
            }
        }),
{
    let ghost t = s@.subrange(start as int, s@.len() as int);
    let n = s.unicode_len();
    if start == n {
        return None;
    }
    let mut acc: u64 = 0;
    let mut i: usize = start;
    while i < n
        invariant
            start <= i <= n,
            n == s@.len(),
            t == s@.subrange(start as int, n as int),
            cap <= 0xFFFF_FFFF,
            all_digits(t.subrange(0, i - start)),
            acc == digits_value(t.subrange(0, i - start)),
            acc <= cap,
        decreases n - i,
    {
        let c = s.get_char(i);
        let u = c as u32;
        if u < 48 || u > 57 {
            proof {
                assert(t[i - start] == c);
                assert(!is_digit_char(c));
            }
            return None;
        }
        let d = (u - 48) as u64;
        let next = acc * 10 + d;
        proof {
            let p = t.subrange(0, i - start);
            let q = t.subrange(0, i + 1 - start);
            assert(q.drop_last() =~= p);
            assert(q.last() == t[i - start]);
            assert(t[i - start] == c);
            assert(digits_value(q) == digits_value(p) * 10 + digit_val(c));
        }
        if next > cap {
            proof {
                if all_digits(t) {
                    lemma_digits_value_prefix(t, i + 1 - start);
                }
            }
            return None;
        }
        acc = next;
        i = i + 1;
    }
    proof {
        assert(t.subrange(0, n - start) =~= t);
    }
    Some(acc)
}

/// Parses the text of an unsigned 32-bit number as `str::parse::<u32>` does:
/// an optional leading `+`, then one or more decimal digits whose value fits.
pub fn parse_u32_str(s: &str) -> (r: Option<u32>)
    ensures
        spec_parse_num(s@) matches Some((neg, v)) ==> v >= 0,
        r == (match spec_parse_num(s@) {
            Some((neg, v)) => if !neg && v <= u32::MAX {
                Some(v as u32)
            } else {
                None::<u32>
            },
            None => None::<u32>,
        }),
{
    let n = s.unicode_len();
    if n == 0 {
        return None;
    }
    let first = s.get_char(0);
    if first == '-' {
        proof {
            if spec_parse_num(s@) matches Some((neg, v)) {
                let rest = s@.subrange(1, s@.len() as int);
                lemma_digits_value_nonneg(rest);
            }
        }
        return None;
    }
    let start: usize = if first == '+' {
        1
    } else {
        0
    };
    proof {
        if first != '+' {
            assert(s@.subrange(0, s@.len() as int) =~= s@);
        }
    }
    match parse_digits(s, start, 0xFFFF_FFFF) {
        Some(v) => Some(v as u32),
        None => None,
    }
}

/// Parses the text of an unsigned 8-bit number as `str::parse::<u8>` does.
pub fn parse_u8_str(s: &str) -> (r: Option<u8>)
    ensures
        spec_parse_num(s@) matches Some((neg, v)) ==> v >= 0,
        r == (match spec_parse_num(s@) {
            Some((neg, v)) => if !neg && v <= u8::MAX {
                Some(v as u8)
            } else {
                None::<u8>
            },
            None => None::<u8>,
        }),
{
    let n = s.unicode_len();
    if n == 0 {
        return None;
    }
    let first = s.get_char(0);
    if first == '-' {
        proof {
            if spec_parse_num(s@) matches Some((neg, v)) {
                let rest = s@.subrange(1, s@.len() as int);
                lemma_digits_value_nonneg(rest);
            }
        }
        return None;
    }
    let start: usize = if first == '+' {
        1
    } else {
        0
    };
    proof {
        if first != '+' {
            assert(s@.subrange(0, s@.len() as int) =~= s@);
        }
    }
    match parse_digits(s, start, 255) {
        Some(v) => Some(v as u8),
        None => None,
    }
}

/// Parses the text of a signed 32-bit number as `str::parse::<i32>` does:
/// an optional leading `+` or `-`, then one or more decimal digits, with the
/// signed value required to fit.
pub fn parse_i32_str(s: &str) -> (r: Option<i32>)
    ensures
        spec_parse_num(s@) matches Some((neg, v)) ==> v >= 0,
        r == (match spec_parse_num(s@) {
            Some((neg, v)) => if neg && v <= 0x8000_0000 {
                Some((-v) as i32)
            } else if !neg && v <= i32::MAX {
                Some(v as i32)
            } else {
                None::<i32>
            },
            None => None::<i32>,
        }),
{
    let n = s.unicode_len();
    if n == 0 {
        return None;
    }
    let first = s.get_char(0);
    if first == '-' {
        match parse_digits(s, 1, 0x8000_0000 - 1 + 1) {
            Some(v) => Some((-(v as i64)) as i32),
            None => None,
        }
    } else {
        let start: usize = if first == '+' {
            1
        } else {
            0
        };
        proof {
            if first != '+' {
                assert(s@.subrange(0, s@.len() as int) =~= s@);
            }
        }
        match parse_digits(s, start, 0x7FFF_FFFF) {
            Some(v) => Some(v as i32),
            None => None,
        }
    }
}

/// The characters with the Unicode `White_Space` property.
pub open spec fn is_ws_char(c: char) -> bool {
    ||| c == '\u{9}'
    ||| c == '\u{A}'
    ||| c == '\u{B}'
    ||| c == '\u{C}'
    ||| c == '\u{D}'
    ||| c == ' '
    ||| c == '\u{85}'
    ||| c == '\u{A0}'
    ||| c == '\u{1680}'
    ||| ('\u{2000}' <= c && c <= '\u{200A}')
    ||| c == '\u{2028}'
    ||| c == '\u{2029}'
    ||| c == '\u{202F}'
    ||| c == '\u{205F}'
    ||| c == '\u{3000}'
}

fn is_ws(c: char) -> (r: bool)
    ensures
        r == is_ws_char(c),
{
    let u = c as u32;
    (9 <= u && u <= 13) || u == 0x20 || u == 0x85 || u == 0xA0 || u == 0x1680 || (0x2000 <= u && u
        <= 0x200A) || u == 0x2028 || u == 0x2029 || u == 0x202F || u == 0x205F || u == 0x3000
}

/// `s` with its leading and trailing whitespace removed.
pub open spec fn trim_view(s: Seq<char>) -> Seq<char> {
    trim_end_view(trim_start_view(s))
}

pub open spec fn trim_start_view(s: Seq<char>) -> Seq<char>
    decreases s.len(),
{
    if s.len() > 0 && is_ws_char(s[0]) {
        trim_start_view(s.subrange(1, s.len() as int))
    } else {
        s
    }
}

pub open spec fn trim_end_view(s: Seq<char>) -> Seq<char>
    decreases s.len(),
{
    if s.len() > 0 && is_ws_char(s.last()) {
        trim_end_view(s.drop_last())
    } else {
        s
    }
}

proof fn lemma_trim_start_at(s: Seq<char>, i: int)
    requires
        0 <= i <= s.len(),
        forall|k: int| 0 <= k < i ==> is_ws_char(#[trigger] s[k]),
        i < s.len() ==> !is_ws_char(s[i]),
    ensures
        trim_start_view(s) == s.subrange(i, s.len() as int),
    decreases i,
{
    if i == 0 {
        assert(s.subrange(0, s.len() as int) =~= s);
    } else {
        let t = s.subrange(1, s.len() as int);
        lemma_trim_start_at(t, i - 1);
        assert(t.subrange(i - 1, t.len() as int) =~= s.subrange(i, s.len() as int));
    }
}

proof fn lemma_trim_end_at(s: Seq<char>, j: int)
    requires
        0 <= j <= s.len(),
        forall|k: int| j <= k < s.len() ==> is_ws_char(#[trigger] s[k]),
        j > 0 ==> !is_ws_char(s[j - 1]),
    ensures
        trim_end_view(s) == s.subrange(0, j),
    decreases s.len() - j,
{
    if j == s.len() {
        assert(s.subrange(0, j) =~= s);
    } else {
        let t = s.drop_last();
        lemma_trim_end_at(t, j);
        assert(t.subrange(0, j) =~= s.subrange(0, j));
    }
}

/// Removes leading and trailing whitespace, as `str::trim` does.
pub fn trim_str<'a>(s: &'a str) -> (r: &'a str)
    ensures
        r@ == trim_view(s@),
{
    let n = s.unicode_len();
    let mut i: usize = 0;
    while i < n && is_ws(s.get_char(i))
        invariant
            0 <= i <= n,
            n == s@.len(),
            forall|k: int| 0 <= k < i ==> is_ws_char(#[trigger] s@[k]),
        decreases n - i,
    {
        i = i + 1;
    }
    let mut j: usize = n;
    while j > i && is_ws(s.get_char(j - 1))
        invariant
            i <= j <= n,
            n == s@.len(),
            forall|k: int| j <= k < n ==> is_ws_char(#[trigger] s@[k]),
        decreases j,
    {
        j = j - 1;
    }
    proof {
        lemma_trim_start_at(s@, i as int);
        let t = s@.subrange(i as int, n as int);
        if j == i {
            lemma_trim_end_at(t, 0);
        } else {
            lemma_trim_end_at(t, j - i);
        }
        assert(t.subrange(0, j - i) =~= s@.subrange(i as int, j as int));
    }
    s.substring_char(i, j)
}

} // verus!
