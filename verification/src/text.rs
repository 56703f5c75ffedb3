//! Text helpers: equality and order of strings, decimal numerals.

use vstd::prelude::*;
use vstd::string::*;
use vstd::utf8::*;

verus! {

/// Whether two strings hold the same characters.
pub fn str_eq(a: &str, b: &str) -> (r: bool)
    ensures
        r == (a@ == b@),
{
    let x = a.as_bytes();
    let y = b.as_bytes();
    if x.len() != y.len() {
        return false;
    }
    let mut i: usize = 0;
    while i < x.len()
        invariant
            x@ == a.spec_bytes(),
            y@ == b.spec_bytes(),
            x@.len() == y@.len(),
            i <= x@.len(),
            forall|k: int| 0 <= k < i ==> x@[k] == y@[k],
        decreases x@.len() - i,
    {
        if x[i] != y[i] {
            return false;
        }
        i += 1;
    }
    proof {
        assert(x@ =~= y@);
        encode_utf8_decode_utf8(a@);
        encode_utf8_decode_utf8(b@);
    }
    true
}

/// Lexicographic order of byte strings: `a` comes no later than `b`.
pub open spec fn bytes_le(a: Seq<u8>, b: Seq<u8>) -> bool
    decreases a.len(),
{
    if a.len() == 0 {
        true
    } else if b.len() == 0 {
        false
    } else if a[0] != b[0] {
        a[0] < b[0]
    } else {
        bytes_le(a.drop_first(), b.drop_first())
    }
}

/// The order of two texts by their UTF-8 bytes, which is the order of their
/// code points.
pub open spec fn text_le(a: Seq<char>, b: Seq<char>) -> bool {
    bytes_le(encode_utf8(a), encode_utf8(b))
}

/// Every byte string comes no later than itself.
pub proof fn lemma_bytes_le_refl(a: Seq<u8>)
    ensures
        bytes_le(a, a),
    decreases a.len(),
{
    if a.len() > 0 {
        lemma_bytes_le_refl(a.drop_first());
    }
}

/// Of two byte strings, one comes no later than the other.
pub proof fn lemma_bytes_le_total(a: Seq<u8>, b: Seq<u8>)
    ensures
        bytes_le(a, b) || bytes_le(b, a),
    decreases a.len(),
{
    if a.len() > 0 && b.len() > 0 && a[0] == b[0] {
        lemma_bytes_le_total(a.drop_first(), b.drop_first());
    }
}

/// The order of byte strings is transitive.
pub proof fn lemma_bytes_le_trans(a: Seq<u8>, b: Seq<u8>, c: Seq<u8>)
    requires
        bytes_le(a, b),
        bytes_le(b, c),
    ensures
        bytes_le(a, c),
    decreases a.len(),
{
    if a.len() > 0 && b.len() > 0 && c.len() > 0 && a[0] == b[0] && b[0] == c[0] {
        lemma_bytes_le_trans(a.drop_first(), b.drop_first(), c.drop_first());
    }
}

/// Every text comes no later than itself.
pub proof fn lemma_text_le_refl(a: Seq<char>)
    ensures
        text_le(a, a),
{
    lemma_bytes_le_refl(encode_utf8(a));
}

/// Of two texts, one comes no later than the other.
pub proof fn lemma_text_le_total(a: Seq<char>, b: Seq<char>)
    ensures
        text_le(a, b) || text_le(b, a),
{
    lemma_bytes_le_total(encode_utf8(a), encode_utf8(b));
}

/// The order of texts is transitive.
pub proof fn lemma_text_le_trans(a: Seq<char>, b: Seq<char>, c: Seq<char>)
    requires
        text_le(a, b),
        text_le(b, c),
    ensures
        text_le(a, c),
{
    lemma_bytes_le_trans(encode_utf8(a), encode_utf8(b), encode_utf8(c));
}

/// How `bytes_le` reads when the two strings agree on their first `i` bytes.
proof fn lemma_bytes_le_skip(a: Seq<u8>, b: Seq<u8>, i: int)
    requires
        0 <= i <= a.len(),
        i <= b.len(),
        forall|k: int| 0 <= k < i ==> a[k] == b[k],
    ensures
        bytes_le(a, b) == bytes_le(a.skip(i), b.skip(i)),
    decreases i,
{
    if i > 0 {
        lemma_bytes_le_skip(a.drop_first(), b.drop_first(), i - 1);
        assert(a.drop_first().skip(i - 1) =~= a.skip(i));
        assert(b.drop_first().skip(i - 1) =~= b.skip(i));
    } else {
        assert(a.skip(0) =~= a);
        assert(b.skip(0) =~= b);
    }
}

/// Whether `a` comes no later than `b` in the order of their bytes.
pub fn str_le(a: &str, b: &str) -> (r: bool)
    ensures
        r == text_le(a@, b@),
{
    let x = a.as_bytes();
    let y = b.as_bytes();
    let mut i: usize = 0;
    while i < x.len() && i < y.len()
        invariant
            x@ == a.spec_bytes(),
            y@ == b.spec_bytes(),
            i <= x@.len(),
            i <= y@.len(),
            forall|k: int| 0 <= k < i ==> x@[k] == y@[k],
        decreases x@.len() - i,
    {
        if x[i] != y[i] {
            proof {
                lemma_bytes_le_skip(x@, y@, i as int);
            }
            return x[i] < y[i];
        }
        i += 1;
    }
    proof {
        lemma_bytes_le_skip(x@, y@, i as int);
    }
    i == x.len()
}

/// The character that writes the digit `d`.
pub open spec fn digit_char(d: nat) -> char {
    if d == 0 {
        '0'
    } else if d == 1 {
        '1'
    } else if d == 2 {
        '2'
    } else if d == 3 {
        '3'
    } else if d == 4 {
        '4'
    } else if d == 5 {
        '5'
    } else if d == 6 {
        '6'
    } else if d == 7 {
        '7'
    } else if d == 8 {
        '8'
    } else {
        '9'
    }
}

/// The decimal numeral of `n`, without leading zeros.
pub open spec fn decimal(n: nat) -> Seq<char>
    decreases n,
{
    if n < 10 {
        seq![digit_char(n)]
    } else {
        decimal(n / 10).push(digit_char(n % 10))
    }
}

/// The decimal numeral of `i`, with a minus sign where it is negative.
pub open spec fn signed_decimal(i: int) -> Seq<char> {
    if i < 0 {
        seq!['-'] + decimal((-i) as nat)
    } else {
        decimal(i as nat)
    }
}

fn digit_str(d: u64) -> (r: &'static str)
    requires
        d < 10,
    ensures
        r@ == seq![digit_char(d as nat)],
{
    proof {
        reveal_strlit("0");
        reveal_strlit("1");
        reveal_strlit("2");
        reveal_strlit("3");
        reveal_strlit("4");
        reveal_strlit("5");
        reveal_strlit("6");
        reveal_strlit("7");
        reveal_strlit("8");
        reveal_strlit("9");
    }
    let r = if d == 0 {
        "0"
    } else if d == 1 {
        "1"
    } else if d == 2 {
        "2"
    } else if d == 3 {
        "3"
    } else if d == 4 {
        "4"
    } else if d == 5 {
        "5"
    } else if d == 6 {
        "6"
    } else if d == 7 {
        "7"
    } else if d == 8 {
        "8"
    } else {
        "9"
    };
    assert(r@ =~= seq![digit_char(d as nat)]);
    r
}

/// Writes `n` as a decimal numeral.
pub fn u64_to_string(n: u64) -> (r: String)
    ensures
        r@ == decimal(n as nat),
    decreases n,
{
    if n < 10 {
        String::from_str(digit_str(n))
    } else {
        let head = u64_to_string(n / 10);
        let r = head.concat(digit_str(n % 10));
        assert(r@ =~= decimal(n as nat));
        r
    }
}

/// Writes `i` as a decimal numeral, with a minus sign where it is negative.
pub fn i64_to_string(i: i64) -> (r: String)
    ensures
        r@ == signed_decimal(i as int),
{
    if i < 0 {
        let magnitude: u64 = (-(i + 1)) as u64 + 1;
        let digits = u64_to_string(magnitude);
        proof {
            reveal_strlit("-");
        }
        let r = String::from_str("-").concat(digits.as_str());
        assert(r@ =~= signed_decimal(i as int));
        r
    } else {
        u64_to_string(i as u64)
    }
}

/// Whether `c` is one of the ten decimal digits.
pub open spec fn is_digit(c: char) -> bool {
    '0' <= c <= '9'
}

/// The number that the digit `c` stands for.
pub open spec fn digit_value(c: char) -> nat {
    (c as nat - 48) as nat
}

/// Whether `s` holds decimal digits only.
pub open spec fn all_digits(s: Seq<char>) -> bool {
    forall|i: int| 0 <= i < s.len() ==> is_digit(#[trigger] s[i])
}

/// The number that the digits `s` write, the first digit weighing most.
pub open spec fn digits_value(s: Seq<char>) -> nat
    decreases s.len(),
{
    if s.len() == 0 {
        0
    } else {
        digits_value(s.drop_last()) * 10 + digit_value(s.last())
    }
}

/// The integer that the numeral `s` writes: an optional sign (`+` or `-`),
/// then one digit or more. `None` where `s` has another shape.
pub open spec fn numeral_value(s: Seq<char>) -> Option<int> {
    if s.len() == 0 {
        None
    } else {
        let negative = s[0] == '-';
        let body = if s[0] == '+' || negative {
            s.skip(1)
        } else {
            s
        };
        if body.len() == 0 || !all_digits(body) {
            None
        } else if negative {
            Some(-(digits_value(body) as int))
        } else {
            Some(digits_value(body) as int)
        }
    }
}

/// What `parse_limit` returns: the value of a numeral, brought into
/// `[0, max]` however small or large it is.
pub open spec fn spec_parse_limit(s: Seq<char>, max: u32) -> Option<u32> {
    match numeral_value(s) {
        Some(v) => Some(
            if v < 0 {
                0u32
            } else if v > max {
                max
            } else {
                v as u32
            },
        ),
        None => None,
    }
}

/// What `parse_i64` returns: the value of a signed numeral that fits in 64 bits.
pub open spec fn spec_parse_i64(s: Seq<char>) -> Option<i64> {
    match numeral_value(s) {
        Some(v) => if i64::MIN <= v <= i64::MAX {
            Some(v as i64)
        } else {
            None
        },
        None => None,
    }
}

/// A longer run of digits writes no smaller number than its beginning.
proof fn lemma_digits_value_grows(s: Seq<char>, k: int)
    requires
        0 <= k <= s.len(),
    ensures
        digits_value(s.take(k)) <= digits_value(s),
    decreases s.len() - k,
{
    if k < s.len() {
        lemma_digits_value_grows(s, k + 1);
        assert(s.take(k + 1).drop_last() =~= s.take(k));
    } else {
        assert(s.take(k) =~= s);
    }
}

/// Reads the digits of `s` from `start` on: their value where there is at
/// least one character, each is a digit and the value is at most `limit`.
fn parse_digits(s: &str, start: usize, limit: u64) -> (r: Option<u64>)
    requires
        s.is_ascii(),
        start <= s@.len(),
    ensures
        r == (if s@.skip(start as int).len() > 0 && all_digits(s@.skip(start as int))
            && digits_value(s@.skip(start as int)) <= limit {
            Some(digits_value(s@.skip(start as int)) as u64)
        } else {
            None::<u64>
        }),
{
    broadcast use is_ascii_spec_bytes;

    let n = s.as_bytes().len();
    let ghost body = s@.skip(start as int);
    proof {
        is_ascii_spec_bytes(s);
        assert(s.spec_bytes().len() == s@.len());
    }
    if start == n {
        return None;
    }
    let mut acc: u64 = 0;
    let mut i: usize = start;
    while i < n
        invariant
            s.is_ascii(),
            n == s@.len(),
            body == s@.skip(start as int),
            start <= i <= n,
            all_digits(body.take(i - start)),
            acc == digits_value(body.take(i - start)),
            acc <= limit,
        decreases n - i,
    {
        let b = s.get_ascii(i);
        let ghost c = s@[i as int];
        assert(body[i - start] == c);
        if b < 48 || b > 57 {
            assert(!is_digit(c));
            return None;
        }
        assert(is_digit(c));
        let d: u64 = (b - 48) as u64;
        assert(d == digit_value(c));
        proof {
            assert(body.take(i + 1 - start).drop_last() =~= body.take(i - start));
            assert(body.take(i + 1 - start).last() == c);
            lemma_digits_value_grows(body, i + 1 - start);
        }
        if acc > limit / 10 || d > limit - acc * 10 {
            return None;
        }
        acc = acc * 10 + d;
        i += 1;
        assert forall|k: int| 0 <= k < body.take(i - start).len() implies is_digit(
            #[trigger] body.take(i - start)[k],
        ) by {
            if k < i - 1 - start {
                assert(body.take(i - 1 - start)[k] == body.take(i - start)[k]);
            }
        }
    }
    assert(body.take(i - start) =~= body);
    Some(acc)
}

/// Reads the digits of `s` from `start` on: their value, or `cap` where the
/// value is greater, where there is at least one character and each is a digit.
fn parse_digits_capped(s: &str, start: usize, cap: u32) -> (r: Option<u32>)
    requires
        s.is_ascii(),
        start <= s@.len(),
    ensures
        r == (if s@.skip(start as int).len() > 0 && all_digits(s@.skip(start as int)) {
            Some(
                if digits_value(s@.skip(start as int)) > cap {
                    cap
                } else {
                    digits_value(s@.skip(start as int)) as u32
                },
            )
        } else {
            None::<u32>
        }),
{
    broadcast use is_ascii_spec_bytes;

    let n = s.as_bytes().len();
    let ghost body = s@.skip(start as int);
    proof {
        is_ascii_spec_bytes(s);
        assert(s.spec_bytes().len() == s@.len());
    }
    if start == n {
        return None;
    }
    let mut acc: u64 = 0;
    let mut i: usize = start;
    while i < n
        invariant
            s.is_ascii(),
            n == s@.len(),
            body == s@.skip(start as int),
            start <= i <= n,
            all_digits(body.take(i - start)),
            acc <= cap,
            acc == (if digits_value(body.take(i - start)) > cap {
                cap as nat
            } else {
                digits_value(body.take(i - start))
            }),
        decreases n - i,
    {
        let b = s.get_ascii(i);
        let ghost c = s@[i as int];
        assert(body[i - start] == c);
        if b < 48 || b > 57 {
            assert(!is_digit(c));
            return None;
        }
        assert(is_digit(c));
        let d: u64 = (b - 48) as u64;
        assert(d == digit_value(c));
        proof {
            assert(body.take(i + 1 - start).drop_last() =~= body.take(i - start));
            assert(body.take(i + 1 - start).last() == c);
        }
        let next = acc * 10 + d;
        acc = if next > cap as u64 {
            cap as u64
        } else {
            next
        };
        i += 1;
        assert forall|k: int| 0 <= k < body.take(i - start).len() implies is_digit(
            #[trigger] body.take(i - start)[k],
        ) by {
            if k < i - 1 - start {
                assert(body.take(i - 1 - start)[k] == body.take(i - start)[k]);
            }
        }
    }
    assert(body.take(i - start) =~= body);
    Some(acc as u32)
}

/// Reads a limit: a decimal numeral with an optional `+` or `-`. A negative
/// limit counts as 0 and one above `max` as `max`; a text that is no numeral
/// is no limit.
pub fn parse_limit(s: &str, max: u32) -> (r: Option<u32>)
    ensures
        r == spec_parse_limit(s@, max),
{
    broadcast use is_ascii_spec_bytes;

    if !s.is_ascii() {
        proof {
            lemma_numeral_is_ascii(s@);
        }
        return None;
    }
    proof {
        is_ascii_spec_bytes(s);
        assert(s.spec_bytes().len() == s@.len());
    }
    if s.as_bytes().len() == 0 {
        return None;
    }
    let first = s.get_ascii(0);
    assert(first == 43 <==> s@[0] == '+');
    assert(first == 45 <==> s@[0] == '-');
    assert(s@.skip(0) =~= s@);
    if first == 45 {
        match parse_digits_capped(s, 1, 0) {
            Some(_) => Some(0),
            None => None,
        }
    } else {
        let start: usize = if first == 43 {
            1
        } else {
            0
        };
        parse_digits_capped(s, start, max)
    }
}

/// Reads a signed decimal numeral of 64 bits: an optional `+` or `-`, then digits.
pub fn parse_i64(s: &str) -> (r: Option<i64>)
    ensures
        r == spec_parse_i64(s@),
{
    broadcast use is_ascii_spec_bytes;

    if !s.is_ascii() {
        proof {
            lemma_numeral_is_ascii(s@);
        }
        return None;
    }
    proof {
        is_ascii_spec_bytes(s);
        assert(s.spec_bytes().len() == s@.len());
    }
    if s.as_bytes().len() == 0 {
        return None;
    }
    let first = s.get_ascii(0);
    assert(first == 43 <==> s@[0] == '+');
    assert(first == 45 <==> s@[0] == '-');
    assert(s@.skip(0) =~= s@);
    if first == 45 {
        match parse_digits(s, 1, 0x8000_0000_0000_0000) {
            Some(v) => if v == 0x8000_0000_0000_0000 {
                Some(i64::MIN)
            } else {
                Some(-(v as i64))
            },
            None => None,
        }
    } else {
        let start: usize = if first == 43 {
            1
        } else {
            0
        };
        match parse_digits(s, start, 0x7fff_ffff_ffff_ffff) {
            Some(v) => Some(v as i64),
            None => None,
        }
    }
}

/// A numeral holds ASCII characters only.
proof fn lemma_numeral_is_ascii(s: Seq<char>)
    ensures
        numeral_value(s) is Some ==> is_ascii_chars(s),
{
    if numeral_value(s) is None {
        return ;
    }
    let body = if s[0] == '+' || s[0] == '-' {
        s.skip(1)
    } else {
        s
    };
    assert forall|i: int| 0 <= i < s.len() implies '\0' <= #[trigger] s[i] <= '\u{7f}' by {
        if body.len() == s.len() {
            assert(is_digit(body[i]));
        } else if i > 0 {
            assert(body[i - 1] == s[i]);
            assert(is_digit(body[i - 1]));
        }
    }
}

/// The numeral of `n` is a run of digits that writes `n`.
pub proof fn lemma_decimal_is_numeral(n: nat)
    ensures
        decimal(n).len() > 0,
        all_digits(decimal(n)),
        digits_value(decimal(n)) == n,
    decreases n,
{
    if n < 10 {
        assert(decimal(n).drop_last() =~= Seq::<char>::empty());
        assert(digits_value(decimal(n).drop_last()) == 0);
    } else {
        lemma_decimal_is_numeral(n / 10);
        let head = decimal(n / 10);
        assert(decimal(n).drop_last() =~= head);
        assert forall|i: int| 0 <= i < decimal(n).len() implies is_digit(
            #[trigger] decimal(n)[i],
        ) by {
            if i < head.len() {
                assert(decimal(n)[i] == head[i]);
            }
        }
    }
}

/// Reading the numeral of a 64-bit integer gives the integer back.
pub proof fn lemma_signed_decimal_parses(i: i64)
    ensures
        spec_parse_i64(signed_decimal(i as int)) == Some(i),
{
    let s = signed_decimal(i as int);
    if i < 0 {
        let digits = decimal((-i) as nat);
        lemma_decimal_is_numeral((-i) as nat);
        assert(s.skip(1) =~= digits);
    } else {
        lemma_decimal_is_numeral(i as nat);
        assert(is_digit(s[0]));
    }
}

} // verus!
