//! Small text utilities shared by the lowering and the two renderers:
//! string comparison, decimal formatting, and C integer-literal parsing.
//!
//! Everything here works on the two views vstd gives a string: its `char`
//! sequence (`s@`) and its UTF-8 bytes (`s.spec_bytes()`).
use vstd::prelude::*;
use vstd::string::*;
use vstd::utf8::*;

verus! {

broadcast use vstd::string::group_string_axioms;

// ---------------------------------------------------------------------------
// UTF-8
// ---------------------------------------------------------------------------

/// `std::str::from_utf8`: the bytes are accepted exactly when they are valid
/// UTF-8, and the string handed back is made of those same bytes.
#[verifier::external_body]
pub(crate) fn utf8_str(bytes: &[u8]) -> (res: Option<&str>)
    ensures
        res is Some <==> valid_utf8(bytes@),
        res matches Some(s) ==> s.spec_bytes() == bytes@,
{
    std::str::from_utf8(bytes).ok()
}

/// The text a byte range stands for: its UTF-8 decoding, or the empty
/// string when the bytes are not valid UTF-8.
pub open spec fn decode_or_empty(bytes: Seq<u8>) -> Seq<char> {
    if valid_utf8(bytes) {
        decode_utf8(bytes)
    } else {
        Seq::empty()
    }
}

/// The bytes behind [`decode_or_empty`]: the bytes themselves when they are
/// valid UTF-8, and nothing otherwise.
pub open spec fn valid_or_empty(bytes: Seq<u8>) -> Seq<u8> {
    if valid_utf8(bytes) {
        bytes
    } else {
        Seq::empty()
    }
}

pub proof fn lemma_chars_of_bytes(s: &str, bytes: Seq<u8>)
    requires
        s.spec_bytes() == bytes,
    ensures
        valid_utf8(bytes),
        s@ == decode_utf8(bytes),
{
    broadcast use encode_utf8_valid_utf8, encode_utf8_decode_utf8;

}

/// Encoding the decoded text gives back exactly the valid bytes.
pub proof fn lemma_encode_decode_or_empty(bytes: Seq<u8>)
    ensures
        encode_utf8(decode_or_empty(bytes)) == valid_or_empty(bytes),
{
    broadcast use decode_utf8_encode_utf8;

    if !valid_utf8(bytes) {
        assert(encode_utf8(Seq::<char>::empty()) =~= Seq::<u8>::empty());
    }
}

/// Decodes `bytes` as UTF-8, falling back to the empty string.
pub fn decode_bytes(bytes: &[u8]) -> (text: String)
    ensures
        text@ == decode_or_empty(bytes@),
{
    match utf8_str(bytes) {
        Some(s) => {
            proof {
                lemma_chars_of_bytes(s, bytes@);
            }
            s.to_string()
        },
        None => String::new(),
    }
}

/// The UTF-8 bytes of a `String`.
pub fn string_bytes(s: &String) -> (bytes: &[u8])
    ensures
        bytes@ == encode_utf8(s@),
{
    s.as_str().as_bytes()
}

// ---------------------------------------------------------------------------
// Equality
// ---------------------------------------------------------------------------

/// Compares two strings by their characters.
pub fn str_eq(a: &str, b: &str) -> (eq: bool)
    ensures
        eq == (a@ == b@),
{
    let x = a.as_bytes();
    let y = b.as_bytes();
    proof {
        broadcast use encode_utf8_decode_utf8;

        assert(decode_utf8(encode_utf8(a@)) == a@);
        assert(decode_utf8(encode_utf8(b@)) == b@);
    }
    if x.len() != y.len() {
        return false;
    }
    let mut i: usize = 0;
    while i < x.len()
        invariant
            x@.len() == y@.len(),
            x@ == encode_utf8(a@),
            y@ == encode_utf8(b@),
            i <= x@.len(),
            forall|j: int| 0 <= j < i ==> x@[j] == y@[j],
        decreases x@.len() - i,
    {
        if x[i] != y[i] {
            return false;
        }
        i = i + 1;
    }
    assert(x@ =~= y@);
    true
}

// ---------------------------------------------------------------------------
// Decimal formatting
// ---------------------------------------------------------------------------

/// The decimal digit character for `d < 10`.
pub open spec fn digit_char(d: nat) -> char {
    if d == 0 {
        '0'
    } else if d == 1 {
        '1'
    } else if d == 2 {
        '2'
    } else if d == 3 {
        '3'
    } else if d == 4 {
        '4'
    } else if d == 5 {
        '5'
    } else if d == 6 {
        '6'
    } else if d == 7 {
        '7'
    } else if d == 8 {
        '8'
    } else {
        '9'
    }
}

/// The decimal digits of `n`, most significant first, with no leading zero.
pub open spec fn decimal_digits(n: nat) -> Seq<char>
    decreases n,
{
    if n < 10 {
        seq![digit_char(n)]
    } else {
        decimal_digits(n / 10).push(digit_char(n % 10))
    }
}

/// How `Display` writes an integer: an optional `-` and its decimal digits.
pub open spec fn decimal(v: int) -> Seq<char> {
    if v < 0 {
        seq!['-'] + decimal_digits((-v) as nat)
    } else {
        decimal_digits(v as nat)
    }
}

fn digit_str(d: u64) -> (s: &'static str)
    requires
        d < 10,
    ensures
        s@ == seq![digit_char(d as nat)],
{
    proof {
        reveal_strlit("0");
        reveal_strlit("1");
        reveal_strlit("2");
        reveal_strlit("3");
        reveal_strlit("4");
        reveal_strlit("5");
        reveal_strlit("6");
        reveal_strlit("7");
        reveal_strlit("8");
        reveal_strlit("9");
    }
    if d == 0 {
        "0"
    } else if d == 1 {
        "1"
    } else if d == 2 {
        "2"
    } else if d == 3 {
        "3"
    } else if d == 4 {
        "4"
    } else if d == 5 {
        "5"
    } else if d == 6 {
        "6"
    } else if d == 7 {
        "7"
    } else if d == 8 {
        "8"
    } else {
        "9"
    }
}

/// Appends the decimal digits of `n` to `out`.
pub fn push_decimal_digits(out: &mut String, n: u64)
    ensures
        final(out)@ == old(out)@ + decimal_digits(n as nat),
    decreases n,
{
    if n < 10 {
        out.append(digit_str(n));
    } else {
        push_decimal_digits(out, n / 10);
        out.append(digit_str(n % 10));
    }
}

/// Appends `v` as `Display` would write it.
pub fn push_decimal_i64(out: &mut String, v: i64)
    ensures
        final(out)@ == old(out)@ + decimal(v as int),
{
    if v < 0 {
        out.append("-");
        proof {
            reveal_strlit("-");
        }
        let magnitude: u64 = (0i128 - (v as i128)) as u64;
        push_decimal_digits(out, magnitude);
        assert(final(out)@ =~= old(out)@ + decimal(v as int));
    } else {
        push_decimal_digits(out, v as u64);
    }
}

/// Appends `v` as `Display` would write it.
pub fn push_decimal_usize(out: &mut String, v: usize)
    ensures
        final(out)@ == old(out)@ + decimal(v as int),
{
    push_decimal_digits(out, v as u64);
}

// ---------------------------------------------------------------------------
// Integer parsing, as `i64::from_str_radix` does it
// ---------------------------------------------------------------------------

/// The value of an ASCII digit in `radix` (2..=36), if it is one.
pub open spec fn digit_value(c: u8, radix: nat) -> Option<nat> {
    let v: int = if 48 <= c <= 57 {
        c - 48
    } else if 97 <= c <= 122 {
        c - 87
    } else if 65 <= c <= 90 {
        c - 55
    } else {
        radix as int
    };
    if 0 <= v < radix {
        Some(v as nat)
    } else {
        None
    }
}

/// The value of a sequence of digits, most significant first; `None` as soon
/// as one byte is not a digit. The empty sequence has value 0.
pub open spec fn digits_value(ds: Seq<u8>, radix: nat) -> Option<nat>
    decreases ds.len(),
{
    if ds.len() == 0 {
        Some(0)
    } else {
        match (digits_value(ds.drop_last(), radix), digit_value(ds.last(), radix)) {
            (Some(high), Some(low)) => Some(high * radix + low),
            _ => None,
        }
    }
}

/// `i64::from_str_radix` on the bytes `s`: an optional `+` or `-`, then at
/// least one digit; `None` when that shape is not met or the value does not
/// fit in an `i64`.
pub open spec fn from_str_radix(s: Seq<u8>, radix: nat) -> Option<i64> {
    if s.len() == 0 || (s.len() == 1 && (s[0] == 43 || s[0] == 45)) {
        None
    } else {
        let negative = s[0] == 45;
        let digits = if s[0] == 43 || s[0] == 45 {
            s.drop_first()
        } else {
            s
        };
        match digits_value(digits, radix) {
            Some(v) => {
                let x: int = if negative {
                    -v
                } else {
                    v as int
                };
                if i64::MIN <= x <= i64::MAX {
                    Some(x as i64)
                } else {
                    None
                }
            },
            None => None,
        }
    }
}

proof fn lemma_digits_value_grows(ds: Seq<u8>, radix: nat, k: int)
    requires
        2 <= radix,
        0 <= k <= ds.len(),
        digits_value(ds, radix) is Some,
    ensures
        digits_value(ds.subrange(0, k), radix) is Some,
        digits_value(ds.subrange(0, k), radix)->0 <= digits_value(ds, radix)->0,
    decreases ds.len(),
{
    if k == ds.len() {
        assert(ds.subrange(0, k) =~= ds);
    } else {
        assert(ds.drop_last() =~= ds.subrange(0, ds.len() - 1));
        lemma_digits_value_grows(ds.drop_last(), radix, k);
        assert(ds.drop_last().subrange(0, k) =~= ds.subrange(0, k));
        let high = digits_value(ds.drop_last(), radix)->0;
        let low = digit_value(ds.last(), radix)->0;
        assert(high <= high * radix + low) by (nonlinear_arith)
            requires
                2 <= radix,
        ;
    }
}

fn digit_of(c: u8, radix: u32) -> (d: Option<u32>)
    requires
        2 <= radix <= 36,
    ensures
        d matches Some(v) ==> digit_value(c, radix as nat) == Some(v as nat),
        d is None ==> digit_value(c, radix as nat) is None,
{
    let v: u32 = if 48 <= c && c <= 57 {
        (c - 48) as u32
    } else if 97 <= c && c <= 122 {
        (c - 87) as u32
    } else if 65 <= c && c <= 90 {
        (c - 55) as u32
    } else {
        radix
    };
    if v < radix {
        Some(v)
    } else {
        None
    }
}

/// Parses `s` as `i64::from_str_radix(s, radix)` does.
pub fn parse_radix(s: &[u8], radix: u32) -> (v: Option<i64>)
    requires
        2 <= radix <= 36,
    ensures
        v == from_str_radix(s@, radix as nat),
{
    let n = s.len();
    if n == 0 || (n == 1 && (s[0] == 43 || s[0] == 45)) {
        return None;
    }
    let negative = s[0] == 45;
    let start: usize = if s[0] == 43 || s[0] == 45 {
        1
    } else {
        0
    };
    let ghost digits = if s@[0] == 43 || s@[0] == 45 {
        s@.drop_first()
    } else {
        s@
    };
    assert(digits =~= s@.subrange(start as int, n as int));
    // The largest magnitude an i64 can hold, reached by i64::MIN.
    let limit: u128 = 9223372036854775808;
    let mut acc: u128 = 0;
    let mut i = start;
    while i < n
        invariant
            start <= i <= n,
            n == s@.len(),
            2 <= radix <= 36,
            digits == s@.subrange(start as int, n as int),
            n > 0,
            !(n == 1 && (s@[0] == 43 || s@[0] == 45)),
            negative == (s@[0] == 45),
            digits == (if s@[0] == 43 || s@[0] == 45 {
                s@.drop_first()
            } else {
                s@
            }),
            limit == 9223372036854775808u128,
            digits_value(s@.subrange(start as int, i as int), radix as nat) == Some(acc as nat),
            acc <= limit,
        decreases n - i,
    {
        let d = digit_of(s[i], radix);
        proof {
            let pre = s@.subrange(start as int, (i + 1) as int);
            assert(pre.drop_last() =~= s@.subrange(start as int, i as int));
            assert(pre.last() == s@[i as int]);
        }
        match d {
            None => {
                proof {
                    let pre = s@.subrange(start as int, (i + 1) as int);
                    assert(digits_value(pre, radix as nat) is None);
                    if digits_value(digits, radix as nat) is Some {
                        lemma_digits_value_grows(digits, radix as nat, i + 1 - start);
                        assert(digits.subrange(0, i + 1 - start) =~= pre);
                        assert(false);
                    }
                    assert(digits_value(digits, radix as nat) is None);
                    assert(from_str_radix(s@, radix as nat) is None);
                }
                return None;
            },
            Some(dv) => {
                assert(dv < radix);
                assert(acc * (radix as u128) <= limit * 36) by (nonlinear_arith)
                    requires
                        acc <= limit,
                        radix <= 36,
                ;
                let next: u128 = acc * (radix as u128) + (dv as u128);
                if next > limit {
                    proof {
                        let pre = s@.subrange(start as int, (i + 1) as int);
                        assert(digits_value(pre, radix as nat) == Some(next as nat));
                        if digits_value(digits, radix as nat) is Some {
                            lemma_digits_value_grows(digits, radix as nat, i + 1 - start);
                            assert(digits.subrange(0, i + 1 - start) =~= pre);
                        }
                    }
                    return None;
                }
                acc = next;
                i = i + 1;
            },
        }
    }
    assert(s@.subrange(start as int, n as int) =~= digits);
    if negative {
        Some((0i128 - (acc as i128)) as i64)
    } else if acc <= 9223372036854775807 {
        Some(acc as i64)
    } else {
        None
    }
}

} // verus!
