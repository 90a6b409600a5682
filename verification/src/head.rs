//! Taking the head of a file: the first N lines or the first N bytes, and the
//! decimal parser for the count argument.

use vstd::prelude::*;
use vstd::utf8::{decode_utf8, valid_utf8};

verus! {

/// Whether `c` is one of the ten decimal digit characters.
pub open spec fn is_dec_digit(c: char) -> bool {
    '0' <= c && c <= '9'
}

/// The numeric value of a decimal digit character.
pub open spec fn digit_value(c: char) -> nat
    recommends
        is_dec_digit(c),
{
    (c as int - '0' as int) as nat
}

/// Whether every character of `s` is a decimal digit.
pub open spec fn all_digits(s: Seq<char>) -> bool {
    forall|i: int| 0 <= i < s.len() ==> is_dec_digit(#[trigger] s[i])
}

/// The number that the digit string `s` denotes in decimal.
pub open spec fn dec_val(s: Seq<char>) -> nat
    recommends
        all_digits(s),
    decreases s.len(),
{
    if s.len() == 0 {
        0
    } else {
        dec_val(s.drop_last()) * 10 + digit_value(s.last())
    }
}

/// The digits of a numeric argument: the whole text, less one leading plus
/// sign if there is one.
pub open spec fn parse_body(s: Seq<char>) -> Seq<char> {
    if s.len() > 0 && s[0] == '+' {
        s.skip(1)
    } else {
        s
    }
}

/// Why a numeric argument was rejected.
#[derive(Debug, PartialEq, Eq, Structural)]
pub enum ParseUsizeError {
    /// The text was empty.
    Empty,
    /// A character other than a digit stood where digits were expected.
    InvalidDigit,
    /// The denoted number does not fit in `usize`.
    Overflow,
}

/// The value a digit string denotes never shrinks when digits are appended:
/// the value of a prefix bounds the value of the whole from below.
proof fn lemma_dec_val_prefix(s: Seq<char>, j: int)
    requires
        0 <= j <= s.len(),
    ensures
        dec_val(s.take(j)) <= dec_val(s),
    decreases s.len() - j,
{
    if j == s.len() {
        assert(s.take(j) =~= s);
    } else {
        assert(s.take(j + 1).drop_last() =~= s.take(j));
        assert(dec_val(s.take(j + 1)) == dec_val(s.take(j)) * 10 + digit_value(s.take(
            j + 1,
        ).last()));
        lemma_dec_val_prefix(s, j + 1);
    }
}

/// Parses a decimal `usize`, accepting one optional leading plus sign:
/// `Ok` exactly on a non-empty, all-digit body whose value fits, and otherwise
/// the error that says what was wrong.
pub fn parse_into_usize(string: &str) -> (r: Result<usize, ParseUsizeError>)
    ensures
        ({
            let body = parse_body(string@);
            match r {
                Ok(v) => body.len() > 0 && all_digits(body) && dec_val(body) <= usize::MAX && v
                    == dec_val(body),
                Err(e) => match e {
                    ParseUsizeError::Empty => string@.len() == 0,
                    ParseUsizeError::InvalidDigit => string@.len() > 0 && (body.len() == 0
                        || !all_digits(body)),
                    ParseUsizeError::Overflow => body.len() > 0 && all_digits(body) && dec_val(
                        body,
                    ) > usize::MAX,
                },
            }
        }),
{
    let n = string.unicode_len();
    if n == 0 {
        return Err(ParseUsizeError::Empty);
    }
    let first = string.get_char(0);
    let start: usize = if first == '+' {
        1
    } else {
        0
    };
    let ghost body = parse_body(string@);
    proof {
        assert(body =~= string@.skip(start as int));
    }
    if n == start {
        return Err(ParseUsizeError::InvalidDigit);
    }
    let mut j: usize = start;
    while j < n
        invariant
            start <= j <= n,
            n == string@.len(),
            start == 1 || start == 0,
            body == parse_body(string@),
            body == string@.skip(start as int),
            forall|k: int| start <= k < j ==> is_dec_digit(#[trigger] string@[k]),
        decreases n - j,
    {
        let c = string.get_char(j);
        if !(c >= '0' && c <= '9') {
            proof {
                assert(body[j - start] == string@[j as int]);
                assert(!all_digits(body));
            }
            return Err(ParseUsizeError::InvalidDigit);
        }
        j = j + 1;
    }
    proof {
        assert forall|k: int| 0 <= k < body.len() implies is_dec_digit(#[trigger] body[k]) by {
            assert(body[k] == string@[k + start]);
        }
    }
    let mut acc: usize = 0;
    let mut i: usize = start;
    proof {
        assert(body.take(0).len() == 0);
    }
    while i < n
        invariant
            start <= i <= n,
            n == string@.len(),
            start == 1 || start == 0,
            body == parse_body(string@),
            body == string@.skip(start as int),
            n > start,
            all_digits(body),
            acc == dec_val(body.take(i - start)),
        decreases n - i,
    {
        let c = string.get_char(i);
        proof {
            assert(body[i - start] == string@[i as int]);
            assert(body.take(i - start + 1).drop_last() =~= body.take(i - start));
            assert(body.take(i - start + 1).last() == body[i - start]);
        }
        let d: usize = (c as u32 as usize) - 48;
        let scaled = match acc.checked_mul(10) {
            Some(m) => m,
            None => {
                proof {
                    lemma_dec_val_prefix(body, i - start + 1);
                }
                return Err(ParseUsizeError::Overflow);
            },
        };
        let next = match scaled.checked_add(d) {
            Some(a) => a,
            None => {
                proof {
                    lemma_dec_val_prefix(body, i - start + 1);
                }
                return Err(ParseUsizeError::Overflow);
            },
        };
        acc = next;
        i = i + 1;
    }
    proof {
        assert(body.take(n - start) =~= body);
    }
    Ok(acc)
}

/// The first `num_lines` lines, or all of them when fewer are there.
pub fn head_lines(lines: &Vec<String>, num_lines: u64) -> (r: Vec<String>)
    ensures
        r.deep_view() == (if num_lines as int <= lines@.len() as int {
            lines.deep_view().take(num_lines as int)
        } else {
            lines.deep_view()
        }),
{
    let mut out: Vec<String> = Vec::new();
    let mut i: usize = 0;
    while i < lines.len() && (i as u64) < num_lines
        invariant
            i <= lines@.len(),
            i as u64 <= num_lines,
            out.deep_view() == lines.deep_view().take(i as int),
        decreases lines@.len() - i,
    {
        let ghost prev = out.deep_view();
        out.push(lines[i].clone());
        proof {
            assert(out.deep_view() =~= prev.push(lines@[i as int]@));
            assert(out.deep_view() =~= lines.deep_view().take(i + 1));
        }
        i = i + 1;
    }
    proof {
        if i as u64 == num_lines {
            assert(out.deep_view() =~= lines.deep_view().take(num_lines as int));
        } else {
            assert(out.deep_view() =~= lines.deep_view());
        }
    }
    out
}

/// What `String::from_utf8_lossy` returns for the given bytes: it depends on
/// the bytes alone.
pub uninterp spec fn lossy_decode(bytes: Seq<u8>) -> Seq<char>;

/// Relies on `String::from_utf8_lossy`: the result is a function of the bytes
/// alone, and valid UTF-8 decodes losslessly.
#[verifier::external_body]
fn utf8_lossy(bytes: &Vec<u8>) -> (r: String)
    ensures
        r@ == lossy_decode(bytes@),
        valid_utf8(bytes@) ==> r@ == decode_utf8(bytes@),
{
    String::from_utf8_lossy(bytes.as_slice()).into_owned()
}

/// The text of the first `num_bytes` bytes, decoded permissively: invalid
/// sequences are replaced rather than rejected, and nothing is appended beyond
/// what the truncated bytes held.
pub fn head_bytes(bytes: &Vec<u8>, num_bytes: u64) -> (r: String)
    ensures
        ({
            let taken = if num_bytes as int <= bytes@.len() as int {
                bytes@.take(num_bytes as int)
            } else {
                bytes@
            };
            &&& r@ == lossy_decode(taken)
            &&& valid_utf8(taken) ==> r@ == decode_utf8(taken)
        }),
{
    let mut prefix: Vec<u8> = Vec::new();
    let mut i: usize = 0;
    while i < bytes.len() && (i as u64) < num_bytes
        invariant
            i <= bytes@.len(),
            i as u64 <= num_bytes,
            prefix@ == bytes@.take(i as int),
        decreases bytes@.len() - i,
    {
        let ghost prev = prefix@;
        prefix.push(bytes[i]);
        proof {
            assert(prefix@ =~= bytes@.take(i + 1));
        }
        i = i + 1;
    }
    proof {
        if i as u64 == num_bytes {
            assert(prefix@ =~= bytes@.take(num_bytes as int));
        } else {
            assert(prefix@ =~= bytes@);
        }
    }
    utf8_lossy(&prefix)
}

} // verus!
