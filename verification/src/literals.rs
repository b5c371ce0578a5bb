//! Literal conversions: the raw text of a literal parse node turned into its
//! typed value. These mirror how the host language reads integer and boolean
//! keywords: an optional sign followed by decimal digits, and the exact words
//! `true` / `false`.

use vstd::prelude::*;
use vstd::string::StrSliceExecFns;

verus! {

/// A decimal digit.
pub open spec fn is_digit(c: char) -> bool {
    '0' <= c && c <= '9'
}

/// The value of one decimal digit.
pub open spec fn digit_val(c: char) -> int {
    c as int - '0' as int
}

/// Every character of `s` is a decimal digit.
pub open spec fn all_digits(s: Seq<char>) -> bool {
    forall|i: int| 0 <= i < s.len() ==> is_digit(s[i])
}

/// The non-negative value of a digit string, most significant digit first.
pub open spec fn digits_val(s: Seq<char>) -> int
    decreases s.len(),
{
    if s.len() == 0 {
        0
    } else {
        digits_val(s.drop_last()) * 10 + digit_val(s.last())
    }
}

/// The mathematical integer a text denotes: an optional `+` or `-` sign
/// followed by one or more decimal digits, nothing else.
pub open spec fn spec_parse_int(s: Seq<char>) -> Option<int> {
    if s.len() > 0 && (s[0] == '+' || s[0] == '-') {
        let digits = s.subrange(1, s.len() as int);
        if digits.len() > 0 && all_digits(digits) {
            if s[0] == '-' {
                Some(-digits_val(digits))
            } else {
                Some(digits_val(digits))
            }
        } else {
            None
        }
    } else {
        if s.len() > 0 && all_digits(s) {
            Some(digits_val(s))
        } else {
            None
        }
    }
}

/// `spec_parse_int`, further requiring the value to fit a 128-bit signed
/// integer: exactly the texts an integer literal accepts.
pub open spec fn spec_parse_i128(s: Seq<char>) -> Option<int> {
    match spec_parse_int(s) {
        Some(v) => if i128::MIN <= v <= i128::MAX {
            Some(v)
        } else {
            None
        },
        None => None,
    }
}

/// A digit string's value is non-negative.
pub proof fn lemma_digits_val_nonneg(s: Seq<char>)
    requires
        all_digits(s),
    ensures
        digits_val(s) >= 0,
    decreases s.len(),
{
    if s.len() > 0 {
        assert(all_digits(s.drop_last()));
        lemma_digits_val_nonneg(s.drop_last());
    }
}

/// A character that is not a double quote.
pub open spec fn non_quote(c: char) -> bool {
    c != '"'
}

/// The text of a string literal with every double-quote character removed,
/// not only the delimiting pair.
pub open spec fn strip_quotes_view(s: Seq<char>) -> Seq<char> {
    s.filter(|c: char| non_quote(c))
}

/// Reading one more digit never shrinks a digit string's value.
pub proof fn lemma_digits_val_grows(s: Seq<char>, i: int, j: int)
    requires
        all_digits(s),
        0 <= i <= j <= s.len(),
    ensures
        digits_val(s.take(i)) <= digits_val(s.take(j)),
    decreases j - i,
{
    if i < j {
        lemma_digits_val_grows(s, i, j - 1);
        let pre = s.take(j - 1);
        let cur = s.take(j);
        assert(cur.drop_last() =~= pre);
        assert(all_digits(pre));
        lemma_digits_val_nonneg(pre);
        assert(is_digit(cur.last()));
    }
}

/// Relies on String::push: appends one character at the end of the string.
#[verifier::external_body]
fn push_char(s: &mut String, c: char)
    ensures
        final(s)@ == old(s)@.push(c),
{
    s.push(c)
}

/// Character-by-character string equality.
pub fn str_eq(a: &str, b: &str) -> (r: bool)
    ensures
        r == (a@ == b@),
{
    let alen = a.unicode_len();
    let blen = b.unicode_len();
    if alen != blen {
        return false;
    }
    let mut i: usize = 0;
    while i < alen
        invariant
            0 <= i <= alen,
            alen == a@.len(),
            alen == b@.len(),
            forall|j: int| 0 <= j < i ==> a@[j] == b@[j],
        decreases alen - i,
    {
        if a.get_char(i) != b.get_char(i) {
            return false;
        }
        i += 1;
    }
    proof {
        assert(a@ =~= b@);
    }
    true
}

/// The literal's text with every double-quote character removed.
pub fn strip_quotes(s: &str) -> (r: String)
    ensures
        r@ == strip_quotes_view(s@),
{
    let len = s.unicode_len();
    let mut out = String::new();
    let mut i: usize = 0;
    while i < len
        invariant
            0 <= i <= len,
            len == s@.len(),
            out@ == strip_quotes_view(s@.take(i as int)),
        decreases len - i,
    {
        let c = s.get_char(i);
        proof {
            reveal(Seq::filter);
            assert(s@.take(i + 1).drop_last() =~= s@.take(i as int));
            assert(s@.take(i + 1).last() == s@[i as int]);
            assert(strip_quotes_view(s@.take(i + 1)) == if non_quote(s@[i as int]) {
                strip_quotes_view(s@.take(i as int)).push(s@[i as int])
            } else {
                strip_quotes_view(s@.take(i as int))
            });
        }
        if c != '"' {
            push_char(&mut out, c);
        }
        i += 1;
    }
    proof {
        assert(s@.take(len as int) =~= s@);
    }
    out
}

/// Reads a boolean keyword: exactly `true` or `false`.
pub fn parse_bool(s: &str) -> (r: Option<bool>)
    ensures
        s@ == "true"@ ==> r == Some(true),
        s@ == "false"@ ==> r == Some(false),
        s@ != "true"@ && s@ != "false"@ ==> r is None,
{
    proof {
        reveal_strlit("true");
        reveal_strlit("false");
        assert("true"@.len() == 4);
        assert("false"@.len() == 5);
    }
    if str_eq(s, "true") {
        Some(true)
    } else if str_eq(s, "false") {
        Some(false)
    } else {
        None
    }
}

/// Reads a signed decimal integer: an optional sign followed by decimal
/// digits, with the value fitting a 128-bit signed integer; `None` on any
/// other text.
#[verifier::loop_isolation(false)]
pub fn parse_i128(s: &str) -> (r: Option<i128>)
    ensures
        match spec_parse_i128(s@) {
            Some(v) => r matches Some(x) && x as int == v,
            None => r is None,
        },
{
    let len = s.unicode_len();
    if len == 0 {
        return None;
    }
    let first = s.get_char(0);
    let negative: bool = first == '-';
    let start: usize = if first == '-' || first == '+' {
        1
    } else {
        0
    };
    if start >= len {
        return None;
    }
    let ghost digits: Seq<char> = s@.subrange(start as int, len as int);
    let mut acc: i128 = 0;
    let mut i: usize = start;
    while i < len
        invariant
            start <= i <= len,
            len == s@.len(),
            start < len,
            digits == s@.subrange(start as int, len as int),
            all_digits(digits.take(i - start)),
            acc as int == if negative {
                -digits_val(digits.take(i - start))
            } else {
                digits_val(digits.take(i - start))
            },
        decreases len - i,
    {
        let c = s.get_char(i);
        let code = c as u32;
        if code < 48 || code > 57 {
            proof {
                assert(!is_digit(digits[i - start]));
                assert(!all_digits(digits));
                if start == 0 {
                    assert(digits =~= s@);
                }
                assert(spec_parse_int(s@) is None);
            }
            return None;
        }
        let d: i128 = (code - 48) as i128;
        let ghost upto: Seq<char> = digits.take(i - start);
        let ghost next: Seq<char> = digits.take(i + 1 - start);
        proof {
            assert(is_digit(digits[i - start]));
            assert(next.drop_last() =~= upto);
            assert(next.last() == digits[i - start]);
            assert(digit_val(digits[i - start]) == d as int);
            assert(all_digits(next));
            assert(digits_val(next) == digits_val(upto) * 10 + d as int);
            lemma_digits_val_nonneg(upto);
        }
        let step = match acc.checked_mul(10) {
            Some(t) => if negative {
                t.checked_sub(d)
            } else {
                t.checked_add(d)
            },
            None => None,
        };
        match step {
            Some(v) => {
                acc = v;
            },
            None => {
                proof {
                    lemma_out_of_range(s@, digits, negative, start as int, i + 1 - start);
                }
                return None;
            },
        }
        i += 1;
    }
    proof {
        assert(digits.take(len - start) =~= digits);
        lemma_parse_int_shape(s@, digits, negative, start as int);
    }
    Some(acc)
}

/// When the digits read so far already overflow the 128-bit range, the whole
/// text denotes no 128-bit value.
proof fn lemma_out_of_range(s: Seq<char>, digits: Seq<char>, negative: bool, start: int, k: int)
    requires
        0 < s.len(),
        start == 0 || start == 1,
        start == 1 <==> (s[0] == '+' || s[0] == '-'),
        negative <==> s[0] == '-',
        start < s.len(),
        digits == s.subrange(start, s.len() as int),
        0 < k <= digits.len(),
        all_digits(digits.take(k)),
        if negative {
            -digits_val(digits.take(k)) < i128::MIN
        } else {
            digits_val(digits.take(k)) > i128::MAX
        },
    ensures
        spec_parse_i128(s) is None,
{
    if all_digits(digits) {
        lemma_digits_val_grows(digits, k, digits.len() as int);
        assert(digits.take(digits.len() as int) =~= digits);
        lemma_parse_int_shape(s, digits, negative, start);
    } else {
        if start == 0 {
            assert(digits =~= s);
        }
        assert(spec_parse_int(s) is None);
    }
}

/// The shape of `spec_parse_int` on a text whose digit part is all digits.
proof fn lemma_parse_int_shape(s: Seq<char>, digits: Seq<char>, negative: bool, start: int)
    requires
        0 < s.len(),
        start == 0 || start == 1,
        start == 1 <==> (s[0] == '+' || s[0] == '-'),
        negative <==> s[0] == '-',
        start < s.len(),
        digits == s.subrange(start, s.len() as int),
        all_digits(digits),
    ensures
        spec_parse_int(s) == Some(
            if negative {
                -digits_val(digits)
            } else {
                digits_val(digits)
            },
        ),
{
    if start == 0 {
        assert(digits =~= s);
        assert(!(s[0] == '+' || s[0] == '-'));
    }
}

} // verus!
