//! Parsing of the line and byte counts given on the command line.
use vstd::prelude::*;
use vstd::string::StringSliceAdditionalSpecFns;

verus! {

/// True for the ASCII bytes `'0'..='9'`.
pub open spec fn is_digit(b: u8) -> bool {
    48 <= b && b <= 57
}

/// Every byte of `s` is a decimal digit.
pub open spec fn all_digits(s: Seq<u8>) -> bool {
    forall|i: int| 0 <= i < s.len() ==> is_digit(#[trigger] s[i])
}

/// The base-10 value of a string of digits, most significant first.
pub open spec fn digits_value(s: Seq<u8>) -> nat
    decreases s.len(),
{
    if s.len() == 0 {
        0
    } else {
        digits_value(s.drop_last()) * 10 + (s.last() - 48) as nat
    }
}

/// The digits of a count: the text with one optional leading `'+'` removed.
pub open spec fn unsigned_part(s: Seq<u8>) -> Seq<u8> {
    if s.len() > 0 && s[0] == 43 {
        s.skip(1)
    } else {
        s
    }
}

/// The text is a base-10 integer: an optional `'+'` and at least one digit.
pub open spec fn is_decimal(s: Seq<u8>) -> bool {
    unsigned_part(s).len() > 0 && all_digits(unsigned_part(s))
}

/// The value of a text for which `is_decimal` holds.
pub open spec fn decimal_value(s: Seq<u8>) -> nat {
    digits_value(unsigned_part(s))
}

/// The text is accepted as a count: a decimal integer that is positive and
/// fits in a `usize`.
pub open spec fn is_valid_count(s: Seq<u8>) -> bool {
    is_decimal(s) && 0 < decimal_value(s) && decimal_value(s) <= usize::MAX
}

/// Parses a strictly positive count. On failure the error holds the
/// offending text unchanged, for messages such as
/// `illegal line count -- <text>`.
pub fn parse_positive_int(val: &str) -> (r: Result<usize, String>)
    ensures
        r is Ok <==> is_valid_count(val.spec_bytes()),
        r is Ok ==> r->Ok_0 as nat == decimal_value(val.spec_bytes()),
        r is Err ==> r->Err_0@ == val@,
{
    let bytes = val.as_bytes();
    let ghost s = bytes@;
    let mut start: usize = 0;
    if bytes.len() > 0 && bytes[0] == 43u8 {
        start = 1;
    }
    let ghost d = unsigned_part(s);
    assert(d =~= s.skip(start as int));
    if start >= bytes.len() {
        return Err(val.to_owned());
    }
    let mut acc: usize = 0;
    let mut too_big = false;
    let mut i: usize = start;
    while i < bytes.len()
        invariant
            bytes@ == s,
            s == val.spec_bytes(),
            d == unsigned_part(s),
            d == s.skip(start as int),
            start <= i <= s.len(),
            all_digits(d.take(i - start)),
            !too_big ==> acc as nat == digits_value(d.take(i - start)),
            too_big ==> digits_value(d.take(i - start)) > usize::MAX,
        decreases s.len() - i,
    {
        let b = bytes[i];
        if b < 48u8 || b > 57u8 {
            assert(d[i - start] == b);
            assert(!is_digit(d[i - start]));
            assert(!all_digits(d));
            return Err(val.to_owned());
        }
        let ghost prev = d.take(i - start);
        let ghost next = d.take(i - start + 1);
        assert(next.drop_last() =~= prev);
        assert(next.last() == b);
        let digit = (b - 48u8) as usize;
        if !too_big {
            if acc > (usize::MAX - digit) / 10 {
                assert(acc * 10 + digit > usize::MAX) by (nonlinear_arith)
                    requires
                        acc > (usize::MAX - digit) / 10,
                        digit <= 9,
                ;
                too_big = true;
            } else {
                assert(acc * 10 + digit <= usize::MAX) by (nonlinear_arith)
                    requires
                        acc <= (usize::MAX - digit) / 10,
                        digit <= 9,
                ;
                acc = acc * 10 + digit;
            }
        } else {
            assert(digits_value(next) >= digits_value(prev) * 10) by (nonlinear_arith)
                requires
                    digits_value(next) == digits_value(prev) * 10 + (b - 48) as nat,
            ;
        }
        i = i + 1;
    }
    assert(d.take(i - start) =~= d);
    if too_big || acc == 0 {
        Err(val.to_owned())
    } else {
        Ok(acc)
    }
}

/// The usual base-10 text of `n`: digits only, no leading zero.
pub open spec fn decimal_text(n: nat) -> Seq<u8>
    decreases n,
{
    if n < 10 {
        seq![(48 + n) as u8]
    } else {
        decimal_text(n / 10).push((48 + n % 10) as u8)
    }
}

proof fn lemma_decimal_text_digits(n: nat)
    ensures
        decimal_text(n).len() > 0,
        is_digit(decimal_text(n)[0]),
        all_digits(decimal_text(n)),
        digits_value(decimal_text(n)) == n,
    decreases n,
{
    let t = decimal_text(n);
    if n < 10 {
        assert(t.drop_last() =~= Seq::<u8>::empty());
        assert(digits_value(t) == digits_value(t.drop_last()) * 10 + (t.last() - 48) as nat);
    } else {
        lemma_decimal_text_digits(n / 10);
        assert(t.drop_last() =~= decimal_text(n / 10));
        assert(t[0] == decimal_text(n / 10)[0]);
        assert(t.last() == (48 + n % 10) as u8);
        assert(digits_value(t) == digits_value(t.drop_last()) * 10 + (t.last() - 48) as nat);
        assert((n / 10) * 10 + n % 10 == n);
        assert forall|i: int| 0 <= i < t.len() implies is_digit(#[trigger] t[i]) by {
            if i < t.len() - 1 {
                assert(t[i] == decimal_text(n / 10)[i]);
            }
        }
    }
}

/// Parsing the decimal text of any positive count that fits in a `usize`
/// gives the count back.
pub proof fn lemma_parse_decimal_text(n: nat)
    requires
        0 < n <= usize::MAX,
    ensures
        is_valid_count(decimal_text(n)),
        decimal_value(decimal_text(n)) == n,
{
    lemma_decimal_text_digits(n);
    assert(unsigned_part(decimal_text(n)) == decimal_text(n));
}

/// Zero and negative numbers are not counts: a text that starts with `'-'`,
/// or whose value is zero, is rejected.
pub proof fn lemma_non_positive_rejected(s: Seq<u8>)
    requires
        (s.len() > 0 && s[0] == 45) || (is_decimal(s) && decimal_value(s) == 0),
    ensures
        !is_valid_count(s),
{
    if s.len() > 0 && s[0] == 45 {
        assert(unsigned_part(s) == s);
        assert(!is_digit(s[0]));
    }
}

} // verus!
