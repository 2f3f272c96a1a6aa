use vstd::prelude::*;

verus! {

/// Makes `std::num::ParseIntError` usable in signatures; its contents stay opaque.
#[verifier::external_type_specification]
#[verifier::external_body]
pub struct ExParseIntError(std::num::ParseIntError);

pub open spec fn is_ascii_digit(c: char) -> bool {
    '0' <= c <= '9'
}

/// The number written by the decimal digits `d`.
pub open spec fn digits_value(d: Seq<char>) -> int
    decreases d.len(),
{
    if d.len() == 0 {
        0
    } else {
        digits_value(d.drop_last()) * 10 + (d.last() as int - '0' as int)
    }
}

/// `s` without one leading `+`, if it has one.
pub open spec fn without_plus(s: Seq<char>) -> Seq<char> {
    if s.len() > 0 && s[0] == '+' {
        s.drop_first()
    } else {
        s
    }
}

/// The `u64` that `s` denotes as `str::parse::<u64>` reads it: an optional
/// `+` and then one or more decimal digits, nothing else, with a value that
/// fits in 64 bits.
pub open spec fn decimal_u64(s: Seq<char>) -> Option<u64> {
    let d = without_plus(s);
    if d.len() > 0 && (forall|i: int| 0 <= i < d.len() ==> is_ascii_digit(#[trigger] d[i]))
        && digits_value(d) <= u64::MAX {
        Some(digits_value(d) as u64)
    } else {
        None
    }
}

proof fn lemma_digits_value_nonnegative(d: Seq<char>)
    requires
        forall|i: int| 0 <= i < d.len() ==> is_ascii_digit(#[trigger] d[i]),
    ensures
        digits_value(d) >= 0,
    decreases d.len(),
{
    if d.len() > 0 {
        let init = d.drop_last();
        assert forall|i: int| 0 <= i < init.len() implies is_ascii_digit(#[trigger] init[i]) by {
            assert(init[i] == d[i]);
        }
        lemma_digits_value_nonnegative(init);
        assert(is_ascii_digit(d[d.len() - 1]));
    }
}

/// How a number is read: no text and a lone `+` are not numbers; a single
/// decimal digit is its value; one more digit on the right multiplies by ten
/// and adds it, while the value fits in 64 bits; a leading `+` before a
/// digit changes nothing; any other character makes the text no number.
pub proof fn law_decimal_reading(d: Seq<char>, c: char)
    ensures
        decimal_u64(Seq::empty()) is None,
        decimal_u64(seq!['+']) is None,
        '0' <= c <= '9' ==> decimal_u64(seq![c]) == Some((c as int - '0' as int) as u64),
        ('0' <= c <= '9' && decimal_u64(d) is Some && d.len() > 0 && d[0] != '+') ==> decimal_u64(
            d.push(c),
        ) == (if decimal_u64(d)->0 * 10 + (c as int - '0' as int) <= u64::MAX {
            Some((decimal_u64(d)->0 * 10 + (c as int - '0' as int)) as u64)
        } else {
            None
        }),
        (d.len() > 0 && '0' <= d[0] <= '9') ==> decimal_u64(seq!['+'] + d) == decimal_u64(d),
        (exists|i: int| 1 <= i < d.len() && !('0' <= #[trigger] d[i] <= '9')) ==> decimal_u64(d) is None,
        (d.len() > 0 && d[0] != '+' && !('0' <= d[0] <= '9')) ==> decimal_u64(d) is None,
{
    let one = seq![c];
    assert(one.drop_last() =~= Seq::<char>::empty());
    if '0' <= c <= '9' {
        assert(one[0] == c);
        assert(without_plus(one) == one);
        assert(digits_value(one) == digits_value(one.drop_last()) * 10 + (c as int - '0' as int));
        assert(digits_value(one) == c as int - '0' as int);
        assert forall|i: int| 0 <= i < one.len() implies is_ascii_digit(#[trigger] one[i]) by {}
    }
    if '0' <= c <= '9' && decimal_u64(d) is Some && d.len() > 0 && d[0] != '+' {
        let e = d.push(c);
        assert(without_plus(d) == d);
        assert(without_plus(e) == e);
        assert(e.drop_last() =~= d);
        assert(e.last() == c);
        assert(forall|i: int| 0 <= i < d.len() ==> is_ascii_digit(#[trigger] d[i]));
        assert(digits_value(d) <= u64::MAX);
        lemma_digits_value_nonnegative(d);
        assert(decimal_u64(d)->0 == digits_value(d));
        assert(digits_value(e) == digits_value(d) * 10 + (c as int - '0' as int));
        assert forall|i: int| 0 <= i < e.len() implies is_ascii_digit(#[trigger] e[i]) by {
            if i < d.len() {
                assert(e[i] == d[i]);
            }
        }
    }
    if d.len() > 0 && '0' <= d[0] <= '9' {
        let p = seq!['+'] + d;
        assert(p[0] == '+');
        assert(p.drop_first() =~= d);
        assert(without_plus(d) == d);
    }
    if exists|i: int| 1 <= i < d.len() && !('0' <= #[trigger] d[i] <= '9') {
        let i = choose|i: int| 1 <= i < d.len() && !('0' <= #[trigger] d[i] <= '9');
        let w = without_plus(d);
        if d[0] == '+' {
            assert(w[i - 1] == d[i]);
        } else {
            assert(w[i] == d[i]);
        }
    }
    if d.len() > 0 && d[0] != '+' && !('0' <= d[0] <= '9') {
        assert(without_plus(d)[0] == d[0]);
    }
}

/// Calls `str::parse::<u64>` (`u64::from_str`). Its documentation states that
/// the text must be an optional `+` followed by one or more digits and nothing
/// else, and that a value above `u64::MAX` is an error; this contract says
/// exactly that.
#[verifier::external_body]
pub(crate) fn parse_u64(s: &str) -> (r: Result<u64, std::num::ParseIntError>)
    ensures
        match decimal_u64(s@) {
            Some(n) => r matches Ok(v) && v == n,
            None => r is Err,
        },
{
    s.parse::<u64>()
}

} // verus!
