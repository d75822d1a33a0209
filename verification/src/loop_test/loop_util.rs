use vstd::prelude::*;

use crate::text::str_chars;

verus! {

/// The loop argument is not a `u64` in decimal.
#[derive(Debug, Clone, Copy, PartialEq, Eq, Structural)]
pub struct LoopArgError;

pub open spec fn is_digit(c: char) -> bool {
    '0' <= c <= '9'
}

pub open spec fn digit_value(c: char) -> int {
    c as int - '0' as int
}

/// The number that the decimal digits `d` spell.
pub open spec fn digits_value(d: Seq<char>) -> int
    decreases d.len(),
{
    if d.len() == 0 {
        0
    } else {
        digits_value(d.drop_last()) * 10 + digit_value(d.last())
    }
}

/// The digits of a decimal number: the text without one leading `+`.
pub open spec fn digits_of(s: Seq<char>) -> Seq<char> {
    if s.len() > 0 && s[0] == '+' {
        s.drop_first()
    } else {
        s
    }
}

/// `s` is a `u64` in decimal: an optional `+`, then one or more ASCII
/// digits whose value fits in a `u64`.
pub open spec fn is_u64_text(s: Seq<char>) -> bool {
    let d = digits_of(s);
    &&& d.len() > 0
    &&& forall|i: int| 0 <= i < d.len() ==> is_digit(#[trigger] d[i])
    &&& digits_value(d) <= u64::MAX
}

proof fn lemma_digits_value_nonneg(d: Seq<char>)
    requires
        forall|j: int| 0 <= j < d.len() ==> is_digit(#[trigger] d[j]),
    ensures
        digits_value(d) >= 0,
    decreases d.len(),
{
    if d.len() > 0 {
        lemma_digits_value_nonneg(d.drop_last());
        assert(is_digit(d[d.len() - 1]));
    }
}

proof fn lemma_digits_value_grows(d: Seq<char>, i: int)
    requires
        0 <= i <= d.len(),
        forall|j: int| 0 <= j < d.len() ==> is_digit(#[trigger] d[j]),
    ensures
        0 <= digits_value(d.take(i)) <= digits_value(d),
    decreases d.len() - i,
{
    if i < d.len() {
        lemma_digits_value_grows(d, i + 1);
        assert(d.take(i + 1).drop_last() =~= d.take(i));
        assert(d.take(i + 1).last() == d[i]);
        assert(is_digit(d[i]));
        assert forall|j: int| 0 <= j < d.take(i).len() implies is_digit(#[trigger] d.take(i)[j]) by {
            assert(d.take(i)[j] == d[j]);
        }
        lemma_digits_value_nonneg(d.take(i));
    } else {
        assert(d.take(i) =~= d);
        lemma_digits_value_nonneg(d);
    }
}

/// Parses the argument of a print loop: its number of seconds.
pub fn parse_loop_arg(arg: &str) -> (r: Result<u64, LoopArgError>)
    ensures
        is_u64_text(arg@) ==> r == Ok::<u64, LoopArgError>(digits_value(digits_of(arg@)) as u64),
        !is_u64_text(arg@) ==> r == Err::<u64, LoopArgError>(LoopArgError),
{
    let chars = str_chars(arg);
    let ghost d = digits_of(arg@);
    let mut i: usize = 0;
    if chars.len() > 0 && chars[0] == '+' {
        i = 1;
    }
    let start = i;
    assert(d =~= chars@.skip(start as int));
    if start == chars.len() {
        return Err(LoopArgError);
    }
    let mut value: u64 = 0;
    while i < chars.len()
        invariant
            chars@ == arg@,
            d == chars@.skip(start as int),
            d == digits_of(arg@),
            start <= i <= chars@.len(),
            forall|j: int| 0 <= j < i - start ==> is_digit(#[trigger] d[j]),
            value == digits_value(d.take(i - start)),
        decreases chars.len() - i,
    {
        let c = chars[i];
        assert(d[i - start] == c);
        if !('0' <= c && c <= '9') {
            assert(!is_digit(d[i - start]));
            return Err(LoopArgError);
        }
        let digit = (c as u32 - '0' as u32) as u64;
        assert(d.take(i - start + 1).drop_last() =~= d.take(i - start));
        assert(d.take(i - start + 1).last() == c);
        let next = match value.checked_mul(10) {
            Some(v) => v.checked_add(digit),
            None => None,
        };
        match next {
            Some(v) => {
                value = v;
            },
            None => {
                proof {
                    if forall|j: int| 0 <= j < d.len() ==> is_digit(#[trigger] d[j]) {
                        lemma_digits_value_grows(d, i - start + 1);
                    }
                }
                return Err(LoopArgError);
            },
        }
        i += 1;
    }
    assert(d.take(d.len() as int) =~= d);
    Ok(value)
}

} // verus!
