//! The literal matcher for signed decimal integers.

use vstd::prelude::*;

use crate::combinator::{
    is_suffix_of, lemma_suffix_refl, lemma_suffix_trans, result_matches, Parser, SpecOutcome,
};
use crate::parsers::{lemma_skip_whitespace_suffix, skip_whitespace, spec_skip_whitespace};
use crate::term::{ParseError, ParseResult, PartialParse, Term};

verus! {

/// A decimal digit.
pub open spec fn is_digit_char(c: char) -> bool {
    '0' as int <= c as int && c as int <= '9' as int
}

/// The numeric value of a decimal digit.
pub open spec fn digit_val(c: char) -> int {
    c as int - '0' as int
}

/// The length of the leading run of decimal digits.
pub open spec fn digit_run_len(s: Seq<char>) -> int
    decreases s.len(),
{
    if s.len() > 0 && is_digit_char(s[0]) {
        1 + digit_run_len(s.skip(1))
    } else {
        0
    }
}

/// The value of a sequence of decimal digits read left to right.
pub open spec fn digits_value(s: Seq<char>) -> int
    decreases s.len(),
{
    if s.len() == 0 {
        0
    } else {
        digits_value(s.drop_last()) * 10 + digit_val(s.last())
    }
}

/// The leading digit run lies within the sequence and is all digits.
proof fn lemma_digit_run(s: Seq<char>)
    ensures
        0 <= digit_run_len(s) <= s.len(),
        forall|j: int| 0 <= j < digit_run_len(s) ==> is_digit_char(#[trigger] s[j]),
    decreases s.len(),
{
    if s.len() > 0 && is_digit_char(s[0]) {
        lemma_digit_run(s.skip(1));
        assert forall|j: int| 0 <= j < digit_run_len(s) implies is_digit_char(#[trigger] s[j]) by {
            if j > 0 {
                assert(s.skip(1)[j - 1] == s[j]);
            }
        }
    }
}

/// A sequence of digits has a non-negative value.
proof fn lemma_digits_value_nonneg(s: Seq<char>)
    requires
        forall|j: int| 0 <= j < s.len() ==> is_digit_char(#[trigger] s[j]),
    ensures
        digits_value(s) >= 0,
    decreases s.len(),
{
    if s.len() > 0 {
        assert forall|j: int| 0 <= j < s.drop_last().len() implies is_digit_char(
            #[trigger] s.drop_last()[j],
        ) by {
            assert(s.drop_last()[j] == s[j]);
        }
        lemma_digits_value_nonneg(s.drop_last());
        assert(digit_val(s.last()) >= 0);
    }
}

/// Reading more digits never decreases the value.
proof fn lemma_digits_value_prefix_le(s: Seq<char>, i: int, k: int)
    requires
        0 <= i <= k <= s.len(),
        forall|j: int| 0 <= j < s.len() ==> is_digit_char(#[trigger] s[j]),
    ensures
        digits_value(s.take(i)) <= digits_value(s.take(k)),
    decreases k - i,
{
    if i < k {
        lemma_digits_value_prefix_le(s, i, k - 1);
        let p = s.take(k);
        assert(p.drop_last() =~= s.take(k - 1));
        assert forall|j: int| 0 <= j < s.take(k - 1).len() implies is_digit_char(
            #[trigger] s.take(k - 1)[j],
        ) by {
            assert(s.take(k - 1)[j] == s[j]);
        }
        lemma_digits_value_nonneg(s.take(k - 1));
        assert(p.last() == s[k - 1]);
        assert(digit_val(s[k - 1]) >= 0);
    }
}

/// What `parse_number` yields: after skipping whitespace, an optional minus
/// sign followed by the longest run of decimal digits, read as a signed
/// decimal integer. No digits at all is a mismatch; a value outside the range
/// of the term's integer type is rejected as out of range.
pub open spec fn spec_parse_number(input: Seq<char>) -> SpecOutcome {
    let t = spec_skip_whitespace(input);
    let neg = t.len() > 0 && t[0] == '-';
    let body = if neg {
        t.skip(1)
    } else {
        t
    };
    let k = digit_run_len(body);
    if k == 0 {
        SpecOutcome::Failed { msg: "not a number"@ }
    } else {
        let value = if neg {
            -digits_value(body.take(k))
        } else {
            digits_value(body.take(k))
        };
        if i32::MIN <= value <= i32::MAX {
            SpecOutcome::Parsed { term: (Term::Number { v: value as i32 }), rest: body.skip(k) }
        } else {
            SpecOutcome::Failed { msg: "number out of range"@ }
        }
    }
}

/// Whether `c` is a decimal digit.
fn is_digit(c: char) -> (r: bool)
    ensures
        r == is_digit_char(c),
{
    let u: u32 = c as u32;
    ('0' as u32) <= u && u <= ('9' as u32)
}

/// Skip leading whitespace, then read an optional minus sign and the longest
/// run of decimal digits as a signed decimal integer.
pub fn parse_number<'a>(input: &'a str) -> (r: ParseResult<'a>)
    ensures
        result_matches(r, spec_parse_number(input@)),
{
    let t = skip_whitespace(input);
    let n = t.unicode_len();
    let neg = n > 0 && t.get_char(0) == '-';
    let body: &str = if neg {
        let b = t.substring_char(1, n);
        proof {
            assert(t@.subrange(1, n as int) =~= t@.skip(1));
        }
        b
    } else {
        t
    };
    let m = body.unicode_len();
    let mut i: usize = 0;
    let mut acc: u64 = 0;
    proof {
        assert(body@.skip(0) =~= body@);
    }
    #[verifier::loop_isolation(false)]
    while i < m && is_digit(body.get_char(i))
        invariant
            m == body@.len(),
            i <= m,
            digit_run_len(body@) == i + digit_run_len(body@.skip(i as int)),
            acc <= 2147483648,
            acc == digits_value(body@.take(i as int)),
        decreases m - i,
    {
        let c = body.get_char(i);
        let d: u64 = (c as u64) - ('0' as u64);
        proof {
            lemma_digit_run(body@);
            assert(body@.skip(i as int)[0] == body@[i as int]);
            assert(body@.take(i as int + 1).drop_last() =~= body@.take(i as int));
            assert(body@.take(i as int + 1).last() == body@[i as int]);
        }
        if acc * 10 + d > 2147483648 {
            proof {
                assert(body@.skip(i as int).skip(1) =~= body@.skip(i as int + 1));
                lemma_digit_run(body@.skip(i as int + 1));
                assert(digit_run_len(body@.skip(i as int)) == 1 + digit_run_len(
                    body@.skip(i as int + 1),
                ));
                let k = digit_run_len(body@);
                assert(k >= i + 1);
                let run = body@.take(k);
                assert forall|j: int| 0 <= j < run.len() implies is_digit_char(
                    #[trigger] run[j],
                ) by {
                    assert(run[j] == body@[j]);
                }
                assert(d == digit_val(body@[i as int]));
                assert(digits_value(body@.take(i as int + 1)) == acc * 10 + d);
                assert(run.take(i as int + 1) =~= body@.take(i as int + 1));
                assert(run.take(k) =~= run);
                lemma_digits_value_prefix_le(run, i as int + 1, k);
                assert(digits_value(body@.take(k)) > 2147483648);
            }
            return Err(ParseError::Generic { msg: "number out of range".to_owned() });
        }
        acc = acc * 10 + d;
        i = i + 1;
        proof {
            assert(body@.skip(i - 1).skip(1) =~= body@.skip(i as int));
        }
    }
    proof {
        if i < m {
            assert(body@.skip(i as int)[0] == body@[i as int]);
        }
        assert(digit_run_len(body@.skip(i as int)) == 0);
    }
    if i == 0 {
        return Err(ParseError::Generic { msg: "not a number".to_owned() });
    }
    let rest = body.substring_char(i, m);
    proof {
        assert(body@.subrange(i as int, m as int) =~= body@.skip(i as int));
        assert(body@.take(i as int) =~= body@.take(digit_run_len(body@)));
    }
    if neg {
        let v: i32 = (-(acc as i64)) as i32;
        Ok(PartialParse { term: Term::Number { v }, rest })
    } else {
        if acc > 2147483647 {
            return Err(ParseError::Generic { msg: "number out of range".to_owned() });
        }
        let v: i32 = acc as i32;
        Ok(PartialParse { term: Term::Number { v }, rest })
    }
}

/// The literal matcher for signed decimal integers, as a first-class parser
/// value.
pub struct NumberParser;

impl Parser for NumberParser {
    open spec fn wf(&self) -> bool {
        true
    }

    open spec fn progresses(&self) -> bool {
        true
    }

    open spec fn spec_apply(&self, input: Seq<char>) -> SpecOutcome {
        spec_parse_number(input)
    }

    proof fn lemma_apply_suffix(&self, input: Seq<char>) {
        lemma_skip_whitespace_suffix(input);
        let t = spec_skip_whitespace(input);
        let neg = t.len() > 0 && t[0] == '-';
        let body = if neg {
            t.skip(1)
        } else {
            t
        };
        if neg {
            assert(is_suffix_of(t.skip(1), t)) by {
                assert(t.skip(1) =~= t.skip(t.len() - t.skip(1).len()));
            }
        } else {
            lemma_suffix_refl(t);
        }
        lemma_suffix_trans(body, t, input);
        let k = digit_run_len(body);
        lemma_digit_run(body);
        if self.spec_apply(input) is Parsed {
            assert(is_suffix_of(body.skip(k), body)) by {
                assert(body.skip(k) =~= body.skip(body.len() - body.skip(k).len()));
            }
            lemma_suffix_trans(body.skip(k), body, input);
        }
    }

    fn apply<'a>(&self, input: &'a str) -> (r: ParseResult<'a>) {
        parse_number(input)
    }
}

} // verus!
