//! Derived parsers: whitespace skipping, the literal matchers for `nil` and
//! the booleans, and the top-level entry point `parse`.

use vstd::pervasive::unreached;
use vstd::prelude::*;

use crate::combinator::{
    either, is_suffix_of, kleene_star, lemma_suffix_refl, lemma_suffix_trans, result_matches,
    skip_one_of, star_rest, Parser, SkipOneOf, SpecOutcome,
};
use crate::number::{spec_parse_number, NumberParser};
use crate::term::{error_msg, ParseError, ParseResult, PartialParse, Term};

verus! {

/// The characters treated as whitespace between terms.
pub open spec fn is_space_char(c: char) -> bool {
    c == ' ' || c == '\t' || c == '\n'
}

/// The input without its longest all-whitespace prefix.
pub open spec fn spec_skip_whitespace(input: Seq<char>) -> Seq<char>
    decreases input.len(),
{
    if input.len() > 0 && is_space_char(input[0]) {
        spec_skip_whitespace(input.skip(1))
    } else {
        input
    }
}

/// Repetition of the whitespace character class computes exactly
/// `spec_skip_whitespace`.
proof fn lemma_star_rest_whitespace(p: SkipOneOf, input: Seq<char>)
    requires
        p.chars@ == " \t\n"@,
    ensures
        star_rest(p, input) == spec_skip_whitespace(input),
    decreases input.len(),
{
    reveal_strlit(" \t\n");
    assert forall|c: char| p.chars@.contains(c) == is_space_char(c) by {
        if is_space_char(c) {
            if c == ' ' {
                assert(p.chars@[0] == c);
            } else if c == '\t' {
                assert(p.chars@[1] == c);
            } else {
                assert(p.chars@[2] == c);
            }
        }
        if p.chars@.contains(c) {
            let j = choose|j: int| 0 <= j < p.chars@.len() && p.chars@[j] == c;
            assert(j == 0 || j == 1 || j == 2);
        }
    }
    if input.len() > 0 && is_space_char(input[0]) {
        lemma_star_rest_whitespace(p, input.skip(1));
    }
}

/// Skip the longest whitespace prefix of the input. Total: it never fails,
/// and on all-whitespace input it simply returns the empty rest.
pub fn skip_whitespace<'a>(input: &'a str) -> (r: &'a str)
    ensures
        r@ == spec_skip_whitespace(input@),
{
    let p = kleene_star(skip_one_of(" \t\n"));
    proof {
        lemma_star_rest_whitespace(p.op, input@);
    }
    match p.apply(input) {
        Ok(pp) => pp.rest,
        Err(_) => unreached(),  // repetition never fails
    }
}

/// What remains after skipping whitespace is a suffix of the input.
pub proof fn lemma_skip_whitespace_suffix(input: Seq<char>)
    ensures
        is_suffix_of(spec_skip_whitespace(input), input),
    decreases input.len(),
{
    if input.len() > 0 && is_space_char(input[0]) {
        lemma_skip_whitespace_suffix(input.skip(1));
        assert(is_suffix_of(input.skip(1), input)) by {
            assert(input.skip(1) =~= input.skip(input.len() - input.skip(1).len()));
        }
        lemma_suffix_trans(spec_skip_whitespace(input), input.skip(1), input);
    } else {
        lemma_suffix_refl(input);
    }
}

/// Skipping whitespace is idempotent: a second pass finds nothing to skip.
pub proof fn lemma_skip_whitespace_idempotent(input: Seq<char>)
    ensures
        spec_skip_whitespace(spec_skip_whitespace(input)) == spec_skip_whitespace(input),
    decreases input.len(),
{
    if input.len() > 0 && is_space_char(input[0]) {
        lemma_skip_whitespace_idempotent(input.skip(1));
    }
}

/// What `parse_nil` yields: after skipping whitespace the input must start
/// with the literal `nil`; on a match, exactly those three characters are
/// consumed. Matching is case-sensitive and checks no word boundary.
pub open spec fn spec_parse_nil(input: Seq<char>) -> SpecOutcome {
    let t = spec_skip_whitespace(input);
    if t.len() >= 3 && t[0] == 'n' && t[1] == 'i' && t[2] == 'l' {
        SpecOutcome::Parsed { term: Term::Nil, rest: t.skip(3) }
    } else {
        SpecOutcome::Failed { msg: "not a nil"@ }
    }
}

/// Skip leading whitespace, then match the literal `nil`.
pub fn parse_nil<'a>(input: &'a str) -> (r: ParseResult<'a>)
    ensures
        result_matches(r, spec_parse_nil(input@)),
{
    let t = skip_whitespace(input);
    let n = t.unicode_len();
    if n >= 3 && t.get_char(0) == 'n' && t.get_char(1) == 'i' && t.get_char(2) == 'l' {
        let rest = t.substring_char(3, n);
        proof {
            assert(t@.subrange(3, n as int) =~= t@.skip(3));
        }
        Ok(PartialParse { term: Term::Nil, rest })
    } else {
        Err(ParseError::Generic { msg: "not a nil".to_owned() })
    }
}

/// The literal matcher for `nil`, as a first-class parser value.
pub struct NilParser;

impl Parser for NilParser {
    open spec fn wf(&self) -> bool {
        true
    }

    open spec fn progresses(&self) -> bool {
        true
    }

    open spec fn spec_apply(&self, input: Seq<char>) -> SpecOutcome {
        spec_parse_nil(input)
    }

    proof fn lemma_apply_suffix(&self, input: Seq<char>) {
        lemma_skip_whitespace_suffix(input);
        let t = spec_skip_whitespace(input);
        if t.len() >= 3 && t[0] == 'n' && t[1] == 'i' && t[2] == 'l' {
            assert(is_suffix_of(t.skip(3), t)) by {
                assert(t.skip(3) =~= t.skip(t.len() - t.skip(3).len()));
            }
            lemma_suffix_trans(t.skip(3), t, input);
        }
    }

    fn apply<'a>(&self, input: &'a str) -> (r: ParseResult<'a>) {
        parse_nil(input)
    }
}

/// What `parse_bool` yields: after skipping whitespace the input must start
/// with one of the literals `true` or `false`, which is consumed exactly.
pub open spec fn spec_parse_bool(input: Seq<char>) -> SpecOutcome {
    let t = spec_skip_whitespace(input);
    if t.len() >= 4 && t[0] == 't' && t[1] == 'r' && t[2] == 'u' && t[3] == 'e' {
        SpecOutcome::Parsed { term: (Term::Boolean { b: true }), rest: t.skip(4) }
    } else if t.len() >= 5 && t[0] == 'f' && t[1] == 'a' && t[2] == 'l' && t[3] == 's' && t[4]
        == 'e' {
        SpecOutcome::Parsed { term: (Term::Boolean { b: false }), rest: t.skip(5) }
    } else {
        SpecOutcome::Failed { msg: "not a boolean"@ }
    }
}

/// Skip leading whitespace, then match one of the literals `true` or `false`.
pub fn parse_bool<'a>(input: &'a str) -> (r: ParseResult<'a>)
    ensures
        result_matches(r, spec_parse_bool(input@)),
{
    let t = skip_whitespace(input);
    let n = t.unicode_len();
    if n >= 4 && t.get_char(0) == 't' && t.get_char(1) == 'r' && t.get_char(2) == 'u' && t.get_char(
        3,
    ) == 'e' {
        let rest = t.substring_char(4, n);
        proof {
            assert(t@.subrange(4, n as int) =~= t@.skip(4));
        }
        Ok(PartialParse { term: Term::Boolean { b: true }, rest })
    } else if n >= 5 && t.get_char(0) == 'f' && t.get_char(1) == 'a' && t.get_char(2) == 'l'
        && t.get_char(3) == 's' && t.get_char(4) == 'e' {
        let rest = t.substring_char(5, n);
        proof {
            assert(t@.subrange(5, n as int) =~= t@.skip(5));
        }
        Ok(PartialParse { term: Term::Boolean { b: false }, rest })
    } else {
        Err(ParseError::Generic { msg: "not a boolean".to_owned() })
    }
}

/// The literal matcher for the booleans, as a first-class parser value.
pub struct BoolParser;

impl Parser for BoolParser {
    open spec fn wf(&self) -> bool {
        true
    }

    open spec fn progresses(&self) -> bool {
        true
    }

    open spec fn spec_apply(&self, input: Seq<char>) -> SpecOutcome {
        spec_parse_bool(input)
    }

    proof fn lemma_apply_suffix(&self, input: Seq<char>) {
        lemma_skip_whitespace_suffix(input);
        let t = spec_skip_whitespace(input);
        if t.len() >= 4 && t[0] == 't' && t[1] == 'r' && t[2] == 'u' && t[3] == 'e' {
            assert(is_suffix_of(t.skip(4), t)) by {
                assert(t.skip(4) =~= t.skip(t.len() - t.skip(4).len()));
            }
            lemma_suffix_trans(t.skip(4), t, input);
        } else if t.len() >= 5 && t[0] == 'f' && t[1] == 'a' && t[2] == 'l' && t[3] == 's' && t[4]
            == 'e' {
            assert(is_suffix_of(t.skip(5), t)) by {
                assert(t.skip(5) =~= t.skip(t.len() - t.skip(5).len()));
            }
            lemma_suffix_trans(t.skip(5), t, input);
        }
    }

    fn apply<'a>(&self, input: &'a str) -> (r: ParseResult<'a>) {
        parse_bool(input)
    }
}

/// What the entry point yields before its error is folded into one message:
/// the alternatives are tried in order on the whole input.
pub open spec fn spec_parse_term(input: Seq<char>) -> SpecOutcome {
    if spec_parse_nil(input) is Parsed {
        spec_parse_nil(input)
    } else if spec_parse_bool(input) is Parsed {
        spec_parse_bool(input)
    } else {
        spec_parse_number(input)
    }
}

/// The top-level entry point: read a single term from the front of the input.
/// The literal parsers are tried in order on the original input; the first
/// success wins, and if every alternative fails the caller is told that no
/// term matched.
pub fn parse(input: &str) -> (r: Result<Term, ParseError>)
    ensures
        spec_parse_term(input@) matches SpecOutcome::Parsed { term, rest: _ } ==> r == Ok::<
            Term,
            ParseError,
        >(term),
        spec_parse_term(input@) is Failed ==> (r matches Err(e) && error_msg(e)
            == "no term matched"@),
{
    let p = either(NilParser, either(BoolParser, NumberParser));
    match p.apply(input) {
        Ok(pp) => Ok(pp.term),
        Err(_) => Err(ParseError::Generic { msg: "no term matched".to_owned() }),
    }
}

} // verus!
