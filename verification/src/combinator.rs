//! The combinator core: the `Parser` abstraction, the character-class matcher
//! `skip_one_of`, repetition (`kleene_star`) and ordered alternation
//! (`either`). Grammar composition is value composition: a combinator takes
//! parsers and returns a new parser.

use vstd::prelude::*;

use crate::term::{ParseError, ParseResult, PartialParse, Term};

verus! {

/// The outcome of applying a parser, at the specification level: either a
/// parsed term together with the unconsumed remainder of the input, or a
/// failure carrying a diagnostic message.
#[verifier::ext_equal]
pub enum SpecOutcome {
    Parsed { term: Term, rest: Seq<char> },
    Failed { msg: Seq<char> },
}

/// `rest` is a suffix of `full`.
pub open spec fn is_suffix_of(rest: Seq<char>, full: Seq<char>) -> bool {
    rest.len() <= full.len() && rest == full.skip(full.len() - rest.len())
}

/// The executable result `r` is exactly what the specification outcome says:
/// the same term and remainder on success, the same diagnostic on failure.
pub open spec fn result_matches<'a>(r: ParseResult<'a>, outcome: SpecOutcome) -> bool {
    match (r, outcome) {
        (Ok(pp), SpecOutcome::Parsed { term, rest }) => pp.term == term && pp.rest@ == rest,
        (Err(ParseError::Generic { msg }), SpecOutcome::Failed { msg: m }) => msg@ == m,
        _ => false,
    }
}

/// A parser: a first-class value that is applied to an input slice and either
/// consumes a prefix of it, returning the parsed term plus the rest, or fails
/// with no effect. Every parser in this library is pure: the outcome is a
/// function of the parser value and the input alone.
pub trait Parser: Sized {
    /// When the parser may be applied.
    spec fn wf(&self) -> bool;

    /// Whether the parser consumes at least one character whenever it
    /// succeeds. Repetition requires this of its operand to terminate.
    spec fn progresses(&self) -> bool;

    /// The outcome of applying the parser to an input.
    spec fn spec_apply(&self, input: Seq<char>) -> SpecOutcome;

    /// On success the rest is a suffix of the input, and a progressing parser
    /// leaves a strictly shorter rest.
    proof fn lemma_apply_suffix(&self, input: Seq<char>)
        requires
            self.wf(),
        ensures
            (match self.spec_apply(input) {
                SpecOutcome::Parsed { term: _, rest } => is_suffix_of(rest, input) && (
                self.progresses() ==> rest.len() < input.len()),
                SpecOutcome::Failed { msg: _ } => true,
            }),
    ;

    /// Apply the parser to an input slice.
    fn apply<'a>(&self, input: &'a str) -> (r: ParseResult<'a>)
        requires
            self.wf(),
        ensures
            result_matches(r, self.spec_apply(input@)),
    ;
}

/// Whether `c` occurs in `chars`.
fn contains_char(chars: &str, c: char) -> (r: bool)
    ensures
        r == chars@.contains(c),
{
    let n = chars.unicode_len();
    let mut i: usize = 0;
    while i < n
        invariant
            n == chars@.len(),
            i <= n,
            forall|j: int| 0 <= j < i ==> chars@[j] != c,
        decreases n - i,
    {
        if chars.get_char(i) == c {
            assert(chars@.contains(c)) by {
                assert(chars@[i as int] == c);
            }
            return true;
        }
        i = i + 1;
    }
    false
}

/// The diagnostic of a character-class mismatch.
fn no_match_message() -> (r: String)
    ensures
        r@ == "no match"@,
{
    "no match".to_owned()
}

/// What the character-class matcher yields: on a non-empty input whose first
/// character is in the class, success consuming exactly that character;
/// otherwise failure.
pub open spec fn spec_skip_one_of(chars: Seq<char>, input: Seq<char>) -> SpecOutcome {
    if input.len() > 0 && chars.contains(input[0]) {
        SpecOutcome::Parsed { term: Term::Empty, rest: input.skip(1) }
    } else {
        SpecOutcome::Failed { msg: "no match"@ }
    }
}

/// A parser that consumes exactly one character, which must belong to a
/// captured character class.
pub struct SkipOneOf {
    pub chars: String,
}

impl Parser for SkipOneOf {
    open spec fn wf(&self) -> bool {
        true
    }

    open spec fn progresses(&self) -> bool {
        true
    }

    open spec fn spec_apply(&self, input: Seq<char>) -> SpecOutcome {
        spec_skip_one_of(self.chars@, input)
    }

    proof fn lemma_apply_suffix(&self, input: Seq<char>) {
        if input.len() > 0 && self.chars@.contains(input[0]) {
            assert(input.skip(1) =~= input.skip(input.len() - input.skip(1).len()));
        }
    }

    fn apply<'a>(&self, input: &'a str) -> (r: ParseResult<'a>) {
        let n = input.unicode_len();
        if n == 0 {
            return Err(ParseError::Generic { msg: no_match_message() });
        }
        let c = input.get_char(0);
        if contains_char(self.chars.as_str(), c) {
            let rest = input.substring_char(1, n);
            proof {
                assert(input@.subrange(1, n as int) =~= input@.skip(1));
            }
            Ok(PartialParse { term: Term::Empty, rest })
        } else {
            Err(ParseError::Generic { msg: no_match_message() })
        }
    }
}

/// Build the parser that skips one character drawn from `chars`.
pub fn skip_one_of(chars: &str) -> (p: SkipOneOf)
    ensures
        p.chars@ == chars@,
{
    SkipOneOf { chars: chars.to_owned() }
}

/// Every sequence is a suffix of itself.
pub proof fn lemma_suffix_refl(s: Seq<char>)
    ensures
        is_suffix_of(s, s),
{
    assert(s =~= s.skip(0));
}

/// Being a suffix is transitive.
pub proof fn lemma_suffix_trans(a: Seq<char>, b: Seq<char>, c: Seq<char>)
    requires
        is_suffix_of(a, b),
        is_suffix_of(b, c),
    ensures
        is_suffix_of(a, c),
{
    assert(a =~= c.skip(c.len() - a.len()));
}

/// The remainder after applying `op` as many times as it succeeds: the cursor
/// advances through the input with each success and stops at the first
/// failure. The guard on the recursive call only restates the progress
/// guarantee that every successful application leaves a shorter rest.
pub open spec fn star_rest<P: Parser>(op: P, input: Seq<char>) -> Seq<char>
    decreases input.len(),
{
    match op.spec_apply(input) {
        SpecOutcome::Parsed { term: _, rest } => if rest.len() < input.len() {
            star_rest(op, rest)
        } else {
            input
        },
        SpecOutcome::Failed { msg: _ } => input,
    }
}

/// Where repetition stops: at a suffix of the input on which `op` fails.
pub proof fn lemma_star_rest_suffix<P: Parser>(op: P, input: Seq<char>)
    requires
        op.wf(),
        op.progresses(),
    ensures
        is_suffix_of(star_rest(op, input), input),
        op.spec_apply(star_rest(op, input)) is Failed,
    decreases input.len(),
{
    op.lemma_apply_suffix(input);
    match op.spec_apply(input) {
        SpecOutcome::Parsed { term: _, rest } => {
            lemma_star_rest_suffix(op, rest);
            lemma_suffix_trans(star_rest(op, rest), rest, input);
        }
        SpecOutcome::Failed { msg: _ } => {
            lemma_suffix_refl(input);
        }
    }
}

/// Repetition: applies its operand as many times as it succeeds, accumulating
/// no term value, and succeeds whatever the input: zero repetitions are a
/// valid match. The operand must consume on every success, or repetition
/// would never stop.
pub struct KleeneStar<P> {
    pub op: P,
}

impl<P: Parser> Parser for KleeneStar<P> {
    open spec fn wf(&self) -> bool {
        self.op.wf() && self.op.progresses()
    }

    open spec fn progresses(&self) -> bool {
        false
    }

    open spec fn spec_apply(&self, input: Seq<char>) -> SpecOutcome {
        SpecOutcome::Parsed { term: Term::Empty, rest: star_rest(self.op, input) }
    }

    proof fn lemma_apply_suffix(&self, input: Seq<char>) {
        lemma_star_rest_suffix(self.op, input);
    }

    fn apply<'a>(&self, input: &'a str) -> (r: ParseResult<'a>) {
        let mut cur: &'a str = input;
        loop
            invariant
                self.wf(),
                star_rest(self.op, input@) == star_rest(self.op, cur@),
            ensures
                cur@ == star_rest(self.op, input@),
            decreases cur@.len(),
        {
            match self.op.apply(cur) {
                Ok(pp) => {
                    proof {
                        self.op.lemma_apply_suffix(cur@);
                    }
                    cur = pp.rest;
                }
                Err(_) => {
                    break ;
                }
            }
        }
        Ok(PartialParse { term: Term::Empty, rest: cur })
    }
}

/// Build the repetition of `op`.
pub fn kleene_star<P: Parser>(op: P) -> (p: KleeneStar<P>)
    ensures
        p == (KleeneStar { op }),
{
    KleeneStar { op }
}

/// Ordered alternation: the first parser's result if it succeeds, else the
/// second applied to the original input; a failed first branch leaks none of
/// its consumption.
pub struct Either<P, Q> {
    pub first: P,
    pub second: Q,
}

impl<P: Parser, Q: Parser> Parser for Either<P, Q> {
    open spec fn wf(&self) -> bool {
        self.first.wf() && self.second.wf()
    }

    open spec fn progresses(&self) -> bool {
        self.first.progresses() && self.second.progresses()
    }

    open spec fn spec_apply(&self, input: Seq<char>) -> SpecOutcome {
        if self.first.spec_apply(input) is Parsed {
            self.first.spec_apply(input)
        } else {
            self.second.spec_apply(input)
        }
    }

    proof fn lemma_apply_suffix(&self, input: Seq<char>) {
        self.first.lemma_apply_suffix(input);
        self.second.lemma_apply_suffix(input);
    }

    fn apply<'a>(&self, input: &'a str) -> (r: ParseResult<'a>) {
        match self.first.apply(input) {
            Ok(pp) => Ok(pp),
            Err(_) => self.second.apply(input),
        }
    }
}

/// Build the ordered alternation of two parsers.
pub fn either<P: Parser, Q: Parser>(first: P, second: Q) -> (p: Either<P, Q>)
    ensures
        p == (Either { first, second }),
{
    Either { first, second }
}

/// What sequencing yields: the first parser's term and the second's, read
/// from where the first stopped, combined into a pair cell. Either failure
/// propagates unchanged.
pub open spec fn spec_sequence<P: Parser, Q: Parser>(
    first: P,
    second: Q,
    input: Seq<char>,
) -> SpecOutcome {
    match first.spec_apply(input) {
        SpecOutcome::Parsed { term: t1, rest: r1 } => match second.spec_apply(r1) {
            SpecOutcome::Parsed { term: t2, rest: r2 } => SpecOutcome::Parsed {
                term: (Term::Cons { car: Box::new(t1), cdr: Box::new(t2) }),
                rest: r2,
            },
            SpecOutcome::Failed { msg } => SpecOutcome::Failed { msg },
        },
        SpecOutcome::Failed { msg } => SpecOutcome::Failed { msg },
    }
}

/// Sequencing: the first parser, then the second on what the first left,
/// their terms combined into a pair cell.
pub struct Sequence<P, Q> {
    pub first: P,
    pub second: Q,
}

impl<P: Parser, Q: Parser> Parser for Sequence<P, Q> {
    open spec fn wf(&self) -> bool {
        self.first.wf() && self.second.wf()
    }

    open spec fn progresses(&self) -> bool {
        self.first.progresses() || self.second.progresses()
    }

    open spec fn spec_apply(&self, input: Seq<char>) -> SpecOutcome {
        spec_sequence(self.first, self.second, input)
    }

    proof fn lemma_apply_suffix(&self, input: Seq<char>) {
        self.first.lemma_apply_suffix(input);
        match self.first.spec_apply(input) {
            SpecOutcome::Parsed { term: _, rest: r1 } => {
                self.second.lemma_apply_suffix(r1);
                match self.second.spec_apply(r1) {
                    SpecOutcome::Parsed { term: _, rest: r2 } => {
                        lemma_suffix_trans(r2, r1, input);
                    }
                    SpecOutcome::Failed { msg: _ } => {
                    }
                }
            }
            SpecOutcome::Failed { msg: _ } => {
            }
        }
    }

    fn apply<'a>(&self, input: &'a str) -> (r: ParseResult<'a>) {
        match self.first.apply(input) {
            Ok(pp1) => match self.second.apply(pp1.rest) {
                Ok(pp2) => Ok(
                    PartialParse {
                        term: Term::Cons { car: Box::new(pp1.term), cdr: Box::new(pp2.term) },
                        rest: pp2.rest,
                    },
                ),
                Err(e) => Err(e),
            },
            Err(e) => Err(e),
        }
    }
}

/// Build the sequencing of two parsers.
pub fn sequence<P: Parser, Q: Parser>(first: P, second: Q) -> (p: Sequence<P, Q>)
    ensures
        p == (Sequence { first, second }),
{
    Sequence { first, second }
}

/// The character-class matcher in full: on a non-empty input whose first
/// character is in the class it succeeds, consuming exactly that character;
/// on every other input it fails.
pub proof fn lemma_skip_one_of_characterization(chars: Seq<char>, input: Seq<char>)
    ensures
        input.len() > 0 && chars.contains(input[0]) ==> spec_skip_one_of(chars, input)
            == (SpecOutcome::Parsed { term: Term::Empty, rest: input.skip(1) }),
        !(input.len() > 0 && chars.contains(input[0])) ==> spec_skip_one_of(chars, input) is Failed,
{
}

/// Repetition never fails: zero repetitions are a valid, successful match.
pub proof fn lemma_kleene_star_never_fails<P: Parser>(op: P, input: Seq<char>)
    ensures
        (KleeneStar { op }).spec_apply(input) is Parsed,
{
}

/// The rest left by repetition is never longer than the input, and is as long
/// as the input exactly when the operand fails on the input immediately.
pub proof fn lemma_kleene_star_rest_len<P: Parser>(op: P, input: Seq<char>)
    requires
        op.wf(),
        op.progresses(),
    ensures
        star_rest(op, input).len() <= input.len(),
        star_rest(op, input).len() == input.len() <==> op.spec_apply(input) is Failed,
{
    lemma_star_rest_suffix(op, input);
    op.lemma_apply_suffix(input);
    match op.spec_apply(input) {
        SpecOutcome::Parsed { term: _, rest } => {
            lemma_star_rest_suffix(op, rest);
        }
        SpecOutcome::Failed { msg: _ } => {
        }
    }
}

} // verus!
