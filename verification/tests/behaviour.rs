use lisp_parse::combinator::{either, kleene_star, sequence, skip_one_of, Parser};
use lisp_parse::parsers::{parse, parse_bool, parse_nil, skip_whitespace, BoolParser, NilParser};
use lisp_parse::term::{ParseError, PartialParse, Term};

#[test]
fn skip_one_of_empty_input_fails_cleanly() {
    let result = skip_one_of("abc").apply("");
    match result {
        Err(ParseError::Generic { msg }) => assert_eq!(msg, "no match"),
        Ok(_) => panic!("an empty input must not match"),
    }
}

#[test]
fn skip_one_of_first_char_not_in_class() {
    let result = skip_one_of("abc").apply("xabc");
    match result {
        Err(ParseError::Generic { msg }) => assert_eq!(msg, "no match"),
        Ok(_) => panic!("a mismatch must fail"),
    }
}

#[test]
fn skip_one_of_consumes_exactly_one() {
    let result = skip_one_of("abc").apply("aa");
    assert_eq!(
        result.unwrap(),
        PartialParse {
            term: Term::Empty,
            rest: "a"
        }
    );
}

#[test]
fn kleene_star_consumes_everything() {
    let result = kleene_star(skip_one_of("ab")).apply("abba");
    assert_eq!(
        result.unwrap(),
        PartialParse {
            term: Term::Empty,
            rest: ""
        }
    );
}

#[test]
fn skip_whitespace_idempotent_example() {
    let once = skip_whitespace(" \t\n abc ");
    let twice = skip_whitespace(once);
    assert_eq!(once, "abc ");
    assert_eq!(twice, once);
}

#[test]
fn skip_whitespace_empty_input() {
    assert_eq!(skip_whitespace(""), "");
}

#[test]
fn skip_whitespace_all_whitespace() {
    assert_eq!(skip_whitespace(" \t\n"), "");
}

#[test]
fn skip_whitespace_no_whitespace() {
    assert_eq!(skip_whitespace("abc "), "abc ");
}

#[test]
fn parse_nil_failure() {
    let result = parse_nil("xyz");
    match result {
        Err(ParseError::Generic { msg }) => assert_eq!(msg, "not a nil"),
        Ok(_) => panic!("xyz is not a nil"),
    }
}

#[test]
fn parse_nil_skips_leading_whitespace() {
    let result = parse_nil("  \tnil rest");
    assert_eq!(
        result.unwrap(),
        PartialParse {
            term: Term::Nil,
            rest: " rest"
        }
    );
}

#[test]
fn parse_bool_true() {
    let result = parse_bool(" true x");
    assert_eq!(
        result.unwrap(),
        PartialParse {
            term: Term::Boolean { b: true },
            rest: " x"
        }
    );
}

#[test]
fn parse_bool_false() {
    let result = parse_bool("false");
    assert_eq!(
        result.unwrap(),
        PartialParse {
            term: Term::Boolean { b: false },
            rest: ""
        }
    );
}

#[test]
fn parse_bool_failure() {
    let result = parse_bool("nil");
    match result {
        Err(ParseError::Generic { msg }) => assert_eq!(msg, "not a boolean"),
        Ok(_) => panic!("nil is not a boolean"),
    }
}

#[test]
fn either_takes_first_branch() {
    let p = either(skip_one_of("a"), skip_one_of("b"));
    assert_eq!(
        p.apply("ac").unwrap(),
        PartialParse {
            term: Term::Empty,
            rest: "c"
        }
    );
}

#[test]
fn either_retries_second_branch_on_pristine_input() {
    let p = either(skip_one_of("a"), skip_one_of("b"));
    assert_eq!(
        p.apply("bc").unwrap(),
        PartialParse {
            term: Term::Empty,
            rest: "c"
        }
    );
}

#[test]
fn either_over_literal_parsers() {
    let p = either(NilParser, BoolParser);
    assert_eq!(
        p.apply(" nil").unwrap(),
        PartialParse {
            term: Term::Nil,
            rest: ""
        }
    );
    assert_eq!(
        p.apply("true").unwrap(),
        PartialParse {
            term: Term::Boolean { b: true },
            rest: ""
        }
    );
}

#[test]
fn sequence_assembles_a_pair() {
    let p = sequence(NilParser, BoolParser);
    assert_eq!(
        p.apply("nil true!").unwrap(),
        PartialParse {
            term: Term::Cons {
                car: Box::new(Term::Nil),
                cdr: Box::new(Term::Boolean { b: true })
            },
            rest: "!"
        }
    );
}

#[test]
fn sequence_propagates_the_failing_branch() {
    let p = sequence(NilParser, NilParser);
    match p.apply("nil x") {
        Err(ParseError::Generic { msg }) => assert_eq!(msg, "not a nil"),
        Ok(_) => panic!("the second branch must fail"),
    }
}

#[test]
fn parse_reads_nil() {
    assert_eq!(parse("  nil"), Ok(Term::Nil));
}

#[test]
fn parse_reads_booleans() {
    assert_eq!(parse("true"), Ok(Term::Boolean { b: true }));
    assert_eq!(parse(" false "), Ok(Term::Boolean { b: false }));
}

#[test]
fn parse_rejects_unknown_input() {
    match parse("xyz") {
        Err(ParseError::Generic { msg }) => assert_eq!(msg, "no term matched"),
        Ok(_) => panic!("xyz is no term"),
    }
}
