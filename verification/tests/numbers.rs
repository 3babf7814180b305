use lisp_parse::number::{parse_number, NumberParser};
use lisp_parse::combinator::Parser;
use lisp_parse::parsers::parse;
use lisp_parse::term::{ParseError, PartialParse, Term};

#[test]
fn parse_number_simple() {
    let result = parse_number("7");
    assert_eq!(
        result.unwrap(),
        PartialParse {
            term: Term::Number { v: 7 },
            rest: ""
        }
    );
}

#[test]
fn parse_number_stops_at_first_non_digit() {
    let result = parse_number(" 123abc");
    assert_eq!(
        result.unwrap(),
        PartialParse {
            term: Term::Number { v: 123 },
            rest: "abc"
        }
    );
}

#[test]
fn parse_number_negative() {
    let result = parse_number("-42x");
    assert_eq!(
        result.unwrap(),
        PartialParse {
            term: Term::Number { v: -42 },
            rest: "x"
        }
    );
}

#[test]
fn parse_number_leading_zeros() {
    let result = parse_number("007");
    assert_eq!(
        result.unwrap(),
        PartialParse {
            term: Term::Number { v: 7 },
            rest: ""
        }
    );
}

#[test]
fn parse_number_no_digits() {
    match parse_number("abc") {
        Err(ParseError::Generic { msg }) => assert_eq!(msg, "not a number"),
        Ok(_) => panic!("abc is not a number"),
    }
}

#[test]
fn parse_number_minus_without_digits() {
    match parse_number("-x") {
        Err(ParseError::Generic { msg }) => assert_eq!(msg, "not a number"),
        Ok(_) => panic!("a bare minus is not a number"),
    }
}

#[test]
fn parse_number_extreme_values() {
    assert_eq!(
        parse_number("2147483647").unwrap(),
        PartialParse {
            term: Term::Number { v: 2147483647 },
            rest: ""
        }
    );
    assert_eq!(
        parse_number("-2147483648").unwrap(),
        PartialParse {
            term: Term::Number { v: -2147483648 },
            rest: ""
        }
    );
}

#[test]
fn parse_number_out_of_range() {
    match parse_number("2147483648") {
        Err(ParseError::Generic { msg }) => assert_eq!(msg, "number out of range"),
        Ok(_) => panic!("the value does not fit"),
    }
    match parse_number("-2147483649") {
        Err(ParseError::Generic { msg }) => assert_eq!(msg, "number out of range"),
        Ok(_) => panic!("the value does not fit"),
    }
    match parse_number("999999999999999999999999") {
        Err(ParseError::Generic { msg }) => assert_eq!(msg, "number out of range"),
        Ok(_) => panic!("the value does not fit"),
    }
}

#[test]
fn number_parser_value() {
    let result = NumberParser.apply("\t-8)");
    assert_eq!(
        result.unwrap(),
        PartialParse {
            term: Term::Number { v: -8 },
            rest: ")"
        }
    );
}

#[test]
fn parse_reads_numbers() {
    assert_eq!(parse("  -31"), Ok(Term::Number { v: -31 }));
    assert_eq!(parse("0"), Ok(Term::Number { v: 0 }));
}
