use lisp_parse::combinator::{kleene_star, skip_one_of, Parser};
use lisp_parse::parsers::{parse_nil, skip_whitespace};
use lisp_parse::term::{PartialParse, Term};

#[test]
fn successful_skip() {
    let result = skip_one_of("abc").apply("bgh");
    assert!(result.is_ok());
    assert_eq!(
        result.unwrap(),
        PartialParse {
            term: Term::Empty,
            rest: "gh"
        }
    );
}

#[test]
fn kleene_star_success() {
    let result = kleene_star(skip_one_of("abc")).apply("ababccefg");
    assert!(result.is_ok());
    assert_eq!(
        result.unwrap(),
        PartialParse {
            term: Term::Empty,
            rest: "efg"
        }
    );
}

#[test]
fn kleene_star_unchanged_when_no_matches() {
    let result = kleene_star(skip_one_of("abc")).apply("ezefg");
    assert!(result.is_ok());
    assert_eq!(
        result.unwrap(),
        PartialParse {
            term: Term::Empty,
            rest: "ezefg"
        }
    );
}

#[test]
fn success() {
    let result = skip_whitespace("   abc");
    assert_eq!(result, "abc");
}

#[test]
fn parse_nil_success() {
    let result = parse_nil("nil ");
    assert_eq!(result.is_ok(), true);
    assert_eq!(
        result.unwrap(),
        PartialParse {
            term: Term::Nil,
            rest: " "
        }
    );
}
