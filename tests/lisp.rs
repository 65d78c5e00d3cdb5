use majin::lisp::{
    parse, parse_atom, parse_element, parse_nat, parse_scalar, parse_sexpr, Element, ParseError,
    ParseErrorKind, Scalar,
};

fn atom(s: &str) -> Element {
    Element::Scalar(Scalar::Atom(String::from(s)))
}

fn number(n: u32) -> Element {
    Element::Scalar(Scalar::Nat(n))
}

fn err(kind: ParseErrorKind, remaining: usize) -> ParseError {
    ParseError { kind, remaining }
}

#[test]
fn test_parse_nat() {
    assert_eq!(parse_nat("12 "), Ok((" ", Scalar::Nat(12))));
}

#[test]
fn test_parse_atom() {
    assert_eq!(
        parse_atom("atom"),
        Ok(("", Scalar::Atom("atom".to_string())))
    );
}

#[test]
fn test_parse_scalar() {
    assert_eq!(
        parse_scalar("12"),
        Ok(("", Element::Scalar(Scalar::Nat(12))))
    );

    assert_eq!(
        parse_scalar("atom1 )"),
        Ok((" )", Element::Scalar(Scalar::Atom(String::from("atom1")))))
    );

    assert_eq!(
        parse_scalar("atom1 ("),
        Ok((" (", Element::Scalar(Scalar::Atom(String::from("atom1")))))
    );

    // a scalar followed by whitespace that is consumed too
    let (rest, e) = parse_scalar("atom1 (").unwrap();
    let (rest, _) = nom::character::complete::multispace0::<&str, nom::error::Error<&str>>(rest)
        .unwrap();
    assert_eq!(
        Ok::<_, ParseError>((rest, e)),
        Ok(("(", Element::Scalar(Scalar::Atom(String::from("atom1")))))
    );

    // an opening parenthesis, then a scalar
    let (rest, _) = nom::bytes::complete::tag::<&str, &str, nom::error::Error<&str>>("(")(
        "( atom1 )",
    )
    .unwrap();
    assert_eq!(
        parse_scalar(rest),
        Ok((" )", Element::Scalar(Scalar::Atom(String::from("atom1")))))
    );
}

#[test]
fn test_parse_element() {
    assert_eq!(
        parse_element("atom1"),
        Ok(("", Element::Scalar(Scalar::Atom(String::from("atom1")))))
    );

    assert_eq!(
        parse_element("atom1 )"),
        Ok((" )", Element::Scalar(Scalar::Atom(String::from("atom1")))))
    );

    assert_eq!(
        parse_element("(atom1)"),
        Ok((
            "",
            Element::Sexpr(vec![Element::Scalar(Scalar::Atom(String::from("atom1")))])
        ))
    );

    assert_eq!(
        parse_element("( atom1 atom2 )"),
        Ok((
            "",
            Element::Sexpr(vec![
                Element::Scalar(Scalar::Atom(String::from("atom1"))),
                Element::Scalar(Scalar::Atom(String::from("atom2")))
            ])
        ))
    );

    assert_eq!(
        parse_element("( atom1 (atom2) )"),
        Ok((
            "",
            Element::Sexpr(vec![
                Element::Scalar(Scalar::Atom(String::from("atom1"))),
                Element::Sexpr(vec![Element::Scalar(Scalar::Atom(String::from("atom2")))])
            ])
        ))
    );

    assert_eq!(
        parse_element("( atom1 ((atom2) ( atom3 atom4 )) )"),
        Ok((
            "",
            Element::Sexpr(vec![
                Element::Scalar(Scalar::Atom(String::from("atom1"))),
                Element::Sexpr(vec![
                    Element::Sexpr(vec![Element::Scalar(Scalar::Atom(String::from("atom2")))]),
                    Element::Sexpr(vec![
                        Element::Scalar(Scalar::Atom(String::from("atom3"))),
                        Element::Scalar(Scalar::Atom(String::from("atom4")))
                    ])
                ])
            ])
        ))
    );
}

#[test]
fn digit_strings_parse_to_their_value() {
    assert_eq!(parse_nat("0"), Ok(("", Scalar::Nat(0))));
    assert_eq!(parse_nat("007"), Ok(("", Scalar::Nat(7))));
    assert_eq!(parse_nat("4294967295"), Ok(("", Scalar::Nat(4294967295))));
    assert_eq!(parse_nat("123abc"), Ok(("abc", Scalar::Nat(123))));
}

#[test]
fn numeric_overflow_is_an_error() {
    assert_eq!(parse_nat("4294967296"), Err(err(ParseErrorKind::NumericOverflow, 10)));
    assert_eq!(
        parse_scalar("  99999999999999999999 x"),
        Err(err(ParseErrorKind::NumericOverflow, 22))
    );
    assert_eq!(
        parse_element("(a 99999999999)"),
        Err(err(ParseErrorKind::NumericOverflow, 12))
    );
}

#[test]
fn non_alphanumeric_start_is_rejected() {
    for s in ["(", ")", "-1", " 1", "+"] {
        let n = s.chars().count();
        assert_eq!(parse_nat(s), Err(err(ParseErrorKind::UnexpectedToken, n)));
        assert_eq!(parse_atom(s), Err(err(ParseErrorKind::UnexpectedToken, n)));
    }
    assert_eq!(parse_nat(""), Err(err(ParseErrorKind::EmptyInput, 0)));
    assert_eq!(parse_atom(""), Err(err(ParseErrorKind::EmptyInput, 0)));
    assert_eq!(parse_scalar("   "), Err(err(ParseErrorKind::EmptyInput, 0)));
    assert_eq!(parse_scalar(" ) "), Err(err(ParseErrorKind::UnexpectedToken, 2)));
}

#[test]
fn reparsing_the_remainder_matches_a_fresh_parse() {
    let (rest, first) = parse_element("(a b) c 12").unwrap();
    assert_eq!(first, Element::Sexpr(vec![atom("a"), atom("b")]));
    assert_eq!(rest, " c 12");
    assert_eq!(parse_element(rest), parse_element(" c 12"));
    let (rest, second) = parse_element(rest).unwrap();
    assert_eq!(second, atom("c"));
    assert_eq!(parse_element(rest), Ok(("", number(12))));
    let (rest, _) = parse_nat("12 34").unwrap();
    assert_eq!(parse_nat(rest), Err(err(ParseErrorKind::UnexpectedToken, 3)));
}

#[test]
fn empty_list() {
    assert_eq!(parse_sexpr("()"), Ok(("", Element::Sexpr(vec![]))));
}

#[test]
fn list_of_two_atoms() {
    assert_eq!(
        parse_sexpr("(atom1 atom2)"),
        Ok(("", Element::Sexpr(vec![atom("atom1"), atom("atom2")])))
    );
}

#[test]
fn nested_list_with_number() {
    assert_eq!(
        parse_element("(a (b c) 12)"),
        Ok((
            "",
            Element::Sexpr(vec![
                atom("a"),
                Element::Sexpr(vec![atom("b"), atom("c")]),
                number(12)
            ])
        ))
    );
}

#[test]
fn unmatched_open_paren() {
    assert_eq!(parse_sexpr("(a"), Err(err(ParseErrorKind::UnmatchedOpenParen, 0)));
    assert_eq!(parse_sexpr("((a)"), Err(err(ParseErrorKind::UnmatchedOpenParen, 0)));
    assert_eq!(parse_sexpr("((a"), Err(err(ParseErrorKind::UnmatchedOpenParen, 0)));
    assert_eq!(parse_sexpr("( "), Err(err(ParseErrorKind::UnmatchedOpenParen, 0)));
}

#[test]
fn unexpected_tokens() {
    assert_eq!(parse_sexpr("(a ]"), Err(err(ParseErrorKind::UnexpectedToken, 1)));
    assert_eq!(parse_sexpr("a"), Err(err(ParseErrorKind::UnexpectedToken, 1)));
    assert_eq!(parse_element(")"), Err(err(ParseErrorKind::UnexpectedToken, 1)));
    assert_eq!(parse_element("  "), Err(err(ParseErrorKind::EmptyInput, 0)));
}

#[test]
fn numbers_take_priority_over_atoms() {
    assert_eq!(parse_scalar("12"), Ok(("", number(12))));
    assert_eq!(parse_scalar("12ab"), Ok(("ab", number(12))));
    assert_eq!(parse_scalar("ab12"), Ok(("", atom("ab12"))));
}

#[test]
fn deep_nesting() {
    let n = 1000;
    let text = format!("{}{}", "(".repeat(n), ")".repeat(n));
    let (rest, mut e) = parse_element(&text).unwrap();
    assert_eq!(rest, "");
    let mut depth = 0;
    loop {
        match e {
            Element::Sexpr(mut v) => {
                depth += 1;
                if v.is_empty() {
                    break;
                }
                assert_eq!(v.len(), 1);
                e = v.pop().unwrap();
            }
            Element::Scalar(_) => panic!("a scalar in a nest of lists"),
        }
    }
    assert_eq!(depth, n);
}

#[test]
fn whitespace_does_not_change_the_tree() {
    let spaced = parse_sexpr("(  atom1   atom2  )").unwrap();
    let tight = parse_sexpr("(atom1 atom2)").unwrap();
    assert_eq!(spaced, tight);
    assert_eq!(
        parse_sexpr("\t(\na\r\n(b)\t)"),
        Ok(("", Element::Sexpr(vec![atom("a"), Element::Sexpr(vec![atom("b")])])))
    );
}

#[test]
fn whole_documents() {
    assert_eq!(parse(" (a 1) \n"), Ok(Element::Sexpr(vec![atom("a"), number(1)])));
    assert_eq!(parse("(a) b"), Err(err(ParseErrorKind::TrailingInput, 1)));
    assert_eq!(parse(""), Err(err(ParseErrorKind::EmptyInput, 0)));
    assert_eq!(parse("(a"), Err(err(ParseErrorKind::UnmatchedOpenParen, 0)));
}
