use s3plot::compile::compile;
use s3plot::error::ErrorKind;

fn names(list: &[&str]) -> Vec<Vec<u8>> {
    let mut v: Vec<Vec<u8>> = list.iter().map(|n| n.as_bytes().to_vec()).collect();
    v.push(b"time".to_vec());
    v
}

fn kind_of(src: &str) -> ErrorKind {
    let table = names(&["P_fl", "t"]);
    compile(src, &table).err().expect("must fail").kind
}

#[test]
fn accepts_well_formed_expressions() {
    let table = names(&["P_fl", "t"]);
    for src in [
        "time",
        "P_fl",
        "sin(t / PI) * sqrt(abs(P_fl))",
        "cos(time / PI - PI) * 10.0",
        "min(1, max(2, 3))",
        "-t ^ 2 + 1e-3",
        "((((t))))",
    ] {
        assert!(compile(src, &table).is_ok(), "{src}");
    }
}

#[test]
fn rejects_invalid_character() {
    assert_eq!(kind_of("t $ 2"), ErrorKind::InvalidChar);
}

#[test]
fn rejects_bad_number() {
    assert_eq!(kind_of("1e+"), ErrorKind::BadNumber);
}

#[test]
fn rejects_unknown_identifier() {
    assert_eq!(kind_of("P_fl + typo"), ErrorKind::UnknownIdent);
}

#[test]
fn rejects_unknown_function() {
    assert_eq!(kind_of("typo(1)"), ErrorKind::UnknownFun);
}

#[test]
fn rejects_wrong_argument_count() {
    assert_eq!(kind_of("sin(1, 2)"), ErrorKind::WrongArgCount);
    assert_eq!(kind_of("min(1)"), ErrorKind::WrongArgCount);
}

#[test]
fn rejects_missing_operand() {
    assert_eq!(kind_of("t +"), ErrorKind::ExpectedOperand);
    assert_eq!(kind_of("* 2"), ErrorKind::ExpectedOperand);
}

#[test]
fn rejects_unclosed_parenthesis() {
    assert_eq!(kind_of("(1 + 2"), ErrorKind::ExpectedParen);
    assert_eq!(kind_of("sin(1"), ErrorKind::ExpectedParen);
}

#[test]
fn rejects_trailing_input() {
    assert_eq!(kind_of("1 2"), ErrorKind::TrailingToken);
}

#[test]
fn rejects_empty_expression() {
    assert_eq!(kind_of(""), ErrorKind::EmptyExpr);
    assert_eq!(kind_of("   "), ErrorKind::EmptyExpr);
}

#[test]
fn error_spans_point_at_the_offence() {
    let table = names(&["t"]);
    let err = compile("t + oops", &table).err().expect("must fail");
    assert_eq!(err.kind, ErrorKind::UnknownIdent);
    assert_eq!(err.spans.len(), 1);
    assert_eq!(err.spans[0].start, 4);
    assert_eq!(err.spans[0].end, 8);
    assert_eq!(err.message(), "unknown variable");
}
