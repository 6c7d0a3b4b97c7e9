use duet::day8::CompareOp;
use duet::day8::eval_compare;
use duet::day8::parse_line;

#[test]
fn parse_increment_line() {
    let l = parse_line("b inc 5 if a > 1").unwrap();
    assert_eq!(l.register, "b");
    assert_eq!(l.instruction, 1);
    assert_eq!(l.amount, 5);
    assert_eq!(l.compare_register, "a");
    assert_eq!(l.compare_op, CompareOp::Greater);
    assert_eq!(l.compare_amount, 1);
}

#[test]
fn parse_decrement_line_with_negative_amount() {
    let l = parse_line("x dec -13 if qp <= 100").unwrap();
    assert_eq!(l.register, "x");
    assert_eq!(l.instruction, -1);
    assert_eq!(l.amount, -13);
    assert_eq!(l.compare_register, "qp");
    assert_eq!(l.compare_op, CompareOp::LessEq);
    assert_eq!(l.compare_amount, 100);
}

#[test]
fn parse_all_six_operators() {
    let ops = [
        ("<", CompareOp::Less),
        ("<=", CompareOp::LessEq),
        (">", CompareOp::Greater),
        (">=", CompareOp::GreaterEq),
        ("==", CompareOp::Equal),
        ("!=", CompareOp::NotEqual),
    ];
    for (tok, op) in ops.iter() {
        let line = format!("a inc 1 if b {} 2", tok);
        let l = parse_line(line.as_str()).unwrap();
        assert_eq!(l.compare_op, *op);
    }
}

#[test]
fn parse_bad_direction_is_fatal() {
    assert_eq!(parse_line("a bump 1 if b > 2"), None);
}

#[test]
fn parse_bad_operator_is_fatal() {
    assert_eq!(parse_line("a inc 1 if b <> 2"), None);
}

#[test]
fn parse_bad_amount_is_fatal() {
    assert_eq!(parse_line("a inc one if b > 2"), None);
    assert_eq!(parse_line("a inc 1 if b > two"), None);
    assert_eq!(parse_line("a inc 99999999999 if b > 2"), None);
}

#[test]
fn parse_short_line_is_fatal() {
    assert_eq!(parse_line("a inc 1"), None);
    assert_eq!(parse_line(""), None);
}

#[test]
fn tab_is_not_a_field_separator() {
    // The day-8 grammar splits on the space alone: a tab glues two words
    // into one field, which then names no direction.
    assert_eq!(parse_line("a\tinc 1 if b > 2"), None);
}

#[test]
fn parse_double_space_shifts_fields_and_fails() {
    // A doubled space makes an empty second field, which names no direction.
    assert_eq!(parse_line("a  inc 1 if b > 2"), None);
}

#[test]
fn compare_operators_evaluate() {
    assert!(eval_compare(CompareOp::Less, 1, 2));
    assert!(!eval_compare(CompareOp::Less, 2, 2));
    assert!(eval_compare(CompareOp::LessEq, 2, 2));
    assert!(!eval_compare(CompareOp::LessEq, 3, 2));
    assert!(eval_compare(CompareOp::Greater, 3, 2));
    assert!(!eval_compare(CompareOp::Greater, 2, 2));
    assert!(eval_compare(CompareOp::GreaterEq, 2, 2));
    assert!(!eval_compare(CompareOp::GreaterEq, 1, 2));
    assert!(eval_compare(CompareOp::Equal, 2, 2));
    assert!(!eval_compare(CompareOp::Equal, 1, 2));
    assert!(eval_compare(CompareOp::NotEqual, 1, 2));
    assert!(!eval_compare(CompareOp::NotEqual, 2, 2));
}

#[test]
fn parse_i32_boundaries() {
    let l = parse_line("a inc 2147483647 if b > -2147483648").unwrap();
    assert_eq!(l.amount, i32::MAX);
    assert_eq!(l.compare_amount, i32::MIN);
    assert_eq!(parse_line("a inc 2147483648 if b > 0"), None);
}
