use duet::parse::Command;
use duet::parse::InstructionLine;
use duet::parse::get_instruction;
use duet::parse::parse_instruction;
use duet::parse::parse_program;

#[test]
fn parse_three_token_line() {
    let ins = parse_instruction("set a 1").unwrap();
    assert_eq!(
        ins,
        InstructionLine { command: Command::Assign, register: 'a', value: (Some(1), '1') }
    );
}

#[test]
fn parse_two_token_line() {
    let ins = parse_instruction("snd a").unwrap();
    assert_eq!(ins, InstructionLine { command: Command::Snd, register: 'a', value: (None, ' ') });
}

#[test]
fn parse_every_mnemonic() {
    assert_eq!(parse_instruction("snd a").unwrap().command, Command::Snd);
    assert_eq!(parse_instruction("set a 1").unwrap().command, Command::Assign);
    assert_eq!(parse_instruction("add a 1").unwrap().command, Command::Add);
    assert_eq!(parse_instruction("mul a 1").unwrap().command, Command::Mul);
    assert_eq!(parse_instruction("mod a 1").unwrap().command, Command::Mod);
    assert_eq!(parse_instruction("rcv a").unwrap().command, Command::Rcv);
    assert_eq!(parse_instruction("jgz a -1").unwrap().command, Command::Jgz);
}

#[test]
fn parse_unknown_mnemonic_is_fatal() {
    assert_eq!(parse_instruction("foo a 1"), None);
    assert_eq!(parse_instruction("sn a"), None);
    assert_eq!(parse_instruction("sndd a"), None);
}

#[test]
fn parse_too_few_tokens_is_fatal() {
    assert_eq!(parse_instruction(""), None);
    assert_eq!(parse_instruction("   "), None);
    assert_eq!(parse_instruction("snd"), None);
}

#[test]
fn parse_negative_and_signed_operands() {
    let ins = parse_instruction("jgz a -2").unwrap();
    assert_eq!(ins.value, (Some(-2), '-'));
    let ins = parse_instruction("add b +7").unwrap();
    assert_eq!(ins.value, (Some(7), '+'));
}

#[test]
fn parse_register_operand() {
    let ins = parse_instruction("set a b").unwrap();
    assert_eq!(ins.value, (None, 'b'));
}

#[test]
fn parse_sign_alone_is_register() {
    let ins = parse_instruction("set a -").unwrap();
    assert_eq!(ins.value, (None, '-'));
}

#[test]
fn parse_extra_spaces_are_dropped() {
    let a = parse_instruction("  set   a   1  ").unwrap();
    let b = parse_instruction("set a 1").unwrap();
    assert_eq!(a, b);
}

#[test]
fn parse_splits_on_any_whitespace() {
    let a = parse_instruction("set\ta\t1").unwrap();
    let b = parse_instruction("set a 1").unwrap();
    assert_eq!(a, b);
    let c = parse_instruction("\tjgz  a\t -1 ").unwrap();
    let d = parse_instruction("jgz a -1").unwrap();
    assert_eq!(c, d);
}

#[test]
fn parse_four_tokens_drops_operand() {
    let ins = parse_instruction("set a 1 2").unwrap();
    assert_eq!(ins.value, (None, ' '));
}

#[test]
fn parse_i64_boundaries() {
    let ins = parse_instruction("set a 9223372036854775807").unwrap();
    assert_eq!(ins.value, (Some(i64::MAX), '9'));
    let ins = parse_instruction("set a -9223372036854775808").unwrap();
    assert_eq!(ins.value, (Some(i64::MIN), '-'));
    let ins = parse_instruction("set a 9223372036854775808").unwrap();
    assert_eq!(ins.value, (None, '9'));
}

#[test]
fn single_digit_operand_is_its_own_value() {
    let ins = parse_instruction("set a 5").unwrap();
    assert_eq!(ins.value, (Some(5), '5'));
    for d in 0..10i64 {
        let line = format!("set a {}", d);
        let ins = parse_instruction(line.as_str()).unwrap();
        assert_eq!(ins.value.0, Some(d));
    }
}

#[test]
fn reparsing_the_same_lines_is_bit_identical() {
    let lines: Vec<String> = vec![
        "set a 1".to_string(),
        "add a 2".to_string(),
        "mul a a".to_string(),
        "jgz a -3".to_string(),
    ];
    let first = parse_program(&lines).unwrap();
    let second = parse_program(&lines).unwrap();
    assert_eq!(first, second);
}

#[test]
fn parse_program_fails_on_one_bad_line() {
    let lines: Vec<String> = vec!["set a 1".to_string(), "nop".to_string()];
    assert_eq!(parse_program(&lines), None);
}

#[test]
fn instruction_line_new_parses() {
    let ins = InstructionLine::new("mod b c".to_string());
    assert_eq!(ins.command, Command::Mod);
    assert_eq!(ins.register, 'b');
    assert_eq!(ins.value, (None, 'c'));
}

#[test]
fn get_instruction_maps_mnemonics() {
    assert_eq!(get_instruction("snd"), Command::Snd);
    assert_eq!(get_instruction("jgz"), Command::Jgz);
}
