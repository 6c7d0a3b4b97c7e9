use duet::parse::InstructionLine;
use duet::parse::parse_instruction;
use duet::standalone::StandaloneOutcome;
use duet::standalone::part1;

fn program(lines: &[&str]) -> Vec<InstructionLine> {
    lines.iter().map(|l| parse_instruction(l).unwrap()).collect()
}

#[test]
fn classic_reference_program_plays_four() {
    let prog = program(&[
        "set a 1",
        "add a 2",
        "mul a a",
        "mod a 5",
        "snd a",
        "snd a",
        "rcv a",
        "jgz a -1",
        "set a 1",
        "jgz a -2",
    ]);
    assert_eq!(part1(&prog, 100000), StandaloneOutcome::Received(4));
}

#[test]
fn receive_on_zero_register_never_halts() {
    let prog = program(&["snd a", "rcv a"]);
    assert_eq!(part1(&prog, 1000), StandaloneOutcome::RangeExit);
}

#[test]
fn receive_on_nonzero_register_halts_with_last_played() {
    let prog = program(&["set a 1", "snd a", "rcv a"]);
    assert_eq!(part1(&prog, 1000), StandaloneOutcome::Received(1));
}

#[test]
fn digit_register_reads_its_own_value() {
    let prog = program(&["set 5 7", "snd 5", "set a 1", "rcv a"]);
    assert_eq!(part1(&prog, 1000), StandaloneOutcome::Received(5));
}

#[test]
fn digit_operand_token_reads_its_own_value() {
    // "9z" parses as no integer, so the operand names register '9', which
    // the digit-literal rule fixes to 9 whatever was stored under it.
    let prog = program(&["set 9 55", "set a 9z", "snd a", "set b 1", "rcv b"]);
    assert_eq!(part1(&prog, 1000), StandaloneOutcome::Received(9));
}

#[test]
fn jgz_zero_operand_on_zero_register_falls_through() {
    let prog = program(&["jgz a 5"]);
    assert_eq!(part1(&prog, 1000), StandaloneOutcome::RangeExit);
}

#[test]
fn jgz_negative_register_falls_through() {
    let prog = program(&["set a -3", "jgz a -1"]);
    assert_eq!(part1(&prog, 1000), StandaloneOutcome::RangeExit);
}

#[test]
fn jgz_zero_operand_on_positive_register_spins() {
    let prog = program(&["jgz 1 0"]);
    assert_eq!(part1(&prog, 100), StandaloneOutcome::OutOfFuel);
}

#[test]
fn jump_far_out_of_range_exits_silently() {
    let prog = program(&["jgz 1 9000000000000000000"]);
    assert_eq!(part1(&prog, 1000), StandaloneOutcome::RangeExit);
}

#[test]
fn modulo_truncates_toward_zero() {
    let prog = program(&["set a 7", "mod a 5", "snd a", "set b 1", "rcv b"]);
    assert_eq!(part1(&prog, 1000), StandaloneOutcome::Received(2));
    let prog = program(&["set a -7", "mod a 5", "snd a", "set b 1", "rcv b"]);
    assert_eq!(part1(&prog, 1000), StandaloneOutcome::Received(-2));
}

#[test]
fn modulo_by_zero_faults() {
    let prog = program(&["set a 3", "mod a 0"]);
    assert_eq!(part1(&prog, 1000), StandaloneOutcome::Fault);
}

#[test]
fn addition_overflow_faults() {
    let prog = program(&["set a 9223372036854775807", "add a 1"]);
    assert_eq!(part1(&prog, 1000), StandaloneOutcome::Fault);
}

#[test]
fn multiplication_overflow_faults() {
    let prog = program(&["set a 9223372036854775807", "mul a 2"]);
    assert_eq!(part1(&prog, 1000), StandaloneOutcome::Fault);
}

#[test]
fn empty_program_exits_immediately() {
    let prog: Vec<InstructionLine> = Vec::new();
    assert_eq!(part1(&prog, 10), StandaloneOutcome::RangeExit);
}

#[test]
fn unread_register_defaults_to_zero() {
    let prog = program(&["add a 2", "snd a", "set b 1", "rcv b"]);
    assert_eq!(part1(&prog, 1000), StandaloneOutcome::Received(2));
}
