use duet::duet::DuetEvent;
use duet::duet::DuetPlayingProgram;
use duet::parse::InstructionLine;
use duet::parse::parse_instruction;

fn program(lines: &[&str]) -> Vec<InstructionLine> {
    lines.iter().map(|l| parse_instruction(l).unwrap()).collect()
}

const FUEL: u64 = 100000;

/// Drive two instances round-robin until both are done or both are starved
/// on a receive; return what each reported (its sent count), mirroring the
/// timeout-based termination of the running system deterministically.
fn drive_pair(prog: &Vec<InstructionLine>) -> (i64, i64) {
    let mut p0 = DuetPlayingProgram::new(prog, 0);
    let mut p1 = DuetPlayingProgram::new(prog, 1);
    let mut inbox0: Vec<i64> = Vec::new();
    let mut inbox1: Vec<i64> = Vec::new();
    let mut done0: Option<i64> = None;
    let mut done1: Option<i64> = None;
    loop {
        let mut moved = false;
        while done0.is_none() {
            match p0.next(FUEL) {
                DuetEvent::Sent(v) => {
                    inbox1.push(v);
                    moved = true;
                }
                DuetEvent::AwaitingInput => {
                    if inbox0.is_empty() {
                        break;
                    }
                    p0.receive(inbox0.remove(0));
                    moved = true;
                }
                DuetEvent::Finished(s) => {
                    done0 = Some(s);
                    moved = true;
                }
                DuetEvent::OutOfFuel => {}
                DuetEvent::Fault => panic!("instance 0 faulted"),
            }
        }
        while done1.is_none() {
            match p1.next(FUEL) {
                DuetEvent::Sent(v) => {
                    inbox0.push(v);
                    moved = true;
                }
                DuetEvent::AwaitingInput => {
                    if inbox1.is_empty() {
                        break;
                    }
                    p1.receive(inbox1.remove(0));
                    moved = true;
                }
                DuetEvent::Finished(s) => {
                    done1 = Some(s);
                    moved = true;
                }
                DuetEvent::OutOfFuel => {}
                DuetEvent::Fault => panic!("instance 1 faulted"),
            }
        }
        if done0.is_some() && done1.is_some() {
            break;
        }
        if !moved {
            // Mutual starvation: what the receive timeout resolves at run
            // time. Each side reports its current sent count.
            break;
        }
    }
    (
        done0.unwrap_or_else(|| p0.sent_count()),
        done1.unwrap_or_else(|| p1.sent_count()),
    )
}

#[test]
fn classic_duet_example_second_instance_sends_three() {
    let prog = program(&["snd 1", "snd 2", "snd p", "rcv a", "rcv b", "rcv c", "rcv d"]);
    let (s0, s1) = drive_pair(&prog);
    assert_eq!(s0, 3);
    assert_eq!(s1, 3);
}

#[test]
fn finishing_by_range_exit_reports_exact_send_count() {
    let prog = program(&["snd 1", "snd 2"]);
    let mut p1 = DuetPlayingProgram::new(&prog, 1);
    assert_eq!(p1.next(FUEL), DuetEvent::Sent(1));
    assert_eq!(p1.next(FUEL), DuetEvent::Sent(2));
    assert_eq!(p1.next(FUEL), DuetEvent::Finished(2));
    assert_eq!(p1.sent_count(), 2);
}

#[test]
fn seed_register_p_distinguishes_instances() {
    let prog = program(&["snd p"]);
    let mut p0 = DuetPlayingProgram::new(&prog, 0);
    let mut p1 = DuetPlayingProgram::new(&prog, 1);
    assert_eq!(p0.next(FUEL), DuetEvent::Sent(0));
    assert_eq!(p1.next(FUEL), DuetEvent::Sent(1));
}

#[test]
fn receive_stores_the_delivered_value() {
    let prog = program(&["rcv x", "snd x"]);
    let mut p = DuetPlayingProgram::new(&prog, 0);
    assert_eq!(p.next(FUEL), DuetEvent::AwaitingInput);
    assert!(p.awaiting_input());
    p.receive(42);
    assert!(!p.awaiting_input());
    assert_eq!(p.next(FUEL), DuetEvent::Sent(42));
    assert_eq!(p.next(FUEL), DuetEvent::Finished(1));
}

#[test]
fn receive_on_digit_register_still_sends_digit() {
    // `snd 5` reads the digit, not the register written by `rcv 5`.
    let prog = program(&["rcv 5", "snd 5"]);
    let mut p = DuetPlayingProgram::new(&prog, 0);
    assert_eq!(p.next(FUEL), DuetEvent::AwaitingInput);
    p.receive(99);
    assert_eq!(p.next(FUEL), DuetEvent::Sent(5));
}

#[test]
fn duet_arithmetic_overflow_faults() {
    let prog = program(&["set a 9223372036854775807", "add a 1"]);
    let mut p = DuetPlayingProgram::new(&prog, 0);
    assert_eq!(p.next(FUEL), DuetEvent::Fault);
}

#[test]
fn out_of_fuel_resumes_where_it_stopped() {
    let prog = program(&["jgz 1 0"]);
    let mut p = DuetPlayingProgram::new(&prog, 0);
    assert_eq!(p.next(10), DuetEvent::OutOfFuel);
    assert_eq!(p.next(10), DuetEvent::OutOfFuel);
}

#[test]
fn deaf_counterpart_times_out_with_counts() {
    // Instance sends once, then waits forever: the driver's starvation path
    // (the timeout in the running system) reports the counts sent so far.
    let prog = program(&["snd p", "rcv a", "rcv b"]);
    let (s0, s1) = drive_pair(&prog);
    assert_eq!(s0, 1);
    assert_eq!(s1, 1);
}
