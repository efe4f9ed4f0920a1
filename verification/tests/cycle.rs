//! One cycle at a time: every opcode, every halting condition.

use lmc::machine::HaltReason;
use lmc::machine::Lmc;
use lmc::machine::LmcResult;
use lmc::values::D2;
use lmc::values::D3;

fn machine(pc: u8, acc: i16, cells: &[(usize, i16)]) -> Lmc {
    let mut mem = vec![D3::new(0); 100];
    for &(k, v) in cells {
        mem[k] = D3::new(v);
    }
    Lmc::new(D2::new(pc), D3::new(acc), mem)
}

fn expect_halt(r: LmcResult, at: u8, reason: HaltReason) {
    match r {
        LmcResult::Error(a, why) => {
            assert_eq!(a.value, at);
            assert_eq!(why, reason);
        }
        _ => panic!("expected a halt"),
    }
}

#[test]
fn add_saturates_above_999() {
    let mut m = machine(0, 998, &[(0, 101), (1, 5)]);
    assert!(matches!(m.cycle(None), LmcResult::Success));
    assert_eq!(m.acc.value, 999);
    assert_eq!(m.pc.value, 1);
}

#[test]
fn add_within_range_is_exact() {
    let mut m = machine(0, -40, &[(0, 101), (1, 55)]);
    assert!(matches!(m.cycle(None), LmcResult::Success));
    assert_eq!(m.acc.value, 15);
}

#[test]
fn add_saturates_below_minus_999() {
    let mut m = machine(0, -998, &[(0, 101), (1, -5)]);
    assert!(matches!(m.cycle(None), LmcResult::Success));
    assert_eq!(m.acc.value, -999);
}

#[test]
fn sub_saturates_below_minus_999() {
    let mut m = machine(0, -998, &[(0, 201), (1, 5)]);
    assert!(matches!(m.cycle(None), LmcResult::Success));
    assert_eq!(m.acc.value, -999);
}

#[test]
fn sub_saturates_above_999() {
    let mut m = machine(0, 998, &[(0, 201), (1, -5)]);
    assert!(matches!(m.cycle(None), LmcResult::Success));
    assert_eq!(m.acc.value, 999);
}

#[test]
fn sub_within_range_is_exact() {
    let mut m = machine(0, 10, &[(0, 201), (1, 25)]);
    assert!(matches!(m.cycle(None), LmcResult::Success));
    assert_eq!(m.acc.value, -15);
}

#[test]
fn opcode_3_stores_accumulator() {
    let mut m = machine(0, 42, &[(0, 305)]);
    assert!(matches!(m.cycle(None), LmcResult::Success));
    assert_eq!(m.mem[5].value, 42);
    assert_eq!(m.acc.value, 42);
}

#[test]
fn opcode_5_loads_into_accumulator() {
    let mut m = machine(0, 0, &[(0, 507), (7, -13)]);
    assert!(matches!(m.cycle(None), LmcResult::Success));
    assert_eq!(m.acc.value, -13);
    assert_eq!(m.mem[7].value, -13);
}

#[test]
fn bra_always_jumps() {
    let mut m = machine(0, -1, &[(0, 642)]);
    assert!(matches!(m.cycle(None), LmcResult::Success));
    assert_eq!(m.pc.value, 42);
}

#[test]
fn brz_jumps_on_zero() {
    let mut m = machine(0, 0, &[(0, 742)]);
    assert!(matches!(m.cycle(None), LmcResult::Success));
    assert_eq!(m.pc.value, 42);
}

#[test]
fn brz_keeps_incremented_pc_on_nonzero() {
    let mut m = machine(0, 3, &[(0, 742)]);
    assert!(matches!(m.cycle(None), LmcResult::Success));
    assert_eq!(m.pc.value, 1);
}

#[test]
fn brp_jumps_on_zero_and_positive() {
    let mut m = machine(0, 0, &[(0, 842)]);
    assert!(matches!(m.cycle(None), LmcResult::Success));
    assert_eq!(m.pc.value, 42);
    let mut p = machine(0, 7, &[(0, 842)]);
    assert!(matches!(p.cycle(None), LmcResult::Success));
    assert_eq!(p.pc.value, 42);
}

#[test]
fn brp_keeps_incremented_pc_on_negative() {
    let mut m = machine(0, -7, &[(0, 842)]);
    assert!(matches!(m.cycle(None), LmcResult::Success));
    assert_eq!(m.pc.value, 1);
}

#[test]
fn halt_reports_address_after_the_halt_cell() {
    let mut m = machine(5, 0, &[(5, 17)]);
    expect_halt(m.cycle(None), 6, HaltReason::HaltCommand);
    assert_eq!(m.pc.value, 6);
}

#[test]
fn halt_message_text() {
    assert_eq!(HaltReason::HaltCommand.message(), "Halt command executed.");
    assert_eq!(HaltReason::BadInstruction.message(), "Bad instruction.");
    assert_eq!(HaltReason::NegativeInstruction.message(), "Negative instruction...?");
    assert_eq!(HaltReason::NoMoreInstructions.message(), "No more instructions.");
}

#[test]
fn unknown_opcode_is_a_bad_instruction() {
    let mut m = machine(0, 0, &[(0, 400)]);
    expect_halt(m.cycle(None), 1, HaltReason::BadInstruction);
}

#[test]
fn unknown_io_operand_is_a_bad_instruction() {
    let mut m = machine(0, 0, &[(0, 903)]);
    expect_halt(m.cycle(None), 1, HaltReason::BadInstruction);
}

#[test]
fn negative_word_is_a_negative_instruction() {
    let mut m = machine(0, 37, &[(0, -1), (1, 11)]);
    expect_halt(m.cycle(None), 1, HaltReason::NegativeInstruction);
    assert_eq!(m.acc.value, 37);
    assert_eq!(m.mem[0].value, -1);
    assert_eq!(m.mem[1].value, 11);
    assert_eq!(m.out, Vec::<char>::new());
}

#[test]
fn running_off_the_end_halts() {
    let mut m = machine(99, 0, &[(99, 101)]);
    expect_halt(m.cycle(None), 100, HaltReason::NoMoreInstructions);
}

#[test]
fn branch_from_the_last_cell_continues() {
    let mut m = machine(99, 0, &[(99, 600)]);
    assert!(matches!(m.cycle(None), LmcResult::Success));
    assert_eq!(m.pc.value, 0);
}

#[test]
fn inp_without_input_asks_and_changes_nothing() {
    let mut m = machine(0, 37, &[(0, 901)]);
    assert!(matches!(m.cycle(None), LmcResult::NeedInput));
    assert_eq!(m.pc.value, 0);
    assert_eq!(m.acc.value, 37);
}

#[test]
fn inp_with_input_fills_the_accumulator() {
    let mut m = machine(0, 0, &[(0, 901)]);
    assert!(matches!(m.cycle(Some(-5)), LmcResult::Success));
    assert_eq!(m.acc.value, -5);
    assert_eq!(m.pc.value, 1);
}

#[test]
fn out_appends_decimal_text_and_separator() {
    let mut m = machine(0, 5, &[(0, 902)]);
    assert!(matches!(m.cycle(None), LmcResult::Success));
    assert_eq!(m.out, vec!['5', ' ']);
}

#[test]
fn out_writes_negative_values_signed() {
    let mut m = machine(0, -42, &[(0, 902)]);
    assert!(matches!(m.cycle(None), LmcResult::Success));
    assert_eq!(m.out, vec!['-', '4', '2', ' ']);
}

#[test]
fn out_accumulates_across_cycles() {
    let mut m = machine(0, 307, &[(0, 902), (1, 902)]);
    assert!(matches!(m.cycle(None), LmcResult::Success));
    assert!(matches!(m.cycle(None), LmcResult::Success));
    assert_eq!(m.out, vec!['3', '0', '7', ' ', '3', '0', '7', ' ']);
}

#[test]
fn otc_appends_the_character_of_the_low_byte() {
    let mut m = machine(0, 72, &[(0, 922)]);
    assert!(matches!(m.cycle(None), LmcResult::Success));
    assert_eq!(m.out, vec!['H']);
}

#[test]
fn otc_truncates_negative_values_to_a_byte() {
    let mut m = machine(0, -191, &[(0, 922)]);
    assert!(matches!(m.cycle(None), LmcResult::Success));
    assert_eq!(m.out, vec!['A']);
}
