//! Laws of the cycle engine, stated and proved once over the mathematical
//! step function that every call of `Lmc::cycle` is proved to follow.

use vstd::prelude::*;

use crate::machine::step_spec;
use crate::machine::HaltReason;
use crate::machine::LmcV;
use crate::machine::Step;
use crate::values::clamp_word;

verus! {

/// Accumulator arithmetic saturates: an addition driving the accumulator
/// above 999 yields exactly 999, a subtraction driving it below -999 yields
/// exactly -999, and a result within the word range is exact.
pub proof fn lemma_arithmetic_saturates(s: LmcV, input: Option<int>)
    requires
        s.runnable(),
        100 <= s.mem[s.pc] <= 299,
    ensures
        ({
            let instr = s.mem[s.pc];
            let m = s.mem[instr % 100];
            let raw = if instr / 100 == 1 {
                s.acc + m
            } else {
                s.acc - m
            };
            let acc2 = step_spec(s, input).0.acc;
            acc2 == clamp_word(raw) && (raw > 999 ==> acc2 == 999) && (raw < -999 ==> acc2 == -999)
                && (-999 <= raw <= 999 ==> acc2 == raw)
        }),
{
}

/// The branch opcodes set the program counter to the operand's two-digit
/// value exactly when their condition holds — always for an unconditional
/// branch, on a zero accumulator for branch-if-zero, on a non-negative one
/// for branch-if-positive — and otherwise leave the pre-incremented counter
/// unchanged; they touch nothing else.
pub proof fn lemma_branch_sets_pc(s: LmcV, input: Option<int>)
    requires
        s.runnable(),
        600 <= s.mem[s.pc] <= 899,
    ensures
        ({
            let instr = s.mem[s.pc];
            let op = instr / 100;
            let taken = op == 6 || (op == 7 && s.acc == 0) || (op == 8 && s.acc >= 0);
            let s2 = step_spec(s, input).0;
            s2.pc == (if taken {
                instr % 100
            } else {
                s.pc + 1
            }) && s2.acc == s.acc && s2.mem == s.mem && s2.out == s.out
        }),
{
}

/// The halt opcode (leading digit 0, any operand) halts with the halt
/// diagnostic at the address immediately after the halt cell, advancing the
/// program counter there and touching nothing else.
pub proof fn lemma_halt_command(s: LmcV, input: Option<int>)
    requires
        s.runnable(),
        0 <= s.mem[s.pc] <= 99,
    ensures
        step_spec(s, input).1 == (Step::Halted { at: s.pc + 1, reason: HaltReason::HaltCommand }),
        step_spec(s, input).0 == (LmcV { pc: s.pc + 1, ..s }),
{
}

/// A non-branch instruction that succeeds at the last memory cell leaves the
/// incremented program counter past the end of memory, and the machine halts
/// with the out-of-instructions diagnostic even though the instruction
/// itself completed.
pub proof fn lemma_runs_off_end(s: LmcV, input: Option<int>)
    requires
        s.runnable(),
        s.pc == 99,
        ({
            let instr = s.mem[s.pc];
            let op = instr / 100;
            let arg = instr % 100;
            instr >= 0 && (op == 1 || op == 2 || op == 3 || op == 5 || (op == 9 && ((arg == 1
                && input is Some) || arg == 2 || arg == 22)))
        }),
    ensures
        step_spec(s, input).1 == (Step::Halted {
            at: 100,
            reason: HaltReason::NoMoreInstructions,
        }),
        step_spec(s, input).0.pc == 100,
{
}

/// A negative word fetched as an instruction halts at once with the negative
/// instruction diagnostic, mutating neither the accumulator nor memory nor
/// the output record.
pub proof fn lemma_negative_instruction(s: LmcV, input: Option<int>)
    requires
        s.runnable(),
        s.mem[s.pc] < 0,
    ensures
        step_spec(s, input).1 == (Step::Halted {
            at: s.pc + 1,
            reason: HaltReason::NegativeInstruction,
        }),
        step_spec(s, input).0 == (LmcV { pc: s.pc + 1, ..s }),
{
}

/// The output record is append-only: whatever one cycle does, the output
/// before it stays as a prefix, and only the two output opcodes extend it.
pub proof fn lemma_output_append_only(s: LmcV, input: Option<int>)
    requires
        s.runnable(),
    ensures
        s.out.is_prefix_of(step_spec(s, input).0.out),
{
    let out2 = step_spec(s, input).0.out;
    assert(s.out =~= out2.subrange(0, s.out.len() as int));
}

} // verus!
