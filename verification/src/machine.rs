//! The machine state and the cycle engine: one fetch-decode-execute step per
//! call, with the exact per-opcode semantics written down as a mathematical
//! step function that every call is proved to follow.

use vstd::prelude::*;

use crate::values::clamp_word;
use crate::values::dec_str;
use crate::values::low_byte_char;
use crate::values::push_decimal;
use crate::values::word_in_range;
use crate::values::D2;
use crate::values::D3;

verus! {

/// Why a run ended.
#[derive(Copy, Clone, PartialEq, Eq, Structural, Debug)]
pub enum HaltReason {
    /// The halt opcode (leading digit 0) was executed.
    HaltCommand,
    /// The fetched word had an opcode/operand pair outside the instruction set.
    BadInstruction,
    /// The fetched word was negative, which no instruction is.
    NegativeInstruction,
    /// The program counter advanced past the last memory cell.
    NoMoreInstructions,
}

impl HaltReason {
    /// The human-readable diagnostic carried with the halt.
    pub open spec fn message_spec(self) -> Seq<char> {
        match self {
            HaltReason::HaltCommand => "Halt command executed."@,
            HaltReason::BadInstruction => "Bad instruction."@,
            HaltReason::NegativeInstruction => "Negative instruction...?"@,
            HaltReason::NoMoreInstructions => "No more instructions."@,
        }
    }

    /// The human-readable diagnostic carried with the halt.
    pub fn message(&self) -> (r: &'static str)
        ensures
            r@ == self.message_spec(),
    {
        match self {
            HaltReason::HaltCommand => "Halt command executed.",
            HaltReason::BadInstruction => "Bad instruction.",
            HaltReason::NegativeInstruction => "Negative instruction...?",
            HaltReason::NoMoreInstructions => "No more instructions.",
        }
    }
}

/// The outcome of one cycle: continue, wait for the input channel, or halt at
/// the carried address for the carried reason.
pub enum LmcResult {
    Success,
    NeedInput,
    Error(D2, HaltReason),
}

/// The mathematical value of a cycle outcome.
pub ghost enum Step {
    Continue,
    NeedInput,
    Halted { at: int, reason: HaltReason },
}

impl LmcResult {
    /// The mathematical value of this outcome.
    pub open spec fn step(self) -> Step {
        match self {
            LmcResult::Success => Step::Continue,
            LmcResult::NeedInput => Step::NeedInput,
            LmcResult::Error(at, reason) => Step::Halted { at: at.value as int, reason },
        }
    }
}

/// The mathematical value of a machine state.
#[verifier::ext_equal]
pub ghost struct LmcV {
    /// The program counter.
    pub pc: int,
    /// The accumulator.
    pub acc: int,
    /// The hundred memory cells.
    pub mem: Seq<int>,
    /// The append-only output record.
    pub out: Seq<char>,
}

impl LmcV {
    /// Every component is in range. The program counter may rest at 100: a
    /// halt that ran off the end of memory reports that address.
    pub open spec fn inv(self) -> bool {
        0 <= self.pc <= 100 && word_in_range(self.acc) && self.mem.len() == 100 && (forall|k: int|
            0 <= k < 100 ==> word_in_range(#[trigger] self.mem[k]))
    }

    /// The state can execute another cycle: in range, with the program
    /// counter on a memory cell.
    pub open spec fn runnable(self) -> bool {
        self.inv() && self.pc <= 99
    }
}

/// The mathematical value an input event carries, if one was supplied.
pub open spec fn opt_word(input: Option<i16>) -> Option<int> {
    match input {
        Some(v) => Some(v as int),
        None => None,
    }
}

/// The post-execute check: a non-halting instruction whose (possibly branch
/// written) program counter left memory halts the run there.
pub open spec fn step_done(s: LmcV) -> (LmcV, Step) {
    if s.pc > 99 {
        (s, Step::Halted { at: s.pc, reason: HaltReason::NoMoreInstructions })
    } else {
        (s, Step::Continue)
    }
}

/// One fetch-decode-execute transition on the mathematical state. `input` is
/// the word the input channel supplied, if any; only the input opcode reads
/// it, and without one it reports that input is needed, changing nothing.
pub open spec fn step_spec(pre: LmcV, input: Option<int>) -> (LmcV, Step) {
    let instr = pre.mem[pre.pc];
    let bumped = LmcV { pc: pre.pc + 1, acc: pre.acc, mem: pre.mem, out: pre.out };
    if instr < 0 {
        (bumped, Step::Halted { at: pre.pc + 1, reason: HaltReason::NegativeInstruction })
    } else {
        let op = instr / 100;
        let arg = instr % 100;
        if op == 0 {
            (bumped, Step::Halted { at: pre.pc + 1, reason: HaltReason::HaltCommand })
        } else if op == 1 {
            step_done(LmcV { acc: clamp_word(pre.acc + pre.mem[arg]), ..bumped })
        } else if op == 2 {
            step_done(LmcV { acc: clamp_word(pre.acc - pre.mem[arg]), ..bumped })
        } else if op == 3 {
            step_done(LmcV { mem: pre.mem.update(arg, pre.acc), ..bumped })
        } else if op == 5 {
            step_done(LmcV { acc: pre.mem[arg], ..bumped })
        } else if op == 6 {
            step_done(LmcV { pc: arg, ..bumped })
        } else if op == 7 {
            step_done(if pre.acc == 0 { LmcV { pc: arg, ..bumped } } else { bumped })
        } else if op == 8 {
            step_done(if pre.acc >= 0 { LmcV { pc: arg, ..bumped } } else { bumped })
        } else if op == 9 && arg == 1 {
            match input {
                None => (pre, Step::NeedInput),
                Some(v) => step_done(LmcV { acc: v, ..bumped }),
            }
        } else if op == 9 && arg == 2 {
            step_done(LmcV { out: pre.out + dec_str(pre.acc) + seq![' '], ..bumped })
        } else if op == 9 && arg == 22 {
            step_done(LmcV { out: pre.out.push(low_byte_char(pre.acc)), ..bumped })
        } else {
            (bumped, Step::Halted { at: pre.pc + 1, reason: HaltReason::BadInstruction })
        }
    }
}

/// The machine: program counter, accumulator, the hundred-cell memory image,
/// and the append-only output record.
pub struct Lmc {
    pub pc: D2,
    pub acc: D3,
    pub mem: Vec<D3>,
    pub out: Vec<char>,
}

impl View for Lmc {
    type V = LmcV;

    open spec fn view(&self) -> LmcV {
        LmcV {
            pc: self.pc.value as int,
            acc: self.acc.value as int,
            mem: self.mem@.map_values(|d: D3| d.value as int),
            out: self.out@,
        }
    }
}

impl Lmc {
    /// The machine's components are in range.
    pub open spec fn wf(self) -> bool {
        self@.inv()
    }

    /// The machine can execute another cycle.
    pub open spec fn runnable(self) -> bool {
        self@.runnable()
    }

    /// Builds a machine over the given memory image, with an empty output
    /// record.
    pub fn new(pc: D2, acc: D3, mem: Vec<D3>) -> (r: Lmc)
        requires
            pc.value <= 99,
            word_in_range(acc.value as int),
            mem@.len() == 100,
            forall|k: int| 0 <= k < 100 ==> word_in_range((#[trigger] mem@[k]).value as int),
        ensures
            r.runnable(),
            r@.pc == pc.value as int,
            r@.acc == acc.value as int,
            r@.mem == mem@.map_values(|d: D3| d.value as int),
            r@.out == Seq::<char>::empty(),
    {
        let r = Lmc { pc, acc, mem, out: Vec::new() };
        proof {
            assert(r@.out =~= Seq::<char>::empty());
        }
        r
    }

    /// Performs one fetch-decode-execute cycle, exactly as `step_spec` says:
    /// fetch the word under the program counter, advance the counter, decode
    /// the leading digit as the opcode and the low two digits as the operand,
    /// and execute. `input` is the word the input channel supplied, if any;
    /// when the input opcode finds none, the machine is left unchanged and
    /// asks for it.
    pub fn cycle(&mut self, input: Option<i16>) -> (r: LmcResult)
        requires
            old(self).runnable(),
            input matches Some(v) ==> word_in_range(v as int),
        ensures
            final(self).wf(),
            final(self)@ == step_spec(old(self)@, opt_word(input)).0,
            r.step() == step_spec(old(self)@, opt_word(input)).1,
            r is Success ==> final(self).runnable(),
            r is NeedInput ==> *final(self) == *old(self),
    {
        let ghost target = step_spec(old(self)@, opt_word(input));
        let pc0: u8 = self.pc.value;
        let instruction: i16 = self.mem[pc0 as usize].value;
        if instruction < 0 {
            self.pc.value = pc0 + 1;
            proof {
                assert(self@ =~= target.0);
            }
            return LmcResult::Error(D2 { value: pc0 + 1 }, HaltReason::NegativeInstruction);
        }
        let word: u16 = instruction as u16;
        let opcode: u16 = word / 100;
        let operand: u16 = word % 100;
        if opcode == 9 && operand == 1 && input.is_none() {
            proof {
                assert(self@ =~= target.0);
            }
            return LmcResult::NeedInput;
        }
        self.pc.value = pc0 + 1;
        match (opcode, operand) {
            (0, _) => {
                proof {
                    assert(self@ =~= target.0);
                }
                return LmcResult::Error(D2 { value: pc0 + 1 }, HaltReason::HaltCommand);
            },
            (1, _) => {
                let m: i16 = self.mem[operand as usize].value;
                let sum: i16 = self.acc.value + m;
                self.acc.value = if sum > 999 {
                    999
                } else if sum < -999 {
                    -999
                } else {
                    sum
                };
            },
            (2, _) => {
                let m: i16 = self.mem[operand as usize].value;
                let diff: i16 = self.acc.value - m;
                self.acc.value = if diff > 999 {
                    999
                } else if diff < -999 {
                    -999
                } else {
                    diff
                };
            },
            (3, _) => {
                self.mem[operand as usize] = self.acc;
            },
            (5, _) => {
                self.acc = self.mem[operand as usize];
            },
            (6, _) => {
                self.pc.value = operand as u8;
            },
            (7, _) => {
                if self.acc.value == 0 {
                    self.pc.value = operand as u8;
                }
            },
            (8, _) => {
                if self.acc.value >= 0 {
                    self.pc.value = operand as u8;
                }
            },
            (9, 1) => {
                if let Some(v) = input {
                    self.acc.value = v;
                }
            },
            (9, 2) => {
                push_decimal(&mut self.out, self.acc.value);
                self.out.push(' ');
            },
            (9, 22) => {
                let a: i16 = self.acc.value;
                let b: u8 = if a >= 0 {
                    ((a as u16) % 256) as u8
                } else {
                    (((a + 1024) as u16) % 256) as u8
                };
                self.out.push(b as char);
            },
            _ => {
                proof {
                    assert(self@ =~= target.0);
                }
                return LmcResult::Error(D2 { value: pc0 + 1 }, HaltReason::BadInstruction);
            },
        }
        proof {
            assert(self@ =~= target.0);
        }
        if self.pc.value > 99 {
            return LmcResult::Error(D2 { value: self.pc.value }, HaltReason::NoMoreInstructions);
        }
        LmcResult::Success
    }
}

} // verus!
