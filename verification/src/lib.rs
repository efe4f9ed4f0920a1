//! An emulator core for a little decimal teaching machine: one hundred memory
//! cells, a two-digit program counter, a signed three-digit accumulator, and
//! ten opcodes. The machine executes one fetch-decode-execute step per call
//! and reports precisely whether it continues, waits for input, or halts.

pub mod values;
pub mod loader;
pub mod machine;
pub mod props;
