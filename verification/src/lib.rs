//! Line-coverage instrumentation for WebAssembly components.
//!
//! Given the textual form of a component (as printed with binary-offset
//! comments) together with a model of its fields and the DWARF line records
//! of its inline core modules, the library inserts a counter-increment call
//! at every source-level basic block, threads the new `inc-counter` import
//! through every nested core module, bumps every downstream index, and
//! produces the mapping from counter identities to source positions that
//! the coverage reports are built from.

use vstd::prelude::*;

pub mod annotate;
pub mod blacklist;
pub mod counters;
pub mod edits;
pub mod gcov;
pub mod instrument;
pub mod lcov;
pub mod model;
mod noise;
pub mod numeral;
pub mod offset_tracker;
pub mod scan;
pub mod debug_info;

pub use noise::NoiseLevel;

verus! {

/// The kinds of control-flow blocks a counter can be attached to.
///
/// Counters cross the host boundary as plain `i32` values; this enum gives
/// those values a meaning on the host side.
pub enum CounterType {
    /// A `block` instruction.
    Block,
    /// An `if` instruction.
    If,
    /// An `else` arm.
    Else,
    /// A `loop` instruction.
    Loop,
}

impl CounterType {
    /// The `i32` value that stands for this counter kind on the wire.
    pub fn to_i32(&self) -> (r: i32)
        ensures
            r == self.spec_i32(),
    {
        match self {
            CounterType::Block => 0,
            CounterType::If => 1,
            CounterType::Else => 2,
            CounterType::Loop => 3,
        }
    }

    /// The wire value of each variant.
    pub open spec fn spec_i32(&self) -> i32 {
        match self {
            CounterType::Block => 0,
            CounterType::If => 1,
            CounterType::Else => 2,
            CounterType::Loop => 3,
        }
    }

    /// Reads a counter kind back from its wire value; values outside the
    /// enumeration yield `None`.
    pub fn from_i32(n: i32) -> (r: Option<CounterType>)
        ensures
            r is Some <==> 0 <= n < 4,
            r is Some ==> r->Some_0.spec_i32() == n,
    {
        match n {
            0 => Some(CounterType::Block),
            1 => Some(CounterType::If),
            2 => Some(CounterType::Else),
            3 => Some(CounterType::Loop),
            _ => None,
        }
    }
}

} // verus!
