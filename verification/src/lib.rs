//! A gate-level digital-logic simulator.
//!
//! Circuits are built from *parts* (gates, buffers, flip-flops, counters, RAM) whose
//! *pins* are wired into *nodes*. A [`Graph`] owns every pin state and advances the
//! whole circuit one *tick* at a time until it settles or starts to oscillate.
pub mod bus;
pub mod data_block;
pub mod gate;
pub mod graph;
pub mod ic;
pub mod names;
pub mod part;
pub mod ram;
pub mod settle;
pub mod signal;

pub use bus::{BusValue, ToValue};
pub use data_block::DataBlock;
pub use gate::{
    and_gate, and_nary, buffer, nand_gate, nand_nary, nor_gate, nor_nary, not_gate, or_gate,
    or_nary, xor_gate, BinaryGate, BusBuffer, BusTristate, NaryGate, UnaryGate,
};
pub use graph::{Graph, Pin, PinId, RunStats, RUN_LIMIT};
pub use ic::{Counter16Bit, Counter8Bit, FullAdder, HalfAdder, Ic74193, TFlipFlop};
pub use part::Updater;
pub use ram::IcCY7C199;
pub use signal::{PinState, Signal, ToSignal};
