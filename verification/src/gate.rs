//! Combinational parts: single-bit gates, many-input gates and bus buffers.
use crate::bus::{bus_value, lemma_bits_round_trip, signals_of, BusValue};
use crate::graph::{Graph, GraphView, Pin, PinId, PinView};
use crate::names::{applied, applied2, applied2_name, applied_name, indexed};
use crate::part::{Rule, Updater};
use crate::signal::{PinState, Signal, ToSignal};
use vstd::arithmetic::div_mod::lemma_small_mod;
use vstd::arithmetic::power2::{lemma_pow2_pos, pow2};
use core::ops::Not;
use vstd::prelude::*;
use vstd::slice::slice_subrange;

verus! {

/// The pins of a not gate after one update: the output carries the inverted input.
pub open spec fn not_next(pins: Seq<PinState>) -> Seq<PinState> {
    pins.update(1, PinState::Output(pins[0].signal().inverse()))
}

/// The pins of a buffer after one update: the output carries the input.
pub open spec fn buffer_next(pins: Seq<PinState>) -> Seq<PinState> {
    pins.update(1, PinState::Output(pins[0].signal()))
}

/// The pins of an and gate after one update.
pub open spec fn and_next(pins: Seq<PinState>) -> Seq<PinState> {
    pins.update(2, PinState::Output(pins[0].signal().both(pins[1].signal())))
}

/// The pins of a nand gate after one update.
pub open spec fn nand_next(pins: Seq<PinState>) -> Seq<PinState> {
    pins.update(2, PinState::Output(pins[0].signal().both(pins[1].signal()).inverse()))
}

/// The pins of an or gate after one update.
pub open spec fn or_next(pins: Seq<PinState>) -> Seq<PinState> {
    pins.update(2, PinState::Output(pins[0].signal().either(pins[1].signal())))
}

/// The pins of a nor gate after one update.
pub open spec fn nor_next(pins: Seq<PinState>) -> Seq<PinState> {
    pins.update(2, PinState::Output(pins[0].signal().either(pins[1].signal()).inverse()))
}

/// The pins of an xor gate after one update.
pub open spec fn xor_next(pins: Seq<PinState>) -> Seq<PinState> {
    pins.update(2, PinState::Output(pins[0].signal().differ(pins[1].signal())))
}

/// The conjunction of all the signals, taken left to right without short cut.
pub open spec fn all_of(sigs: Seq<Signal>) -> Signal
    decreases sigs.len(),
{
    if sigs.len() == 0 {
        Signal::Off
    } else if sigs.len() == 1 {
        sigs[0]
    } else {
        all_of(sigs.drop_last()).both(sigs.last())
    }
}

/// The disjunction of all the signals, taken left to right without short cut.
pub open spec fn any_of(sigs: Seq<Signal>) -> Signal
    decreases sigs.len(),
{
    if sigs.len() == 0 {
        Signal::Off
    } else if sigs.len() == 1 {
        sigs[0]
    } else {
        any_of(sigs.drop_last()).either(sigs.last())
    }
}

/// The signals on the inputs of a many-input gate: every pin but the first.
pub open spec fn nary_inputs(pins: Seq<PinState>) -> Seq<Signal> {
    signals_of(pins.subrange(1, pins.len() as int))
}

/// The pins of a many-input and gate after one update.
pub open spec fn and_nary_next(pins: Seq<PinState>) -> Seq<PinState> {
    pins.update(0, PinState::Output(all_of(nary_inputs(pins))))
}

/// The pins of a many-input or gate after one update.
pub open spec fn or_nary_next(pins: Seq<PinState>) -> Seq<PinState> {
    pins.update(0, PinState::Output(any_of(nary_inputs(pins))))
}

/// The pins of a many-input nand gate after one update.
pub open spec fn nand_nary_next(pins: Seq<PinState>) -> Seq<PinState> {
    pins.update(0, PinState::Output(all_of(nary_inputs(pins)).inverse()))
}

/// The pins of a many-input nor gate after one update.
pub open spec fn nor_nary_next(pins: Seq<PinState>) -> Seq<PinState> {
    pins.update(0, PinState::Output(any_of(nary_inputs(pins)).inverse()))
}

/// What a buffer output shows for a given input pin: an input is driven onward, a
/// disconnected input disconnects the output, anything else is an error.
pub open spec fn relay(state: PinState) -> PinState {
    match state {
        PinState::HiZ => PinState::HiZ,
        PinState::Input(s) => PinState::Output(s),
        PinState::Output(_) => PinState::Output(Signal::Error),
    }
}

/// The pins of a bus buffer after one update: output `i` relays input `i`, which sits
/// `width` pins further on.
pub open spec fn bus_buffer_next(width: nat, pins: Seq<PinState>) -> Seq<PinState> {
    Seq::new(
        pins.len(),
        |i: int|
            if i < width {
                relay(pins[width + i])
            } else {
                pins[i]
            },
    )
}

/// The pins of a bus whose first `width` pins are all disconnected.
pub open spec fn bus_released(width: nat, pins: Seq<PinState>) -> Seq<PinState> {
    Seq::new(
        pins.len(),
        |i: int|
            if i < width {
                PinState::HiZ
            } else {
                pins[i]
            },
    )
}

/// The pins of a tristate buffer after one update: a bus buffer while the enable pin,
/// the last one, is `High`, and disconnected outputs otherwise.
pub open spec fn bus_tristate_next(width: nat, pins: Seq<PinState>) -> Seq<PinState> {
    if pins[2 * width as int].signal() == Signal::High {
        bus_buffer_next(width, pins)
    } else {
        bus_released(width, pins)
    }
}

/// Updates a not gate: input at pin 0, output at pin 1.
pub fn update_not(pins: &mut [PinState])
    requires
        old(pins)@.len() == 2,
    ensures
        final(pins)@ == not_next(old(pins)@),
{
    pins[1] = PinState::Output(pins[0].not());
}

/// Updates a buffer: input at pin 0, output at pin 1.
pub fn update_buffer(pins: &mut [PinState])
    requires
        old(pins)@.len() == 2,
    ensures
        final(pins)@ == buffer_next(old(pins)@),
{
    pins[1] = PinState::Output(pins[0].sig());
}

/// Updates an and gate: inputs at pins 0 and 1, output at pin 2.
pub fn update_and(pins: &mut [PinState])
    requires
        old(pins)@.len() == 3,
    ensures
        final(pins)@ == and_next(old(pins)@),
{
    pins[2] = PinState::Output(pins[0] & pins[1]);
}

/// Updates a nand gate: inputs at pins 0 and 1, output at pin 2.
pub fn update_nand(pins: &mut [PinState])
    requires
        old(pins)@.len() == 3,
    ensures
        final(pins)@ == nand_next(old(pins)@),
{
    pins[2] = PinState::Output((pins[0] & pins[1]).not());
}

/// Updates an or gate: inputs at pins 0 and 1, output at pin 2.
pub fn update_or(pins: &mut [PinState])
    requires
        old(pins)@.len() == 3,
    ensures
        final(pins)@ == or_next(old(pins)@),
{
    pins[2] = PinState::Output(pins[0] | pins[1]);
}

/// Updates a nor gate: inputs at pins 0 and 1, output at pin 2.
pub fn update_nor(pins: &mut [PinState])
    requires
        old(pins)@.len() == 3,
    ensures
        final(pins)@ == nor_next(old(pins)@),
{
    pins[2] = PinState::Output((pins[0] | pins[1]).not());
}

/// Updates an xor gate: inputs at pins 0 and 1, output at pin 2.
pub fn update_xor(pins: &mut [PinState])
    requires
        old(pins)@.len() == 3,
    ensures
        final(pins)@ == xor_next(old(pins)@),
{
    pins[2] = PinState::Output(pins[0] ^ pins[1]);
}

/// Folds the conjunction over the inputs of a many-input gate.
fn fold_all(pins: &[PinState]) -> (result: Signal)
    requires
        pins@.len() >= 2,
    ensures
        result == all_of(nary_inputs(pins@)),
{
    let mut result = pins[1].sig();
    let mut i: usize = 2;
    while i < pins.len()
        invariant
            2 <= i <= pins.len(),
            result == all_of(signals_of(pins@.subrange(1, i as int))),
        decreases pins.len() - i,
    {
        proof {
            let next = signals_of(pins@.subrange(1, i + 1));
            assert(next.drop_last() =~= signals_of(pins@.subrange(1, i as int)));
        }
        // No shortcut, so that errors propagate.
        result = result & pins[i].sig();
        i = i + 1;
    }
    result
}

/// Folds the disjunction over the inputs of a many-input gate.
fn fold_any(pins: &[PinState]) -> (result: Signal)
    requires
        pins@.len() >= 2,
    ensures
        result == any_of(nary_inputs(pins@)),
{
    let mut result = pins[1].sig();
    let mut i: usize = 2;
    while i < pins.len()
        invariant
            2 <= i <= pins.len(),
            result == any_of(signals_of(pins@.subrange(1, i as int))),
        decreases pins.len() - i,
    {
        proof {
            let next = signals_of(pins@.subrange(1, i + 1));
            assert(next.drop_last() =~= signals_of(pins@.subrange(1, i as int)));
        }
        result = result | pins[i].sig();
        i = i + 1;
    }
    result
}

/// Updates a many-input and gate: output at pin 0, inputs after it.
pub fn update_and_nary(pins: &mut [PinState])
    requires
        old(pins)@.len() >= 2,
    ensures
        final(pins)@ == and_nary_next(old(pins)@),
{
    let result = fold_all(pins);
    pins[0] = PinState::Output(result);
}

/// Updates a many-input or gate: output at pin 0, inputs after it.
pub fn update_or_nary(pins: &mut [PinState])
    requires
        old(pins)@.len() >= 2,
    ensures
        final(pins)@ == or_nary_next(old(pins)@),
{
    let result = fold_any(pins);
    pins[0] = PinState::Output(result);
}

/// Updates a many-input nand gate: output at pin 0, inputs after it.
pub fn update_nand_nary(pins: &mut [PinState])
    requires
        old(pins)@.len() >= 2,
    ensures
        final(pins)@ == nand_nary_next(old(pins)@),
{
    let result = fold_all(pins);
    pins[0] = PinState::Output(result.not());
}

/// Updates a many-input nor gate: output at pin 0, inputs after it.
pub fn update_nor_nary(pins: &mut [PinState])
    requires
        old(pins)@.len() >= 2,
    ensures
        final(pins)@ == nor_nary_next(old(pins)@),
{
    let result = fold_any(pins);
    pins[0] = PinState::Output(result.not());
}

/// Relays one input pin state to its output.
fn relay_state(state: PinState) -> (r: PinState)
    ensures
        r == relay(state),
{
    match state {
        PinState::HiZ => PinState::HiZ,
        PinState::Input(sig) => PinState::Output(sig),
        _ => PinState::Output(Signal::Error),
    }
}

/// Updates a bus buffer of the given width: outputs first, then as many inputs.
pub fn update_bus_buffer(width: usize, pins: &mut [PinState])
    requires
        old(pins)@.len() >= 2 * width,
    ensures
        final(pins)@ == bus_buffer_next(width as nat, old(pins)@),
{
    let mut i: usize = 0;
    while i < width
        invariant
            i <= width,
            pins@.len() == old(pins)@.len(),
            pins@.len() >= 2 * width,
            forall|j: int| 0 <= j < i ==> pins@[j] == relay(old(pins)@[width + j]),
            forall|j: int| i <= j < pins@.len() ==> pins@[j] == old(pins)@[j],
        decreases width - i,
    {
        pins[i] = relay_state(pins[width + i]);
        i = i + 1;
    }
    assert(pins@ =~= bus_buffer_next(width as nat, old(pins)@));
}

/// Disconnects the first `width` pins.
pub fn release_bus(width: usize, pins: &mut [PinState])
    requires
        old(pins)@.len() >= width,
    ensures
        final(pins)@ == bus_released(width as nat, old(pins)@),
{
    let mut i: usize = 0;
    while i < width
        invariant
            i <= width,
            pins@.len() == old(pins)@.len(),
            pins@.len() >= width,
            forall|j: int| 0 <= j < i ==> pins@[j] == PinState::HiZ,
            forall|j: int| i <= j < pins@.len() ==> pins@[j] == old(pins)@[j],
        decreases width - i,
    {
        pins[i] = PinState::HiZ;
        i = i + 1;
    }
    assert(pins@ =~= bus_released(width as nat, old(pins)@));
}

/// Updates a tristate buffer of the given width: outputs, as many inputs, then enable.
pub fn update_bus_tristate(width: usize, pins: &mut [PinState])
    requires
        old(pins)@.len() == 2 * width + 1,
    ensures
        final(pins)@ == bus_tristate_next(width as nat, old(pins)@),
{
    if pins[2 * width].is_high() {
        update_bus_buffer(width, pins);
    } else {
        release_bus(width, pins);
    }
}

/// The input pins of a bus buffer that carry the low `width` bits of `v`.
pub open spec fn bus_inputs(v: usize, width: nat) -> Seq<PinState> {
    Seq::new(width, |i: int| PinState::Input((BusValue { val: v, error: 0 }).bit_signal(i as nat)))
}

/// Bus round trip: when the inputs of a bus buffer carry the bits of a value below
/// `2^width`, one update makes its outputs read as that value, free of errors.
pub proof fn lemma_bus_round_trip(v: usize, width: nat, outputs: Seq<PinState>)
    requires
        outputs.len() == width,
        width <= usize::BITS,
        v < pow2(width),
    ensures
        bus_value(
            signals_of(
                bus_buffer_next(width, outputs + bus_inputs(v, width)).subrange(0, width as int),
            ),
        ) == (BusValue { val: v, error: 0 }),
{
    let pins = outputs + bus_inputs(v, width);
    let read = signals_of(bus_buffer_next(width, pins).subrange(0, width as int));
    assert(read =~= (BusValue { val: v, error: 0 }).bit_signals(width));
    lemma_bits_round_trip(v, width);
    lemma_pow2_pos(width);
    lemma_small_mod(v as nat, pow2(width));
}

/// The initial pin states of a gate with one input: the input, then the output.
pub open spec fn unary_states() -> Seq<PinState> {
    seq![PinState::Input(Signal::Off), PinState::Output(Signal::Error)]
}

/// The initial pin states of a gate with two inputs: the inputs, then the output.
pub open spec fn binary_states() -> Seq<PinState> {
    seq![PinState::Input(Signal::Off), PinState::Input(Signal::Off), PinState::Output(Signal::Error)]
}

/// The initial pin states of a gate with many inputs: the output, then the inputs.
pub open spec fn nary_states(inputs: nat) -> Seq<PinState> {
    Seq::new(
        inputs + 1,
        |i: int|
            if i == 0 {
                PinState::Output(Signal::Error)
            } else {
                PinState::Input(Signal::Off)
            },
    )
}

/// The initial pin states of a bus buffer: as many outputs, in the given state, as
/// inputs, and `extra` more inputs after them.
pub open spec fn bus_states(width: nat, output: PinState, extra: nat) -> Seq<PinState> {
    Seq::new(
        2 * width + extra,
        |i: int|
            if i < width {
                output
            } else {
                PinState::Input(Signal::Off)
            },
    )
}

impl GraphView {
    /// The graph with a new gate of one input, driven by the pin `a`. It is named
    /// after its kind and the pin.
    #[verifier::opaque]
    pub open spec fn with_unary(self, gate: Seq<char>, rule: Rule, a: PinView) -> GraphView {
        let name = applied(gate, a.name);
        self.with_part(name, unary_states(), rule).joined(a.id, self.len() as usize)
    }

    /// The output pin of what [`Self::with_unary`] adds.
    #[verifier::opaque]
    pub open spec fn unary_out(self, gate: Seq<char>, a: PinView) -> PinView {
        PinView { id: (self.len() + 1) as usize, name: indexed(applied(gate, a.name), 1) }
    }

    /// The graph with a new gate of two inputs, driven by the pins `a` and `b`. It
    /// is named after its kind and the two pins.
    #[verifier::opaque]
    pub open spec fn with_binary(self, gate: Seq<char>, rule: Rule, a: PinView, b: PinView) -> GraphView {
        let name = applied2(gate, a.name, b.name);
        self.with_part(name, binary_states(), rule).joined(a.id, self.len() as usize).joined(
            b.id,
            (self.len() + 1) as usize,
        )
    }

    /// The output pin of what [`Self::with_binary`] adds.
    #[verifier::opaque]
    pub open spec fn binary_out(self, gate: Seq<char>, a: PinView, b: PinView) -> PinView {
        PinView { id: (self.len() + 2) as usize, name: indexed(applied2(gate, a.name, b.name), 2) }
    }

    /// The graph with a not gate behind the pin `a`.
    #[verifier::opaque]
    pub open spec fn with_not(self, a: PinView) -> GraphView {
        self.with_unary("not"@, Rule::Not, a)
    }

    /// The output of the not gate behind the pin `a`.
    #[verifier::opaque]
    pub open spec fn not_out(self, a: PinView) -> PinView {
        self.unary_out("not"@, a)
    }

    /// The graph with an and gate behind the pins `a` and `b`.
    #[verifier::opaque]
    pub open spec fn with_and(self, a: PinView, b: PinView) -> GraphView {
        self.with_binary("and"@, Rule::And, a, b)
    }

    /// The output of the and gate behind the pins `a` and `b`.
    #[verifier::opaque]
    pub open spec fn and_out(self, a: PinView, b: PinView) -> PinView {
        self.binary_out("and"@, a, b)
    }

    /// The graph with an or gate behind the pins `a` and `b`.
    #[verifier::opaque]
    pub open spec fn with_or(self, a: PinView, b: PinView) -> GraphView {
        self.with_binary("or"@, Rule::Or, a, b)
    }

    /// The output of the or gate behind the pins `a` and `b`.
    #[verifier::opaque]
    pub open spec fn or_out(self, a: PinView, b: PinView) -> PinView {
        self.binary_out("or"@, a, b)
    }

    /// The graph with an xor gate behind the pins `a` and `b`.
    #[verifier::opaque]
    pub open spec fn with_xor(self, a: PinView, b: PinView) -> GraphView {
        self.with_binary("xor"@, Rule::Xor, a, b)
    }

    /// The output of the xor gate behind the pins `a` and `b`.
    #[verifier::opaque]
    pub open spec fn xor_out(self, a: PinView, b: PinView) -> PinView {
        self.binary_out("xor"@, a, b)
    }
}

/// Represents a single-input, single-output logic gate.
pub struct UnaryGate {
    /// Input pin.
    pub input: Pin,
    /// Output pin.
    pub output: Pin,
}

impl UnaryGate {
    /// Input pin index.
    pub const INPUT: usize = 0;

    /// Output pin index.
    pub const OUTPUT: usize = 1;

    /// Input pin.
    pub fn input(&self) -> (r: &Pin)
        ensures
            *r == self.input,
    {
        &self.input
    }

    /// Output pin.
    pub fn output(&self) -> (r: &Pin)
        ensures
            *r == self.output,
    {
        &self.output
    }

    /// Input pin, by its short name.
    pub fn a(&self) -> (r: &Pin)
        ensures
            *r == self.input,
    {
        &self.input
    }

    /// Output pin, by its short name.
    pub fn q(&self) -> (r: &Pin)
        ensures
            *r == self.output,
    {
        &self.output
    }

    /// Whether this gate is a part of two pins that was just added to the graph
    /// `earlier`, giving the graph `graph`.
    pub open spec fn placed(self, earlier: GraphView, graph: GraphView, name: Seq<char>) -> bool {
        &&& self.input.id == earlier.len()
        &&& self.output.id == earlier.len() + 1
        &&& self.input.name@ == indexed(name, 0)
        &&& self.output.name@ == indexed(name, 1)
        &&& graph.len() == earlier.len() + 2
        &&& graph.extends(earlier)
        &&& graph.heads(self.input.id)
        &&& graph.heads(self.output.id)
        &&& graph.pin_states[self.output.id as int] == PinState::Output(Signal::Error)
    }

    /// Create a unary gate with the given updater.
    pub fn new(graph: &mut Graph, name: &str, updater: Updater) -> (gate: Self)
        requires
            old(graph).wf(),
            updater@.fits(2),
        ensures
            final(graph).wf(),
            final(graph)@ == old(graph)@.with_part(name@, unary_states(), updater@),
            gate.placed(old(graph)@, final(graph)@, name@),
    {
        let states = [PinState::input(), PinState::output()];
        assert(states@ =~= unary_states());
        let pins = graph.new_part(name, states.as_slice(), updater);
        proof {
            let base = old(graph)@.len();
            assert(graph@.heads((base + 0) as usize));
            assert(graph@.heads((base + 1) as usize));
        }
        Self { input: pins[Self::INPUT].clone(), output: pins[Self::OUTPUT].clone() }
    }
}

/// Creates a single-bit not gate.
///
/// After one tick, the output will be the logical not of the input.
pub fn not_gate(graph: &mut Graph, name: &str) -> (gate: UnaryGate)
    requires
        old(graph).wf(),
    ensures
        final(graph).wf(),
        final(graph)@ == old(graph)@.with_part(name@, unary_states(), Rule::Not),
        gate.placed(old(graph)@, final(graph)@, name@),
{
    UnaryGate::new(graph, name, Updater::Not)
}

/// Creates a single-bit buffer.
///
/// After one tick, the output will be the same as the input.
pub fn buffer(graph: &mut Graph, name: &str) -> (gate: UnaryGate)
    requires
        old(graph).wf(),
    ensures
        final(graph).wf(),
        final(graph)@ == old(graph)@.with_part(name@, unary_states(), Rule::Buffer),
        gate.placed(old(graph)@, final(graph)@, name@),
{
    UnaryGate::new(graph, name, Updater::Buffer)
}

/// Represents a single-bit, two-input logic gate.
pub struct BinaryGate {
    /// First input pin.
    pub input_a: Pin,
    /// Second input pin.
    pub input_b: Pin,
    /// Output pin.
    pub output: Pin,
}

impl BinaryGate {
    /// First input pin index.
    pub const INPUT_A: usize = 0;

    /// Second input pin index.
    pub const INPUT_B: usize = 1;

    /// Output pin index.
    pub const OUTPUT: usize = 2;

    /// First input pin.
    pub fn input_a(&self) -> (r: &Pin)
        ensures
            *r == self.input_a,
    {
        &self.input_a
    }

    /// Second input pin.
    pub fn input_b(&self) -> (r: &Pin)
        ensures
            *r == self.input_b,
    {
        &self.input_b
    }

    /// Output pin.
    pub fn output(&self) -> (r: &Pin)
        ensures
            *r == self.output,
    {
        &self.output
    }

    /// First input pin, by its short name.
    pub fn a(&self) -> (r: &Pin)
        ensures
            *r == self.input_a,
    {
        &self.input_a
    }

    /// Second input pin, by its short name.
    pub fn b(&self) -> (r: &Pin)
        ensures
            *r == self.input_b,
    {
        &self.input_b
    }

    /// Output pin, by its short name.
    pub fn q(&self) -> (r: &Pin)
        ensures
            *r == self.output,
    {
        &self.output
    }

    /// Whether this gate is a part of three pins that was just added to the graph
    /// `earlier`, giving the graph `graph`.
    pub open spec fn placed(self, earlier: GraphView, graph: GraphView, name: Seq<char>) -> bool {
        &&& self.input_a.id == earlier.len()
        &&& self.input_b.id == earlier.len() + 1
        &&& self.output.id == earlier.len() + 2
        &&& self.input_a.name@ == indexed(name, 0)
        &&& self.input_b.name@ == indexed(name, 1)
        &&& self.output.name@ == indexed(name, 2)
        &&& graph.len() == earlier.len() + 3
        &&& graph.extends(earlier)
        &&& graph.heads(self.input_a.id)
        &&& graph.heads(self.input_b.id)
        &&& graph.heads(self.output.id)
        &&& graph.pin_states[self.output.id as int] == PinState::Output(Signal::Error)
    }

    /// Creates a new binary gate with the given updater.
    pub fn new(graph: &mut Graph, name: &str, updater: Updater) -> (gate: Self)
        requires
            old(graph).wf(),
            updater@.fits(3),
        ensures
            final(graph).wf(),
            final(graph)@ == old(graph)@.with_part(name@, binary_states(), updater@),
            gate.placed(old(graph)@, final(graph)@, name@),
    {
        let states = [PinState::input(), PinState::input(), PinState::output()];
        assert(states@ =~= binary_states());
        let pins = graph.new_part(name, states.as_slice(), updater);
        proof {
            let base = old(graph)@.len();
            assert(graph@.heads((base + 0) as usize));
            assert(graph@.heads((base + 1) as usize));
            assert(graph@.heads((base + 2) as usize));
        }
        Self {
            input_a: pins[Self::INPUT_A].clone(),
            input_b: pins[Self::INPUT_B].clone(),
            output: pins[Self::OUTPUT].clone(),
        }
    }
}

/// Create a binary and gate.
///
/// After one tick, the output will be the logical and of the inputs.
pub fn and_gate(graph: &mut Graph, name: &str) -> (gate: BinaryGate)
    requires
        old(graph).wf(),
    ensures
        final(graph).wf(),
        final(graph)@ == old(graph)@.with_part(name@, binary_states(), Rule::And),
        gate.placed(old(graph)@, final(graph)@, name@),
{
    BinaryGate::new(graph, name, Updater::And)
}

/// Create a binary nand gate.
///
/// After one tick, the output will be the logical nand of the inputs.
pub fn nand_gate(graph: &mut Graph, name: &str) -> (gate: BinaryGate)
    requires
        old(graph).wf(),
    ensures
        final(graph).wf(),
        final(graph)@ == old(graph)@.with_part(name@, binary_states(), Rule::Nand),
        gate.placed(old(graph)@, final(graph)@, name@),
{
    BinaryGate::new(graph, name, Updater::Nand)
}

/// Create a binary or gate.
///
/// After one tick, the output will be the logical or of the inputs.
pub fn or_gate(graph: &mut Graph, name: &str) -> (gate: BinaryGate)
    requires
        old(graph).wf(),
    ensures
        final(graph).wf(),
        final(graph)@ == old(graph)@.with_part(name@, binary_states(), Rule::Or),
        gate.placed(old(graph)@, final(graph)@, name@),
{
    BinaryGate::new(graph, name, Updater::Or)
}

/// Create a binary nor gate.
///
/// After one tick, the output will be the logical nor of the inputs.
pub fn nor_gate(graph: &mut Graph, name: &str) -> (gate: BinaryGate)
    requires
        old(graph).wf(),
    ensures
        final(graph).wf(),
        final(graph)@ == old(graph)@.with_part(name@, binary_states(), Rule::Nor),
        gate.placed(old(graph)@, final(graph)@, name@),
{
    BinaryGate::new(graph, name, Updater::Nor)
}

/// Create a binary xor gate.
///
/// After one tick, the output will be the logical xor of the inputs.
pub fn xor_gate(graph: &mut Graph, name: &str) -> (gate: BinaryGate)
    requires
        old(graph).wf(),
    ensures
        final(graph).wf(),
        final(graph)@ == old(graph)@.with_part(name@, binary_states(), Rule::Xor),
        gate.placed(old(graph)@, final(graph)@, name@),
{
    BinaryGate::new(graph, name, Updater::Xor)
}

impl Pin {
    /// Whether `out` is the output of a gate that was just added to the graph
    /// `earlier`, giving the graph `graph`: the earlier pins are as they were, and the
    /// output heads a node of its own.
    pub open spec fn gated(out: Pin, earlier: GraphView, graph: GraphView, pins: nat) -> bool {
        &&& graph.len() == earlier.len() + pins
        &&& graph.len() == out.id + 1
        &&& graph.extends(earlier)
        &&& graph.heads(out.id)
        &&& graph.pin_states[out.id as int] == PinState::Output(Signal::Error)
    }

    /// Creates a gate of one input with this pin as its input.
    fn gate1(&self, graph: &mut Graph, kind: &str, updater: Updater) -> (out: Pin)
        requires
            old(graph).wf(),
            self.id < old(graph)@.len(),
            updater@.fits(2),
        ensures
            final(graph).wf(),
            final(graph)@ == old(graph)@.with_unary(kind@, updater@, self@),
            out@ == old(graph)@.unary_out(kind@, self@),
            Pin::gated(out, old(graph)@, final(graph)@, 2),
    {
        proof {
            reveal(GraphView::with_unary);
            reveal(GraphView::unary_out);
        }
        let name = applied_name(kind, self.name());
        let gate = UnaryGate::new(graph, name.as_str(), updater);
        proof {
            old(graph).lemma_wf();
            GraphView::lemma_wiring(old(graph)@);
            graph@.lemma_joined(self.id, gate.input.id);
        }
        graph.connect(self, gate.input());
        gate.output().clone()
    }

    /// Creates a gate of two inputs with this pin and `rhs` as its inputs.
    fn gate2(&self, graph: &mut Graph, rhs: &Pin, kind: &str, updater: Updater) -> (out: Pin)
        requires
            old(graph).wf(),
            self.id < old(graph)@.len(),
            rhs.id < old(graph)@.len(),
            updater@.fits(3),
        ensures
            final(graph).wf(),
            final(graph)@ == old(graph)@.with_binary(kind@, updater@, self@, rhs@),
            out@ == old(graph)@.binary_out(kind@, self@, rhs@),
            Pin::gated(out, old(graph)@, final(graph)@, 3),
    {
        proof {
            reveal(GraphView::with_binary);
            reveal(GraphView::binary_out);
        }
        let name = applied2_name(kind, self.name(), rhs.name());
        let gate = BinaryGate::new(graph, name.as_str(), updater);
        proof {
            old(graph).lemma_wf();
            GraphView::lemma_wiring(old(graph)@);
            graph@.lemma_joined(self.id, gate.input_a.id);
        }
        graph.connect(self, gate.input_a());
        proof {
            graph@.lemma_joined(rhs.id, gate.input_b.id);
        }
        graph.connect(rhs, gate.input_b());
        gate.output().clone()
    }

    /// Creates a not gate using this pin as its input. Returns the output pin.
    pub fn not(&self, graph: &mut Graph) -> (out: Pin)
        requires
            old(graph).wf(),
            self.id < old(graph)@.len(),
        ensures
            final(graph).wf(),
            final(graph)@ == old(graph)@.with_not(self@),
            out@ == old(graph)@.not_out(self@),
            Pin::gated(out, old(graph)@, final(graph)@, 2),
    {
        proof {
            reveal(GraphView::with_not);
            reveal(GraphView::not_out);
        }
        self.gate1(graph, "not", Updater::Not)
    }

    /// Creates an and gate using this pin and `rhs` as inputs. Returns the output pin.
    pub fn bitand(&self, graph: &mut Graph, rhs: &Pin) -> (out: Pin)
        requires
            old(graph).wf(),
            self.id < old(graph)@.len(),
            rhs.id < old(graph)@.len(),
        ensures
            final(graph).wf(),
            final(graph)@ == old(graph)@.with_and(self@, rhs@),
            out@ == old(graph)@.and_out(self@, rhs@),
            Pin::gated(out, old(graph)@, final(graph)@, 3),
    {
        proof {
            reveal(GraphView::with_and);
            reveal(GraphView::and_out);
        }
        self.gate2(graph, rhs, "and", Updater::And)
    }

    /// Creates an or gate using this pin and `rhs` as inputs. Returns the output pin.
    pub fn bitor(&self, graph: &mut Graph, rhs: &Pin) -> (out: Pin)
        requires
            old(graph).wf(),
            self.id < old(graph)@.len(),
            rhs.id < old(graph)@.len(),
        ensures
            final(graph).wf(),
            final(graph)@ == old(graph)@.with_or(self@, rhs@),
            out@ == old(graph)@.or_out(self@, rhs@),
            Pin::gated(out, old(graph)@, final(graph)@, 3),
    {
        proof {
            reveal(GraphView::with_or);
            reveal(GraphView::or_out);
        }
        self.gate2(graph, rhs, "or", Updater::Or)
    }

    /// Creates an xor gate using this pin and `rhs` as inputs. Returns the output pin.
    pub fn bitxor(&self, graph: &mut Graph, rhs: &Pin) -> (out: Pin)
        requires
            old(graph).wf(),
            self.id < old(graph)@.len(),
            rhs.id < old(graph)@.len(),
        ensures
            final(graph).wf(),
            final(graph)@ == old(graph)@.with_xor(self@, rhs@),
            out@ == old(graph)@.xor_out(self@, rhs@),
            Pin::gated(out, old(graph)@, final(graph)@, 3),
    {
        proof {
            reveal(GraphView::with_xor);
            reveal(GraphView::xor_out);
        }
        self.gate2(graph, rhs, "xor", Updater::Xor)
    }
}

/// Whether the pins are a part that was just added to the graph `earlier`, giving the
/// graph `graph`: they follow the pins of `earlier` in order, are named after the part
/// and their index, and each heads a node.
pub open spec fn pins_placed(pins: Seq<Pin>, earlier: GraphView, graph: GraphView, name: Seq<char>) -> bool {
    &&& graph.len() == earlier.len() + pins.len()
    &&& graph.len() <= usize::MAX
    &&& graph.extends(earlier)
    &&& forall|i: int|
        0 <= i < pins.len() ==> (#[trigger] pins[i])@ == (PinView {
            id: (earlier.len() + i) as usize,
            name: indexed(name, i as nat),
        }) && graph.heads(pins[i].id)
}

/// The pins that a part has just got from the graph are placed behind the earlier pins.
pub proof fn lemma_pins_placed(pins: Seq<Pin>, earlier: GraphView, graph: GraphView, name: Seq<char>)
    requires
        graph.len() == earlier.len() + pins.len(),
        graph.len() <= usize::MAX,
        graph.extends(earlier),
        forall|i: int|
            0 <= i < pins.len() ==> (#[trigger] pins[i]).id == earlier.len() + i && pins[i].name@
                == indexed(name, i as nat),
        forall|i: int| 0 <= i < pins.len() ==> #[trigger] graph.heads((earlier.len() + i) as usize),
    ensures
        pins_placed(pins, earlier, graph, name),
{
    assert forall|i: int| 0 <= i < pins.len() implies (#[trigger] pins[i])@ == (PinView {
        id: (earlier.len() + i) as usize,
        name: indexed(name, i as nat),
    }) && graph.heads(pins[i].id) by {
        assert(graph.heads((earlier.len() + i) as usize));
    }
}

/// Represents a many-input, single output logic gate.
pub struct NaryGate(pub Vec<Pin>);

impl NaryGate {
    /// Output pin index.
    pub const OUTPUT: usize = 0;

    /// Input pin starting index.
    pub const INPUTS: usize = 1;

    /// The number of inputs.
    pub open spec fn inputs(&self) -> nat {
        (self.0@.len() - 1) as nat
    }

    /// Gets the input pins.
    pub fn input(&self) -> (r: &[Pin])
        requires
            self.0@.len() >= 1,
        ensures
            r@ == self.0@.subrange(1, self.0@.len() as int),
    {
        slice_subrange(self.0.as_slice(), Self::INPUTS, self.0.len())
    }

    /// Gets the nth input pin.
    pub fn input_n(&self, n: usize) -> (r: &Pin)
        requires
            n + 1 < self.0@.len(),
        ensures
            *r == self.0@[n + 1],
    {
        assert(self.0.len() <= usize::MAX);
        &self.0[Self::INPUTS + n]
    }

    /// Gets the output pin.
    pub fn output(&self) -> (r: &Pin)
        requires
            self.0@.len() >= 1,
        ensures
            *r == self.0@[0],
    {
        &self.0[Self::OUTPUT]
    }

    /// Creates a many-input gate with the given updater.
    pub fn new(graph: &mut Graph, name: &str, inputs: usize, updater: Updater) -> (gate: Self)
        requires
            old(graph).wf(),
            inputs < usize::MAX,
            updater@.fits((inputs + 1) as nat),
        ensures
            final(graph).wf(),
            final(graph)@ == old(graph)@.with_part(name@, nary_states(inputs as nat), updater@),
            gate.0@.len() == inputs + 1,
            pins_placed(gate.0@, old(graph)@, final(graph)@, name@),
    {
        let mut states = vec![PinState::input(); Self::INPUTS + inputs];
        states[Self::OUTPUT] = PinState::output();
        assert(states@ =~= nary_states(inputs as nat));
        let pins = graph.new_part(name, states.as_slice(), updater);
        proof {
            graph.lemma_wf();
            lemma_pins_placed(pins@, old(graph)@, graph@, name@);
        }
        Self(pins)
    }

    /// The pairs that connecting the given pins to the inputs makes: each pin with the
    /// input of the same index.
    pub open spec fn input_pairs(&self, pins: Seq<&Pin>) -> Seq<(PinId, PinId)> {
        Seq::new(pins.len(), |i: int| (pins[i].id, self.0@[i + 1].id))
    }

    /// Connects a sequence of pins to the inputs of this gate, each pin to the input of
    /// the same index.
    pub fn connect_inputs(&self, graph: &mut Graph, pins: &[&Pin])
        requires
            old(graph).wf(),
            pins@.len() + 1 <= self.0@.len(),
            old(graph)@.can_join_pairs(self.input_pairs(pins@)),
        ensures
            final(graph).wf(),
            final(graph)@ == old(graph)@.joined_pairs(self.input_pairs(pins@)),
    {
        let ghost before = graph@;
        let ghost pairs = self.input_pairs(pins@);
        let mut i: usize = 0;
        proof {
            assert(pairs.take(0) =~= Seq::empty());
        }
        while i < pins.len()
            invariant
                i <= pins@.len(),
                pins@.len() + 1 <= self.0@.len(),
                pairs == self.input_pairs(pins@),
                before.can_join_pairs(pairs),
                graph.wf(),
                graph@ == before.joined_pairs(pairs.take(i as int)),
                graph@.len() == before.len(),
            decreases pins@.len() - i,
        {
            proof {
                before.lemma_can_join_prefix(pairs, i + 1);
                assert(pairs.take(i + 1).drop_last() =~= pairs.take(i as int));
                assert(pairs.take(i + 1).last() == pairs[i as int]);
            }
            pins[i].connect(graph, self.input_n(i));
            i = i + 1;
        }
        proof {
            assert(pairs.take(i as int) =~= pairs);
        }
    }
}

/// Creates a N-ary and gate.
///
/// After one tick, the output will be the logical and of all the inputs.
pub fn and_nary(graph: &mut Graph, name: &str, inputs: usize) -> (gate: NaryGate)
    requires
        old(graph).wf(),
        1 <= inputs < usize::MAX,
    ensures
        final(graph).wf(),
        final(graph)@ == old(graph)@.with_part(name@, nary_states(inputs as nat), Rule::AndNary),
        gate.0@.len() == inputs + 1,
        pins_placed(gate.0@, old(graph)@, final(graph)@, name@),
{
    NaryGate::new(graph, name, inputs, Updater::AndNary)
}

/// Creates a N-ary or gate.
///
/// After one tick, the output will be the logical or of all the inputs.
pub fn or_nary(graph: &mut Graph, name: &str, inputs: usize) -> (gate: NaryGate)
    requires
        old(graph).wf(),
        1 <= inputs < usize::MAX,
    ensures
        final(graph).wf(),
        final(graph)@ == old(graph)@.with_part(name@, nary_states(inputs as nat), Rule::OrNary),
        gate.0@.len() == inputs + 1,
        pins_placed(gate.0@, old(graph)@, final(graph)@, name@),
{
    NaryGate::new(graph, name, inputs, Updater::OrNary)
}

/// Creates a N-ary nand gate.
///
/// After one tick, the output will be the inverse of the logical and of all the inputs.
pub fn nand_nary(graph: &mut Graph, name: &str, inputs: usize) -> (gate: NaryGate)
    requires
        old(graph).wf(),
        1 <= inputs < usize::MAX,
    ensures
        final(graph).wf(),
        final(graph)@ == old(graph)@.with_part(name@, nary_states(inputs as nat), Rule::NandNary),
        gate.0@.len() == inputs + 1,
        pins_placed(gate.0@, old(graph)@, final(graph)@, name@),
{
    NaryGate::new(graph, name, inputs, Updater::NandNary)
}

/// Creates a N-ary nor gate.
///
/// After one tick, the output will be the inverse of the logical or of all the inputs.
pub fn nor_nary(graph: &mut Graph, name: &str, inputs: usize) -> (gate: NaryGate)
    requires
        old(graph).wf(),
        1 <= inputs < usize::MAX,
    ensures
        final(graph).wf(),
        final(graph)@ == old(graph)@.with_part(name@, nary_states(inputs as nat), Rule::NorNary),
        gate.0@.len() == inputs + 1,
        pins_placed(gate.0@, old(graph)@, final(graph)@, name@),
{
    NaryGate::new(graph, name, inputs, Updater::NorNary)
}

/// Builds the initial pin states of a bus buffer.
fn bus_state_vec(width: usize, output: PinState, extra: usize) -> (states: Vec<PinState>)
    requires
        2 * width + extra <= usize::MAX,
    ensures
        states@ == bus_states(width as nat, output, extra as nat),
{
    let mut states = vec![PinState::input(); 2 * width + extra];
    let mut i: usize = 0;
    while i < width
        invariant
            i <= width,
            states@.len() == 2 * width + extra,
            forall|j: int| 0 <= j < i ==> states@[j] == output,
            forall|j: int| i <= j < states@.len() ==> states@[j] == PinState::Input(Signal::Off),
        decreases width - i,
    {
        states[i] = output;
        i = i + 1;
    }
    assert(states@ =~= bus_states(width as nat, output, extra as nat));
    states
}

/// Represents a multi-bit buffer.
///
/// After one tick, the buffer's output signals will match its input signals.
pub struct BusBuffer(pub Vec<Pin>);

impl BusBuffer {
    /// Get input pins.
    pub fn input(&self) -> (r: &[Pin])
        ensures
            r@ == self.0@.subrange(self.0@.len() as int / 2, self.0@.len() as int),
    {
        slice_subrange(self.0.as_slice(), self.width(), self.0.len())
    }

    /// Get output pins.
    pub fn output(&self) -> (r: &[Pin])
        ensures
            r@ == self.0@.subrange(0, self.0@.len() as int / 2),
    {
        slice_subrange(self.0.as_slice(), 0, self.width())
    }

    /// Get the bit width of the buffer.
    pub fn width(&self) -> (w: usize)
        ensures
            w == self.0@.len() / 2,
    {
        self.0.len() / 2
    }

    /// Create a new buffer with the given bit width.
    pub fn new(graph: &mut Graph, name: &str, width: usize) -> (buffer: Self)
        requires
            old(graph).wf(),
            2 * width <= usize::MAX,
        ensures
            final(graph).wf(),
            final(graph)@ == old(graph)@.with_part(
                name@,
                bus_states(width as nat, PinState::Output(Signal::Error), 0),
                Rule::BusBuffer(width as nat),
            ),
            buffer.0@.len() == 2 * width,
            pins_placed(buffer.0@, old(graph)@, final(graph)@, name@),
    {
        let states = bus_state_vec(width, PinState::output(), 0);
        let pins = graph.new_part(name, states.as_slice(), Updater::BusBuffer(width));
        proof {
            graph.lemma_wf();
            lemma_pins_placed(pins@, old(graph)@, graph@, name@);
        }
        Self(pins)
    }
}

/// Represents a multi-bit tristate buffer.
///
/// After one tick, if `en` is `High`, the output signals will match the inputs.
/// Otherwise they will be `HiZ`.
pub struct BusTristate(pub Vec<Pin>);

impl BusTristate {
    /// Get the input pins.
    pub fn input(&self) -> (r: &[Pin])
        requires
            self.0@.len() >= 1,
        ensures
            r@ == self.0@.subrange((self.0@.len() - 1) / 2, 2 * ((self.0@.len() - 1) / 2)),
    {
        assert(self.0.len() <= usize::MAX);
        slice_subrange(self.0.as_slice(), self.width(), 2 * self.width())
    }

    /// Get the output pins.
    pub fn output(&self) -> (r: &[Pin])
        requires
            self.0@.len() >= 1,
        ensures
            r@ == self.0@.subrange(0, (self.0@.len() - 1) / 2),
    {
        slice_subrange(self.0.as_slice(), 0, self.width())
    }

    /// Get the enable pin.
    pub fn en(&self) -> (r: &Pin)
        requires
            self.0@.len() >= 1,
        ensures
            *r == self.0@.last(),
    {
        &self.0[self.0.len() - 1]
    }

    /// Get the bit width of the buffer.
    pub fn width(&self) -> (w: usize)
        requires
            self.0@.len() >= 1,
        ensures
            w == (self.0@.len() - 1) / 2,
    {
        (self.0.len() - 1) / 2
    }

    /// Create a new tristate buffer with the given bit width.
    pub fn new(graph: &mut Graph, name: &str, width: usize) -> (buffer: Self)
        requires
            old(graph).wf(),
            2 * width + 1 <= usize::MAX,
        ensures
            final(graph).wf(),
            final(graph)@ == old(graph)@.with_part(
                name@,
                bus_states(width as nat, PinState::HiZ, 1),
                Rule::BusTristate(width as nat),
            ),
            buffer.0@.len() == 2 * width + 1,
            pins_placed(buffer.0@, old(graph)@, final(graph)@, name@),
    {
        // outputs start disconnected
        let states = bus_state_vec(width, PinState::HiZ, 1);
        let pins = graph.new_part(name, states.as_slice(), Updater::BusTristate(width));
        proof {
            graph.lemma_wf();
            lemma_pins_placed(pins@, old(graph)@, graph@, name@);
        }
        Self(pins)
    }
}

} // verus!
