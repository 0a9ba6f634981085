//! Sequential and composite parts: the T flip-flop, the 74193 counter and a static RAM.
use crate::gate::{nand_nary, nary_states, not_gate, unary_states, UnaryGate};
use crate::graph::{Graph, GraphView, Pin, PinId, PinView};
use crate::names::{dotted, dotted_name, indexed};
use crate::part::{Rule, Updater};
use crate::signal::{PinState, Signal, ToSignal};
use core::ops::Not;
use vstd::prelude::*;

verus! {

/// The initial pin states of a T flip-flop: toggle, set and reset inputs, the output
/// low and its inverse high, and the hidden input that remembers the toggle.
pub open spec fn flip_flop_states() -> Seq<PinState> {
    seq![
        PinState::Input(Signal::Off),
        PinState::Input(Signal::Off),
        PinState::Input(Signal::Off),
        PinState::Output(Signal::Low),
        PinState::Output(Signal::High),
        PinState::Input(Signal::Off),
    ]
}

/// The handle of the pin with the given id and name.
pub open spec fn pin_at(id: nat, name: Seq<char>) -> PinView {
    PinView { id: id as usize, name }
}

/// The pins of a [`TFlipFlop`].
pub struct TFlipFlopView {
    pub toggle: PinView,
    pub set: PinView,
    pub reset: PinView,
    pub output: PinView,
    pub out_inv: PinView,
}

impl TFlipFlopView {
    /// Whether each of the five pins heads a node of the graph.
    pub open spec fn open_in(self, graph: GraphView) -> bool {
        &&& graph.heads(self.toggle.id)
        &&& graph.heads(self.set.id)
        &&& graph.heads(self.reset.id)
        &&& graph.heads(self.output.id)
        &&& graph.heads(self.out_inv.id)
    }
}

impl View for TFlipFlop {
    type V = TFlipFlopView;

    open spec fn view(&self) -> TFlipFlopView {
        TFlipFlopView {
            toggle: self.toggle@,
            set: self.set@,
            reset: self.reset@,
            output: self.output@,
            out_inv: self.out_inv@,
        }
    }
}

/// T flip-flop used for the memory of the 74193 counter.
#[derive(Debug)]
pub struct TFlipFlop {
    /// Toggle pin.
    pub toggle: Pin,
    /// Set pin.
    pub set: Pin,
    /// Reset pin.
    pub reset: Pin,
    /// Output pin.
    pub output: Pin,
    /// Inverted output pin.
    pub out_inv: Pin,
}

impl TFlipFlop {
    /// Toggle pin.
    ///
    /// Unless reset or set are high, the output changes state when the toggle changes
    /// from low to high.
    pub fn toggle(&self) -> (r: &Pin)
        ensures
            *r == self.toggle,
    {
        &self.toggle
    }

    /// Set pin.
    ///
    /// Unless reset is high, the output changes to high when set is high.
    pub fn set(&self) -> (r: &Pin)
        ensures
            *r == self.set,
    {
        &self.set
    }

    /// Reset pin.
    ///
    /// The output changes to low when reset is high.
    pub fn reset(&self) -> (r: &Pin)
        ensures
            *r == self.reset,
    {
        &self.reset
    }

    /// Output pin.
    pub fn output(&self) -> (r: &Pin)
        ensures
            *r == self.output,
    {
        &self.output
    }

    /// Inverted output pin.
    pub fn out_inv(&self) -> (r: &Pin)
        ensures
            *r == self.out_inv,
    {
        &self.out_inv
    }

    /// The pins of a flip-flop named `name` whose first pin has the id `base`.
    #[verifier::opaque]
    pub open spec fn layout(base: nat, name: Seq<char>) -> TFlipFlopView {
        TFlipFlopView {
            toggle: pin_at(base, indexed(name, 0)),
            set: pin_at(base + 1, indexed(name, 1)),
            reset: pin_at(base + 2, indexed(name, 2)),
            output: pin_at(base + 3, indexed(name, 3)),
            out_inv: pin_at(base + 4, indexed(name, 4)),
        }
    }

    /// Create a T flip-flop.
    pub fn new(graph: &mut Graph, name: &str) -> (flip_flop: Self)
        requires
            old(graph).wf(),
        ensures
            final(graph).wf(),
            final(graph)@ == old(graph)@.with_part(name@, flip_flop_states(), Rule::TFlipFlop),
            flip_flop@ == TFlipFlop::layout(old(graph)@.len(), name@),
            final(graph)@.len() == old(graph)@.len() + 6,
            final(graph)@.extends(old(graph)@),
            flip_flop@.open_in(final(graph)@),
    {
        let states = [
            PinState::input(),
            PinState::input(),
            PinState::input(),
            PinState::Output(Signal::Low),
            PinState::Output(Signal::High),
            PinState::input(),
        ];
        assert(states@ =~= flip_flop_states());
        let pins = graph.new_part(name, states.as_slice(), Updater::TFlipFlop);
        proof {
            reveal(TFlipFlop::layout);
            let g = graph@;
            let base = old(graph)@.len();
            assert(g.heads((base + 0) as usize));
            assert(g.heads((base + 1) as usize));
            assert(g.heads((base + 2) as usize));
            assert(g.heads((base + 3) as usize));
            assert(g.heads((base + 4) as usize));
        }
        Self {
            toggle: pins[Self::TOGGLE].clone(),
            set: pins[Self::SET].clone(),
            reset: pins[Self::RESET].clone(),
            output: pins[Self::OUTPUT].clone(),
            out_inv: pins[Self::OUT_INV].clone(),
        }
    }

    /// Toggle pin index.
    pub const TOGGLE: usize = 0;

    /// Set pin index.
    pub const SET: usize = 1;

    /// Reset pin index.
    pub const RESET: usize = 2;

    /// Output pin index.
    pub const OUTPUT: usize = 3;

    /// Inverted output pin index.
    pub const OUT_INV: usize = 4;

    /// Index of the hidden pin that remembers the toggle of the previous tick.
    pub const TOGGLE_PREV: usize = 5;

    /// Total number of pins in the part.
    pub const NUM_PINS: usize = 6;

    /// Whether the toggle pin shows a rising edge: `High` now, low or off one tick ago.
    pub open spec fn rising(pins: Seq<PinState>) -> bool {
        pins[0].signal() == Signal::High && pins[5].signal().lowish()
    }

    /// The output that the flip-flop takes on its next update: reset wins over set, set
    /// over a rising toggle, and without any of them the output stays.
    pub open spec fn next_output(pins: Seq<PinState>) -> Signal {
        if pins[2].signal() == Signal::High {
            Signal::Low
        } else if pins[1].signal() == Signal::High {
            Signal::High
        } else if Self::rising(pins) {
            pins[4].signal()
        } else {
            pins[3].signal()
        }
    }

    /// The pins of the flip-flop after one update: the new output, its inverse, and the
    /// current toggle pin remembered for the next tick.
    pub open spec fn next_pins(pins: Seq<PinState>) -> Seq<PinState> {
        let q = Self::next_output(pins);
        pins.update(3, PinState::Output(q)).update(4, PinState::Output(q.inverse())).update(
            5,
            pins[0],
        )
    }

    /// Part updater.
    pub fn update(pins: &mut [PinState])
        requires
            old(pins)@.len() == 6,
        ensures
            final(pins)@ == Self::next_pins(old(pins)@),
    {
        let new_q = if pins[Self::RESET].is_high() {
            Signal::Low
        } else if pins[Self::SET].is_high() {
            Signal::High
        } else if pins[Self::TOGGLE].is_high() && pins[Self::TOGGLE_PREV].is_lowish() {
            pins[Self::OUT_INV].sig()
        } else {
            pins[Self::OUTPUT].sig()
        };
        pins[Self::OUTPUT] = PinState::Output(new_q);
        pins[Self::OUT_INV] = PinState::Output(new_q.not());
        pins[Self::TOGGLE_PREV] = pins[Self::TOGGLE];
    }

    /// After every update the two outputs are complementary and the hidden pin holds
    /// the toggle pin as the update saw it.
    pub proof fn lemma_outputs_complementary(pins: Seq<PinState>)
        requires
            pins.len() == 6,
        ensures
            Self::next_pins(pins)[4] == PinState::Output(Self::next_pins(pins)[3].signal().inverse()),
            Self::next_pins(pins)[5] == pins[0],
            Self::next_pins(pins)[0] == pins[0],
            Self::next_pins(pins)[1] == pins[1],
            Self::next_pins(pins)[2] == pins[2],
    {
    }

    /// With set and reset low, one rising edge on the toggle pin inverts the output of a
    /// flip-flop whose outputs are complementary; without a rising edge it stays.
    pub proof fn lemma_toggle(pins: Seq<PinState>)
        requires
            pins.len() == 6,
            pins[1].signal() == Signal::Low,
            pins[2].signal() == Signal::Low,
            pins[4].signal() == pins[3].signal().inverse(),
        ensures
            Self::rising(pins) ==> Self::next_pins(pins)[3] == PinState::Output(
                pins[3].signal().inverse(),
            ),
            !Self::rising(pins) ==> Self::next_pins(pins)[3] == PinState::Output(pins[3].signal()),
    {
    }

    /// Reset dominates set, and both override the toggle.
    pub proof fn lemma_reset_dominates(pins: Seq<PinState>)
        requires
            pins.len() == 6,
        ensures
            pins[2].signal() == Signal::High ==> Self::next_pins(pins)[3] == PinState::Output(
                Signal::Low,
            ),
            pins[2].signal() != Signal::High && pins[1].signal() == Signal::High
                ==> Self::next_pins(pins)[3] == PinState::Output(Signal::High),
    {
    }
}

impl GraphView {
    /// The graph with the low-order cell of a 74193 counter.
    ///
    /// The cell has an input, a clear and a load pin, and a T flip-flop. The flip-flop
    /// is set by `not(use_input)` with `use_input = not(input and load and clear)`, and
    /// reset by `not(clear) or not(load_ff)` with `load_ff = not(use_input and load)`.
    #[verifier::opaque]
    pub open spec fn with_half_adder(self, name: Seq<char>) -> GraphView {
        let cell = HalfAdder::layout(self.len(), name);
        let (input, clear, load) = (cell.input, cell.clear, cell.load);
        let g0 = self.with_pin(input.name, PinState::Input(Signal::Off)).with_pin(
            clear.name,
            PinState::Input(Signal::Off),
        ).with_pin(load.name, PinState::Input(Signal::Off)).with_part(
            dotted(name, "flip_flop"@),
            flip_flop_states(),
            Rule::TFlipFlop,
        );
        let t1 = g0.and_out(input, load);
        let g1 = g0.with_and(input, load);
        let t2 = g1.and_out(t1, clear);
        let g2 = g1.with_and(t1, clear);
        let use_input = g2.not_out(t2);
        let g3 = g2.with_not(t2);
        let set = g3.not_out(use_input);
        let g4 = g3.with_not(use_input);
        let t3 = g4.and_out(use_input, load);
        let g5 = g4.with_and(use_input, load);
        let load_ff = g5.not_out(t3);
        let g6 = g5.with_not(t3);
        let n1 = g6.not_out(clear);
        let g7 = g6.with_not(clear);
        let n2 = g7.not_out(load_ff);
        let g8 = g7.with_not(load_ff);
        let reset_ff = g8.or_out(n1, n2);
        let g9 = g8.with_or(n1, n2);
        g9.joined(set.id, cell.flip_flop.set.id).joined(reset_ff.id, cell.flip_flop.reset.id)
    }
}

/// The pins of a [`HalfAdder`].
pub struct HalfAdderView {
    pub input: PinView,
    pub clear: PinView,
    pub load: PinView,
    pub flip_flop: TFlipFlopView,
}

impl HalfAdderView {
    /// Whether the pins by which the cell is wired to its surroundings each head a node
    /// of the graph: all but the set and reset pins of the flip-flop.
    pub open spec fn open_in(self, graph: GraphView) -> bool {
        &&& graph.heads(self.input.id)
        &&& graph.heads(self.clear.id)
        &&& graph.heads(self.load.id)
        &&& graph.heads(self.flip_flop.toggle.id)
        &&& graph.heads(self.flip_flop.output.id)
        &&& graph.heads(self.flip_flop.out_inv.id)
    }
}

impl View for HalfAdder {
    type V = HalfAdderView;

    open spec fn view(&self) -> HalfAdderView {
        HalfAdderView {
            input: self.input@,
            clear: self.clear@,
            load: self.load@,
            flip_flop: self.flip_flop@,
        }
    }
}

/// The low order bit memory and counting logic for the 74193.
#[derive(Debug)]
pub struct HalfAdder {
    /// Input pin.
    pub input: Pin,
    /// Clear pin.
    pub clear: Pin,
    /// Load pin.
    pub load: Pin,
    /// The flip-flop that holds the bit.
    pub flip_flop: TFlipFlop,
}

impl HalfAdder {
    /// The number of pins that a half adder adds to a graph.
    pub const NUM_PINS: usize = 31;

    /// Input pin.
    ///
    /// Data to be loaded if load occurs.
    pub fn input(&self) -> (r: &Pin)
        ensures
            *r == self.input,
    {
        &self.input
    }

    /// Clear pin.
    ///
    /// Output will reset to 0 when this is high.
    pub fn clear(&self) -> (r: &Pin)
        ensures
            *r == self.clear,
    {
        &self.clear
    }

    /// Load pin.
    ///
    /// Output will be set to the value of the input pin when this goes high.
    pub fn load(&self) -> (r: &Pin)
        ensures
            *r == self.load,
    {
        &self.load
    }

    /// Toggle pin.
    pub fn toggle(&self) -> (r: &Pin)
        ensures
            *r == self.flip_flop.toggle,
    {
        self.flip_flop.toggle()
    }

    /// Output pin.
    pub fn output(&self) -> (r: &Pin)
        ensures
            *r == self.flip_flop.output,
    {
        self.flip_flop.output()
    }

    /// Inverted output pin.
    pub fn out_inv(&self) -> (r: &Pin)
        ensures
            *r == self.flip_flop.out_inv,
    {
        self.flip_flop.out_inv()
    }

    /// The pins of a cell named `name` whose first pin has the id `base`.
    #[verifier::opaque]
    pub open spec fn layout(base: nat, name: Seq<char>) -> HalfAdderView {
        HalfAdderView {
            input: pin_at(base, dotted(name, "input"@)),
            clear: pin_at(base + 1, dotted(name, "clear"@)),
            load: pin_at(base + 2, dotted(name, "load"@)),
            flip_flop: TFlipFlop::layout(base + 3, dotted(name, "flip_flop"@)),
        }
    }

    /// Create a new half adder.
    pub fn new(graph: &mut Graph, name: &str) -> (adder: Self)
        requires
            old(graph).wf(),
        ensures
            final(graph).wf(),
            final(graph)@ == old(graph)@.with_half_adder(name@),
            final(graph)@.len() == old(graph)@.len() + 31,
            final(graph)@.extends(old(graph)@),
            adder@ == HalfAdder::layout(old(graph)@.len(), name@),
            adder@.open_in(final(graph)@),
    {
        proof {
            reveal(HalfAdder::layout);
            reveal(TFlipFlop::layout);
            reveal(GraphView::with_half_adder);
            graph.lemma_wf();
            GraphView::lemma_wiring(graph@);
        }
        let input = graph.new_input(dotted_name(name, "input").as_str());
        let clear = graph.new_input(dotted_name(name, "clear").as_str());
        let load = graph.new_input(dotted_name(name, "load").as_str());
        let flip_flop = TFlipFlop::new(graph, dotted_name(name, "flip_flop").as_str());

        let t1 = input.bitand(graph, &load);
        let t2 = t1.bitand(graph, &clear);
        let use_input = t2.not(graph);
        let set = use_input.not(graph);

        let t3 = use_input.bitand(graph, &load);
        let load_ff = t3.not(graph);
        let n1 = clear.not(graph);
        let n2 = load_ff.not(graph);
        let reset_ff = n1.bitor(graph, &n2);

        graph.connect(&set, flip_flop.set());
        graph.connect(&reset_ff, flip_flop.reset());

        Self { input, clear, load, flip_flop }
    }
}

/// The pins of a [`FullAdder`].
pub struct FullAdderView {
    pub up: PinView,
    pub down: PinView,
    pub up_cond: PinView,
    pub down_cond: PinView,
    pub half_adder: HalfAdderView,
}

impl FullAdderView {
    /// Whether the pins by which the cell is wired to its surroundings each head a node
    /// of the graph.
    pub open spec fn open_in(self, graph: GraphView) -> bool {
        &&& graph.heads(self.up.id)
        &&& graph.heads(self.down.id)
        &&& graph.heads(self.up_cond.id)
        &&& graph.heads(self.down_cond.id)
        &&& graph.heads(self.half_adder.input.id)
        &&& graph.heads(self.half_adder.clear.id)
        &&& graph.heads(self.half_adder.load.id)
        &&& graph.heads(self.half_adder.flip_flop.output.id)
        &&& graph.heads(self.half_adder.flip_flop.out_inv.id)
    }
}

impl GraphView {
    /// The graph with a higher-order cell of a 74193 counter: a half adder whose toggle
    /// is driven by `not((up and up_cond) or (down and down_cond))`.
    #[verifier::opaque]
    pub open spec fn with_full_adder(self, name: Seq<char>) -> GraphView {
        let cell = FullAdder::layout(self.len(), name);
        let g0 = self.with_pin(cell.up.name, PinState::Input(Signal::Off)).with_pin(
            cell.down.name,
            PinState::Input(Signal::Off),
        ).with_pin(cell.up_cond.name, PinState::Input(Signal::Off)).with_pin(
            cell.down_cond.name,
            PinState::Input(Signal::Off),
        ).with_half_adder(dotted(name, "half"@));
        let a1 = g0.and_out(cell.up, cell.up_cond);
        let g1 = g0.with_and(cell.up, cell.up_cond);
        let a2 = g1.and_out(cell.down, cell.down_cond);
        let g2 = g1.with_and(cell.down, cell.down_cond);
        let either = g2.or_out(a1, a2);
        let g3 = g2.with_or(a1, a2);
        let toggle = g3.not_out(either);
        let g4 = g3.with_not(either);
        g4.joined(toggle.id, cell.half_adder.flip_flop.toggle.id)
    }
}

impl View for FullAdder {
    type V = FullAdderView;

    open spec fn view(&self) -> FullAdderView {
        FullAdderView {
            up: self.up@,
            down: self.down@,
            up_cond: self.up_cond@,
            down_cond: self.down_cond@,
            half_adder: self.half_adder@,
        }
    }
}

/// The higher-order bit memory and counting logic for the 74193.
#[derive(Debug)]
pub struct FullAdder {
    /// Input up count signal.
    pub up: Pin,
    /// Input down count signal.
    pub down: Pin,
    /// Condition for when the up count should be observed.
    pub up_cond: Pin,
    /// Condition for when the down count should be observed.
    pub down_cond: Pin,
    /// The cell that holds the bit.
    pub half_adder: HalfAdder,
}

impl FullAdder {
    /// The number of pins that a full adder adds to a graph.
    pub const NUM_PINS: usize = 46;

    /// Input up count signal.
    pub fn up(&self) -> (r: &Pin)
        ensures
            *r == self.up,
    {
        &self.up
    }

    /// Input down count signal.
    pub fn down(&self) -> (r: &Pin)
        ensures
            *r == self.down,
    {
        &self.down
    }

    /// Condition for when the up count should be observed.
    pub fn up_cond(&self) -> (r: &Pin)
        ensures
            *r == self.up_cond,
    {
        &self.up_cond
    }

    /// Condition for when the down count should be observed.
    pub fn down_cond(&self) -> (r: &Pin)
        ensures
            *r == self.down_cond,
    {
        &self.down_cond
    }

    /// Input pin used for loading data.
    pub fn input(&self) -> (r: &Pin)
        ensures
            *r == self.half_adder.input,
    {
        self.half_adder.input()
    }

    /// Clear pin resets the bit to 0.
    pub fn clear(&self) -> (r: &Pin)
        ensures
            *r == self.half_adder.clear,
    {
        self.half_adder.clear()
    }

    /// Load pin causes the bit to be set to the state of `input`.
    pub fn load(&self) -> (r: &Pin)
        ensures
            *r == self.half_adder.load,
    {
        self.half_adder.load()
    }

    /// The state of the bit.
    pub fn output(&self) -> (r: &Pin)
        ensures
            *r == self.half_adder.flip_flop.output,
    {
        self.half_adder.output()
    }

    /// The inverted state of the bit.
    pub fn out_inv(&self) -> (r: &Pin)
        ensures
            *r == self.half_adder.flip_flop.out_inv,
    {
        self.half_adder.out_inv()
    }

    /// The pins of a cell named `name` whose first pin has the id `base`.
    #[verifier::opaque]
    pub open spec fn layout(base: nat, name: Seq<char>) -> FullAdderView {
        FullAdderView {
            up: pin_at(base, dotted(name, "up"@)),
            down: pin_at(base + 1, dotted(name, "down"@)),
            up_cond: pin_at(base + 2, dotted(name, "up_cond"@)),
            down_cond: pin_at(base + 3, dotted(name, "down_cond"@)),
            half_adder: HalfAdder::layout(base + 4, dotted(name, "half"@)),
        }
    }

    /// Create a new full adder.
    pub fn new(graph: &mut Graph, name: &str) -> (adder: Self)
        requires
            old(graph).wf(),
        ensures
            final(graph).wf(),
            final(graph)@ == old(graph)@.with_full_adder(name@),
            final(graph)@.len() == old(graph)@.len() + 46,
            final(graph)@.extends(old(graph)@),
            adder@ == FullAdder::layout(old(graph)@.len(), name@),
            adder@.open_in(final(graph)@),
    {
        proof {
            reveal(FullAdder::layout);
            reveal(HalfAdder::layout);
            reveal(TFlipFlop::layout);
            reveal(GraphView::with_full_adder);
            graph.lemma_wf();
            GraphView::lemma_wiring(graph@);
        }
        let adder = Self {
            up: graph.new_input(dotted_name(name, "up").as_str()),
            down: graph.new_input(dotted_name(name, "down").as_str()),
            up_cond: graph.new_input(dotted_name(name, "up_cond").as_str()),
            down_cond: graph.new_input(dotted_name(name, "down_cond").as_str()),
            half_adder: HalfAdder::new(graph, dotted_name(name, "half").as_str()),
        };

        let a1 = adder.up().bitand(graph, adder.up_cond());
        let a2 = adder.down().bitand(graph, adder.down_cond());
        let toggle = a1.bitor(graph, &a2).not(graph);

        graph.connect(&toggle, adder.half_adder.toggle());

        adder
    }
}

/// The pins of an [`Ic74193`].
pub struct Ic74193View {
    pub up: PinView,
    pub down: PinView,
    pub load_inv: PinView,
    pub clear: PinView,
    pub borrow: PinView,
    pub carry: PinView,
    pub adder1: HalfAdderView,
    pub adder2: FullAdderView,
    pub adder3: FullAdderView,
    pub adder4: FullAdderView,
}

impl Ic74193View {
    /// Whether the pins of the chip each head a node of the graph: the four controls,
    /// carry and borrow, the four inputs and the four outputs.
    #[verifier::opaque]
    pub open spec fn open_in(self, graph: GraphView) -> bool {
        &&& graph.heads(self.up.id)
        &&& graph.heads(self.down.id)
        &&& graph.heads(self.load_inv.id)
        &&& graph.heads(self.clear.id)
        &&& graph.heads(self.borrow.id)
        &&& graph.heads(self.carry.id)
        &&& graph.heads(self.adder1.input.id)
        &&& graph.heads(self.adder2.half_adder.input.id)
        &&& graph.heads(self.adder3.half_adder.input.id)
        &&& graph.heads(self.adder4.half_adder.input.id)
        &&& graph.heads(self.adder1.flip_flop.output.id)
        &&& graph.heads(self.adder2.half_adder.flip_flop.output.id)
        &&& graph.heads(self.adder3.half_adder.flip_flop.output.id)
        &&& graph.heads(self.adder4.half_adder.flip_flop.output.id)
    }
}

/// The cells of a 74193 and the not gates in front of them, as the contracts see them.
pub struct CellsView {
    /// The up pin of the chip: the input of the not gate for up.
    pub up: PinView,
    /// The inverted up signal that the cells count on.
    pub up_inv: PinView,
    /// The down pin of the chip: the input of the not gate for down.
    pub down: PinView,
    /// The inverted down signal that the cells count on.
    pub down_inv: PinView,
    /// The inverted load pin of the chip: the input of the not gate for load.
    pub load_inv: PinView,
    /// The load signal of the cells.
    pub load: PinView,
    /// The clear pin of the chip: the input of the not gate for clear.
    pub clear: PinView,
    /// The inverted clear signal of the cells.
    pub clear_inv: PinView,
    pub adder1: HalfAdderView,
    pub adder2: FullAdderView,
    pub adder3: FullAdderView,
    pub adder4: FullAdderView,
}

impl CellsView {
    /// The cells of a chip named `name` whose first pin has the id `base`.
    #[verifier::opaque]
    pub open spec fn layout(base: nat, name: Seq<char>) -> CellsView {
        CellsView {
            up: pin_at(base, indexed(dotted(name, "up_inv"@), 0)),
            up_inv: pin_at(base + 1, indexed(dotted(name, "up_inv"@), 1)),
            down: pin_at(base + 2, indexed(dotted(name, "down_inv"@), 0)),
            down_inv: pin_at(base + 3, indexed(dotted(name, "down_inv"@), 1)),
            load_inv: pin_at(base + 4, indexed(dotted(name, "load"@), 0)),
            load: pin_at(base + 5, indexed(dotted(name, "load"@), 1)),
            clear: pin_at(base + 6, indexed(dotted(name, "clear_inv"@), 0)),
            clear_inv: pin_at(base + 7, indexed(dotted(name, "clear_inv"@), 1)),
            adder1: HalfAdder::layout(base + 8, dotted(name, "adder1"@)),
            adder2: FullAdder::layout(base + 39, dotted(name, "adder2"@)),
            adder3: FullAdder::layout(base + 85, dotted(name, "adder3"@)),
            adder4: FullAdder::layout(base + 131, dotted(name, "adder4"@)),
        }
    }

    /// Whether the pins of the chip itself, those that stay open when the cells are
    /// wired up, each head a node of the graph.
    pub open spec fn chip_open_in(self, graph: GraphView) -> bool {
        &&& graph.heads(self.up.id)
        &&& graph.heads(self.down.id)
        &&& graph.heads(self.load_inv.id)
        &&& graph.heads(self.clear.id)
        &&& graph.heads(self.adder1.input.id)
        &&& graph.heads(self.adder2.half_adder.input.id)
        &&& graph.heads(self.adder3.half_adder.input.id)
        &&& graph.heads(self.adder4.half_adder.input.id)
        &&& graph.heads(self.adder1.flip_flop.output.id)
        &&& graph.heads(self.adder2.half_adder.flip_flop.output.id)
        &&& graph.heads(self.adder3.half_adder.flip_flop.output.id)
        &&& graph.heads(self.adder4.half_adder.flip_flop.output.id)
    }

    /// Whether the pins that the controls are wired to each head a node of the graph.
    pub open spec fn controls_open_in(self, graph: GraphView) -> bool {
        &&& graph.heads(self.up_inv.id)
        &&& graph.heads(self.down_inv.id)
        &&& graph.heads(self.load.id)
        &&& graph.heads(self.clear_inv.id)
        &&& graph.heads(self.adder2.up.id)
        &&& graph.heads(self.adder3.up.id)
        &&& graph.heads(self.adder4.up.id)
        &&& graph.heads(self.adder2.down.id)
        &&& graph.heads(self.adder3.down.id)
        &&& graph.heads(self.adder4.down.id)
        &&& graph.heads(self.adder1.load.id)
        &&& graph.heads(self.adder2.half_adder.load.id)
        &&& graph.heads(self.adder3.half_adder.load.id)
        &&& graph.heads(self.adder4.half_adder.load.id)
        &&& graph.heads(self.adder1.clear.id)
        &&& graph.heads(self.adder2.half_adder.clear.id)
        &&& graph.heads(self.adder3.half_adder.clear.id)
        &&& graph.heads(self.adder4.half_adder.clear.id)
    }

    /// Whether the pins that the carry chain is wired to each head a node of the graph.
    pub open spec fn chain_open_in(self, graph: GraphView) -> bool {
        &&& graph.heads(self.adder1.flip_flop.toggle.id)
        &&& graph.heads(self.adder1.flip_flop.out_inv.id)
        &&& graph.heads(self.adder2.up_cond.id)
        &&& graph.heads(self.adder2.down_cond.id)
        &&& graph.heads(self.adder2.half_adder.flip_flop.out_inv.id)
        &&& graph.heads(self.adder3.up_cond.id)
        &&& graph.heads(self.adder3.down_cond.id)
        &&& graph.heads(self.adder3.half_adder.flip_flop.out_inv.id)
        &&& graph.heads(self.adder4.up_cond.id)
        &&& graph.heads(self.adder4.down_cond.id)
        &&& graph.heads(self.adder4.half_adder.flip_flop.out_inv.id)
    }
}

impl GraphView {
    /// The graph with the cells of a 74193 and the gates in front of them: a not gate
    /// for each of up, down, load and clear, then the half adder and three full adders.
    #[verifier::opaque]
    pub open spec fn with_ic74193_cells(self, name: Seq<char>) -> GraphView {
        self.with_part(dotted(name, "up_inv"@), unary_states(), Rule::Not).with_part(
            dotted(name, "down_inv"@),
            unary_states(),
            Rule::Not,
        ).with_part(dotted(name, "load"@), unary_states(), Rule::Not).with_part(
            dotted(name, "clear_inv"@),
            unary_states(),
            Rule::Not,
        ).with_half_adder(dotted(name, "adder1"@)).with_full_adder(
            dotted(name, "adder2"@),
        ).with_full_adder(dotted(name, "adder3"@)).with_full_adder(dotted(name, "adder4"@))
    }

    /// The graph with a five-input nand gate over the pin `first` and one output of each
    /// of the four cells of a 74193: carry over the outputs, borrow over their inverses.
    #[verifier::opaque]
    pub open spec fn with_ic74193_flag(
        self,
        name: Seq<char>,
        first: PinView,
        q1: PinView,
        q2: PinView,
        q3: PinView,
        q4: PinView,
    ) -> GraphView {
        let gate = self.len();
        self.with_part(name, nary_states(5), Rule::NandNary).joined(first.id, (gate + 1) as usize).joined(
            q1.id,
            (gate + 2) as usize,
        ).joined(q2.id, (gate + 3) as usize).joined(q3.id, (gate + 4) as usize).joined(
            q4.id,
            (gate + 5) as usize,
        )
    }

    /// The graph with the carry chain of a 74193: the first cell toggles on
    /// `not(up_inv or down_inv)`; cell `k + 1` counts up on the and of all the lower
    /// outputs, and down on the and of all their inverses.
    #[verifier::opaque]
    pub open spec fn with_ic74193_chain(self, cells: CellsView) -> GraphView {
        let (q1, q2, q3) = (
            cells.adder1.flip_flop.output,
            cells.adder2.half_adder.flip_flop.output,
            cells.adder3.half_adder.flip_flop.output,
        );
        let (n1, n2, n3) = (
            cells.adder1.flip_flop.out_inv,
            cells.adder2.half_adder.flip_flop.out_inv,
            cells.adder3.half_adder.flip_flop.out_inv,
        );
        let either = self.or_out(cells.up_inv, cells.down_inv);
        let g1 = self.with_or(cells.up_inv, cells.down_inv);
        let toggle1 = g1.not_out(either);
        let g2 = g1.with_not(either).joined(toggle1.id, cells.adder1.flip_flop.toggle.id).joined(
            q1.id,
            cells.adder2.up_cond.id,
        ).joined(n1.id, cells.adder2.down_cond.id);
        let up_cond3 = g2.and_out(q1, q2);
        let g3 = g2.with_and(q1, q2);
        let down_cond3 = g3.and_out(n1, n2);
        let g4 = g3.with_and(n1, n2).joined(up_cond3.id, cells.adder3.up_cond.id).joined(
            down_cond3.id,
            cells.adder3.down_cond.id,
        );
        let up_cond4 = g4.and_out(up_cond3, q3);
        let g5 = g4.with_and(up_cond3, q3);
        let down_cond4 = g5.and_out(down_cond3, n3);
        g5.with_and(down_cond3, n3).joined(up_cond4.id, cells.adder4.up_cond.id).joined(
            down_cond4.id,
            cells.adder4.down_cond.id,
        )
    }

    /// The graph with the node of each of the pins merged into the node of `source`:
    /// the second and later pins into the node of the first, and that into `source`.
    #[verifier::opaque]
    pub open spec fn with_fan_out3(self, source: PinView, a: PinView, b: PinView, c: PinView) -> GraphView {
        self.joined(a.id, b.id).joined(a.id, c.id).joined(source.id, a.id)
    }

    /// The graph with the controls of a 74193 wired to its cells: the inverted up and
    /// down signals to the three higher cells, load and inverted clear to all four.
    #[verifier::opaque]
    pub open spec fn with_ic74193_controls(self, cells: CellsView) -> GraphView {
        self.with_fan_out3(cells.up_inv, cells.adder2.up, cells.adder3.up, cells.adder4.up).with_fan_out3(
            cells.down_inv,
            cells.adder2.down,
            cells.adder3.down,
            cells.adder4.down,
        ).joined(cells.adder1.load.id, cells.adder2.half_adder.load.id).joined(
            cells.adder1.load.id,
            cells.adder3.half_adder.load.id,
        ).joined(cells.adder1.load.id, cells.adder4.half_adder.load.id).joined(
            cells.load.id,
            cells.adder1.load.id,
        ).joined(cells.adder1.clear.id, cells.adder2.half_adder.clear.id).joined(
            cells.adder1.clear.id,
            cells.adder3.half_adder.clear.id,
        ).joined(cells.adder1.clear.id, cells.adder4.half_adder.clear.id).joined(
            cells.clear_inv.id,
            cells.adder1.clear.id,
        )
    }

    /// The graph with a 74193-equivalent 4-bit up/down counter.
    ///
    /// Up, down, load and clear each pass a not gate on their way to the cells. Carry
    /// is the nand of `not up` and the four outputs, borrow the nand of `not down` and
    /// their inverses.
    #[verifier::opaque]
    pub open spec fn with_ic74193(self, name: Seq<char>) -> GraphView {
        let cells = CellsView::layout(self.len(), name);
        self.with_ic74193_cells(name).with_ic74193_flag(
            dotted(name, "carry"@),
            cells.up_inv,
            cells.adder1.flip_flop.output,
            cells.adder2.half_adder.flip_flop.output,
            cells.adder3.half_adder.flip_flop.output,
            cells.adder4.half_adder.flip_flop.output,
        ).with_ic74193_flag(
            dotted(name, "borrow"@),
            cells.down_inv,
            cells.adder1.flip_flop.out_inv,
            cells.adder2.half_adder.flip_flop.out_inv,
            cells.adder3.half_adder.flip_flop.out_inv,
            cells.adder4.half_adder.flip_flop.out_inv,
        ).with_ic74193_chain(cells).with_ic74193_controls(cells)
    }
}

/// The cells of a 74193 and the not gates in front of them.
struct Cells {
    up_inv: UnaryGate,
    down_inv: UnaryGate,
    load: UnaryGate,
    clear_inv: UnaryGate,
    adder1: HalfAdder,
    adder2: FullAdder,
    adder3: FullAdder,
    adder4: FullAdder,
}

impl View for Cells {
    type V = CellsView;

    closed spec fn view(&self) -> CellsView {
        CellsView {
            up: self.up_inv.input@,
            up_inv: self.up_inv.output@,
            down: self.down_inv.input@,
            down_inv: self.down_inv.output@,
            load_inv: self.load.input@,
            load: self.load.output@,
            clear: self.clear_inv.input@,
            clear_inv: self.clear_inv.output@,
            adder1: self.adder1@,
            adder2: self.adder2@,
            adder3: self.adder3@,
            adder4: self.adder4@,
        }
    }
}

impl Cells {
    /// Creates the cells of a chip and the not gates in front of them.
    fn new(graph: &mut Graph, name: &str) -> (cells: Self)
        requires
            old(graph).wf(),
        ensures
            final(graph).wf(),
            final(graph)@ == old(graph)@.with_ic74193_cells(name@),
            final(graph)@.len() == old(graph)@.len() + 177,
            final(graph)@.len() <= usize::MAX,
            final(graph)@.extends(old(graph)@),
            cells@ == CellsView::layout(old(graph)@.len(), name@),
            cells@.chip_open_in(final(graph)@),
            cells@.controls_open_in(final(graph)@),
            cells@.chain_open_in(final(graph)@),
    {
        proof {
            reveal(CellsView::layout);
            reveal(GraphView::with_ic74193_cells);
            graph.lemma_wf();
            GraphView::lemma_wiring(graph@);
        }
        let up_inv = not_gate(graph, dotted_name(name, "up_inv").as_str());
        let down_inv = not_gate(graph, dotted_name(name, "down_inv").as_str());
        let load = not_gate(graph, dotted_name(name, "load").as_str());
        let clear_inv = not_gate(graph, dotted_name(name, "clear_inv").as_str());
        let adder1 = HalfAdder::new(graph, dotted_name(name, "adder1").as_str());
        let adder2 = FullAdder::new(graph, dotted_name(name, "adder2").as_str());
        let adder3 = FullAdder::new(graph, dotted_name(name, "adder3").as_str());
        let adder4 = FullAdder::new(graph, dotted_name(name, "adder4").as_str());
        proof {
            graph.lemma_wf();
        }
        Cells { up_inv, down_inv, load, clear_inv, adder1, adder2, adder3, adder4 }
    }

    /// Adds the nand gate of a flag over the pin `first` and one output of each cell.
    fn flag(
        graph: &mut Graph,
        name: &str,
        first: &Pin,
        q1: &Pin,
        q2: &Pin,
        q3: &Pin,
        q4: &Pin,
    ) -> (out: Pin)
        requires
            old(graph).wf(),
            first.id < old(graph)@.len(),
            q1.id < old(graph)@.len(),
            q2.id < old(graph)@.len(),
            q3.id < old(graph)@.len(),
            q4.id < old(graph)@.len(),
        ensures
            final(graph).wf(),
            final(graph)@ == old(graph)@.with_ic74193_flag(name@, first@, q1@, q2@, q3@, q4@),
            final(graph)@.len() == old(graph)@.len() + 6,
            final(graph)@.len() <= usize::MAX,
            final(graph)@.extends(old(graph)@),
            final(graph)@.heads(out.id),
            out@ == pin_at(old(graph)@.len(), indexed(name@, 0)),
    {
        proof {
            reveal(GraphView::with_ic74193_flag);
            graph.lemma_wf();
            GraphView::lemma_wiring(graph@);
        }
        let gate = nand_nary(graph, name, 5);
        first.connect(graph, gate.input_n(0));
        q1.connect(graph, gate.input_n(1));
        q2.connect(graph, gate.input_n(2));
        q3.connect(graph, gate.input_n(3));
        q4.connect(graph, gate.input_n(4));
        gate.output().clone()
    }

    /// Wires up the carry chain.
    fn chain(&self, graph: &mut Graph, Ghost(entry): Ghost<GraphView>, Ghost(base): Ghost<nat>, Ghost(
        name,
    ): Ghost<Seq<char>>)
        requires
            old(graph).wf(),
            entry.wf(),
            old(graph)@.extends(entry),
            entry.len() <= base,
            self@ == CellsView::layout(base, name),
            base + 177 <= old(graph)@.len(),
            self@.chip_open_in(old(graph)@),
            self@.controls_open_in(old(graph)@),
            self@.chain_open_in(old(graph)@),
        ensures
            final(graph).wf(),
            final(graph)@ == old(graph)@.with_ic74193_chain(self@),
            final(graph)@.len() == old(graph)@.len() + 17,
            final(graph)@.len() <= usize::MAX,
            final(graph)@.extends(entry),
            self@.chip_open_in(final(graph)@),
            self@.controls_open_in(final(graph)@),
            forall|p: PinId| #![trigger final(graph)@.heads(p)]
                old(graph)@.heads(p) && !(base + 8 <= p < base + 177) ==> final(graph)@.heads(p),
    {
        proof {
            reveal(CellsView::layout);
            reveal(FullAdder::layout);
            reveal(HalfAdder::layout);
            reveal(TFlipFlop::layout);
            reveal(GraphView::with_ic74193_chain);
            graph.lemma_wf();
            GraphView::lemma_wiring(graph@);
            GraphView::lemma_wiring(entry);
        }
        let toggle1 = self.up_inv.output().bitor(graph, self.down_inv.output()).not(graph);

        toggle1.connect(graph, self.adder1.toggle());

        let up_cond2 = self.adder1.output();
        let down_cond2 = self.adder1.out_inv();
        graph.connect(up_cond2, self.adder2.up_cond());
        graph.connect(down_cond2, self.adder2.down_cond());

        let up_cond3 = up_cond2.bitand(graph, self.adder2.output());
        let down_cond3 = down_cond2.bitand(graph, self.adder2.out_inv());
        graph.connect(&up_cond3, self.adder3.up_cond());
        graph.connect(&down_cond3, self.adder3.down_cond());

        let up_cond4 = up_cond3.bitand(graph, self.adder3.output());
        let down_cond4 = down_cond3.bitand(graph, self.adder3.out_inv());
        graph.connect(&up_cond4, self.adder4.up_cond());
        graph.connect(&down_cond4, self.adder4.down_cond());
        proof {
            graph.lemma_len();
        }
    }

    /// Merges the nodes of three pins into the node of `source`.
    fn fan_out3(graph: &mut Graph, Ghost(entry): Ghost<GraphView>, source: &Pin, a: &Pin, b: &Pin, c: &Pin)
        requires
            old(graph).wf(),
            entry.wf(),
            old(graph)@.extends(entry),
            entry.len() <= a.id,
            entry.len() <= b.id,
            entry.len() <= c.id,
            old(graph)@.heads(source.id),
            old(graph)@.heads(a.id),
            old(graph)@.heads(b.id),
            old(graph)@.heads(c.id),
            source.id != a.id && source.id != b.id && source.id != c.id,
            a.id != b.id && a.id != c.id && b.id != c.id,
        ensures
            final(graph).wf(),
            final(graph)@ == old(graph)@.with_fan_out3(source@, a@, b@, c@),
            final(graph)@.len() == old(graph)@.len(),
            final(graph)@.extends(entry),
            forall|p: PinId| #![trigger final(graph)@.heads(p)]
                old(graph)@.heads(p) && p != a.id && p != b.id && p != c.id ==> final(graph)@.heads(p),
    {
        proof {
            reveal(GraphView::with_fan_out3);
            GraphView::lemma_wiring(entry);
        }
        graph.connect(a, b);
        graph.connect(a, c);
        graph.connect(source, a);
    }

    /// Wires the controls of the chip to its cells.
    fn controls(&self, graph: &mut Graph, Ghost(entry): Ghost<GraphView>, Ghost(base): Ghost<nat>, Ghost(
        name,
    ): Ghost<Seq<char>>)
        requires
            old(graph).wf(),
            entry.wf(),
            old(graph)@.extends(entry),
            entry.len() <= base,
            self@ == CellsView::layout(base, name),
            base + 177 <= old(graph)@.len(),
            old(graph)@.len() <= usize::MAX,
            self@.controls_open_in(old(graph)@),
        ensures
            final(graph).wf(),
            final(graph)@ == old(graph)@.with_ic74193_controls(self@),
            final(graph)@.len() == old(graph)@.len(),
            final(graph)@.extends(entry),
            forall|p: PinId| #![trigger final(graph)@.heads(p)]
                old(graph)@.heads(p) && !(base + 8 <= p < base + 177 && !self@.chip_pin(p))
                    ==> final(graph)@.heads(p),
    {
        proof {
            reveal(CellsView::layout);
            reveal(FullAdder::layout);
            reveal(HalfAdder::layout);
            reveal(TFlipFlop::layout);
            reveal(GraphView::with_ic74193_controls);
            GraphView::lemma_wiring(entry);
        }
        // Every cell above the first counts on the same inverted up and down signals.
        Self::fan_out3(
            graph,
            Ghost(entry),
            self.up_inv.output(),
            self.adder2.up(),
            self.adder3.up(),
            self.adder4.up(),
        );
        Self::fan_out3(
            graph,
            Ghost(entry),
            self.down_inv.output(),
            self.adder2.down(),
            self.adder3.down(),
            self.adder4.down(),
        );
        // All four cells load and clear together.
        graph.connect(self.adder1.load(), self.adder2.load());
        graph.connect(self.adder1.load(), self.adder3.load());
        graph.connect(self.adder1.load(), self.adder4.load());
        graph.connect(self.load.output(), self.adder1.load());

        graph.connect(self.adder1.clear(), self.adder2.clear());
        graph.connect(self.adder1.clear(), self.adder3.clear());
        graph.connect(self.adder1.clear(), self.adder4.clear());
        graph.connect(self.clear_inv.output(), self.adder1.clear());
    }
}

impl CellsView {
    /// Whether `p` is one of the inputs or outputs of the four cells.
    pub open spec fn chip_pin(self, p: PinId) -> bool {
        ||| p == self.adder1.input.id
        ||| p == self.adder2.half_adder.input.id
        ||| p == self.adder3.half_adder.input.id
        ||| p == self.adder4.half_adder.input.id
        ||| p == self.adder1.flip_flop.output.id
        ||| p == self.adder2.half_adder.flip_flop.output.id
        ||| p == self.adder3.half_adder.flip_flop.output.id
        ||| p == self.adder4.half_adder.flip_flop.output.id
    }
}

impl View for Ic74193 {
    type V = Ic74193View;

    #[verifier::opaque]
    open spec fn view(&self) -> Ic74193View {
        Ic74193View {
            up: self.up@,
            down: self.down@,
            load_inv: self.load_inv@,
            clear: self.clear@,
            borrow: self.borrow@,
            carry: self.carry@,
            adder1: self.adder1@,
            adder2: self.adder2@,
            adder3: self.adder3@,
            adder4: self.adder4@,
        }
    }
}

/// Implementation of the 74193 chip, a 4-bit up/down counter.
pub struct Ic74193 {
    /// Input up count signal.
    pub up: Pin,
    /// Input down count signal.
    pub down: Pin,
    /// Input inverted load signal.
    pub load_inv: Pin,
    /// Clear signal.
    pub clear: Pin,
    /// Borrow output.
    pub borrow: Pin,
    /// Carry output.
    pub carry: Pin,
    /// The cell of the lowest bit.
    pub adder1: HalfAdder,
    /// The cell of the second bit.
    pub adder2: FullAdder,
    /// The cell of the third bit.
    pub adder3: FullAdder,
    /// The cell of the highest bit.
    pub adder4: FullAdder,
}

impl Ic74193 {
    /// The number of pins that the chip adds to a graph.
    pub const NUM_PINS: usize = 206;

    /// Input up count signal.
    ///
    /// Normally high; when transitioning to high, causes the counter to increase by one.
    pub fn up(&self) -> (r: &Pin)
        ensures
            *r == self.up,
            r@ == self@.up,
    {
        proof {
            reveal(<Ic74193 as View>::view);
        }
        &self.up
    }

    /// Input down count signal.
    ///
    /// Normally held high. When transitioning to high (after going low), causes the
    /// counter to count down.
    pub fn down(&self) -> (r: &Pin)
        ensures
            *r == self.down,
            r@ == self@.down,
    {
        proof {
            reveal(<Ic74193 as View>::view);
        }
        &self.down
    }

    /// Input inverted load signal.
    ///
    /// When brought low, the data in the counter is set to the value on the inputs.
    pub fn load_inv(&self) -> (r: &Pin)
        ensures
            *r == self.load_inv,
            r@ == self@.load_inv,
    {
        proof {
            reveal(<Ic74193 as View>::view);
        }
        &self.load_inv
    }

    /// Clear signal.
    ///
    /// When high, the data in the counter is reset to 0.
    pub fn clear(&self) -> (r: &Pin)
        ensures
            *r == self.clear,
            r@ == self@.clear,
    {
        proof {
            reveal(<Ic74193 as View>::view);
        }
        &self.clear
    }

    /// The input pins (d1-d4).
    pub fn input(&self) -> (r: [&Pin; 4])
        ensures
            *r@[0] == self.adder1.input,
            *r@[1] == self.adder2.half_adder.input,
            *r@[2] == self.adder3.half_adder.input,
            *r@[3] == self.adder4.half_adder.input,
    {
        [self.in1(), self.in2(), self.in3(), self.in4()]
    }

    /// Input pin 1 (d1).
    pub fn in1(&self) -> (r: &Pin)
        ensures
            *r == self.adder1.input,
            r@ == self@.adder1.input,
    {
        proof {
            reveal(<Ic74193 as View>::view);
        }
        self.adder1.input()
    }

    /// Input pin 2 (d2).
    pub fn in2(&self) -> (r: &Pin)
        ensures
            *r == self.adder2.half_adder.input,
            r@ == self@.adder2.half_adder.input,
    {
        proof {
            reveal(<Ic74193 as View>::view);
        }
        self.adder2.input()
    }

    /// Input pin 3 (d3).
    pub fn in3(&self) -> (r: &Pin)
        ensures
            *r == self.adder3.half_adder.input,
            r@ == self@.adder3.half_adder.input,
    {
        proof {
            reveal(<Ic74193 as View>::view);
        }
        self.adder3.input()
    }

    /// Input pin 4 (d4).
    pub fn in4(&self) -> (r: &Pin)
        ensures
            *r == self.adder4.half_adder.input,
            r@ == self@.adder4.half_adder.input,
    {
        proof {
            reveal(<Ic74193 as View>::view);
        }
        self.adder4.input()
    }

    /// Carry output.
    ///
    /// Normally high. If the counter is 15, transitions to low, then high, following
    /// the up signal.
    pub fn carry(&self) -> (r: &Pin)
        ensures
            *r == self.carry,
            r@ == self@.carry,
    {
        proof {
            reveal(<Ic74193 as View>::view);
        }
        &self.carry
    }

    /// Borrow output.
    ///
    /// Normally high. If the counter is 0, transitions to low, then high, following the
    /// down signal.
    pub fn borrow(&self) -> (r: &Pin)
        ensures
            *r == self.borrow,
            r@ == self@.borrow,
    {
        proof {
            reveal(<Ic74193 as View>::view);
        }
        &self.borrow
    }

    /// The output pins (q1-q4).
    pub fn output(&self) -> (r: [&Pin; 4])
        ensures
            *r@[0] == self.adder1.flip_flop.output,
            *r@[1] == self.adder2.half_adder.flip_flop.output,
            *r@[2] == self.adder3.half_adder.flip_flop.output,
            *r@[3] == self.adder4.half_adder.flip_flop.output,
    {
        [self.out1(), self.out2(), self.out3(), self.out4()]
    }

    /// Output pin 1 (q1).
    pub fn out1(&self) -> (r: &Pin)
        ensures
            *r == self.adder1.flip_flop.output,
            r@ == self@.adder1.flip_flop.output,
    {
        proof {
            reveal(<Ic74193 as View>::view);
        }
        self.adder1.output()
    }

    /// Output pin 2 (q2).
    pub fn out2(&self) -> (r: &Pin)
        ensures
            *r == self.adder2.half_adder.flip_flop.output,
            r@ == self@.adder2.half_adder.flip_flop.output,
    {
        proof {
            reveal(<Ic74193 as View>::view);
        }
        self.adder2.output()
    }

    /// Output pin 3 (q3).
    pub fn out3(&self) -> (r: &Pin)
        ensures
            *r == self.adder3.half_adder.flip_flop.output,
            r@ == self@.adder3.half_adder.flip_flop.output,
    {
        proof {
            reveal(<Ic74193 as View>::view);
        }
        self.adder3.output()
    }

    /// Output pin 4 (q4).
    pub fn out4(&self) -> (r: &Pin)
        ensures
            *r == self.adder4.half_adder.flip_flop.output,
            r@ == self@.adder4.half_adder.flip_flop.output,
    {
        proof {
            reveal(<Ic74193 as View>::view);
        }
        self.adder4.output()
    }

    /// The pins of a chip named `name` whose first pin has the id `base`.
    #[verifier::opaque]
    pub open spec fn layout(base: nat, name: Seq<char>) -> Ic74193View {
        let cells = CellsView::layout(base, name);
        Ic74193View {
            up: cells.up,
            down: cells.down,
            load_inv: cells.load_inv,
            clear: cells.clear,
            carry: pin_at(base + 177, indexed(dotted(name, "carry"@), 0)),
            borrow: pin_at(base + 183, indexed(dotted(name, "borrow"@), 0)),
            adder1: cells.adder1,
            adder2: cells.adder2,
            adder3: cells.adder3,
            adder4: cells.adder4,
        }
    }

    /// Create a new Ic74193.
    pub fn new(graph: &mut Graph, name: &str) -> (ic: Self)
        requires
            old(graph).wf(),
        ensures
            final(graph).wf(),
            final(graph)@ == old(graph)@.with_ic74193(name@),
            final(graph)@.len() == old(graph)@.len() + 206,
            final(graph)@.extends(old(graph)@),
            ic@ == Ic74193::layout(old(graph)@.len(), name@),
            ic@.open_in(final(graph)@),
            ic@.pins_at(old(graph)@.len()),
    {
        let ghost entry = graph@;
        let ghost base = graph@.len();
        proof {
            reveal(<Ic74193 as View>::view);
            reveal(Ic74193View::open_in);
            reveal(Ic74193View::data_open_in);
            reveal(Counter8BitView::open_in);
            reveal(Counter16BitView::open_in);
            reveal(Ic74193View::pins_at);
            reveal(Ic74193::layout);
            reveal(CellsView::layout);
            reveal(FullAdder::layout);
            reveal(HalfAdder::layout);
            reveal(TFlipFlop::layout);
            reveal(GraphView::with_ic74193);
            graph.lemma_wf();
            GraphView::lemma_wiring(entry);
        }
        let cells = Cells::new(graph, name);

        let carry = Cells::flag(
            graph,
            dotted_name(name, "carry").as_str(),
            cells.up_inv.output(),
            cells.adder1.output(),
            cells.adder2.output(),
            cells.adder3.output(),
            cells.adder4.output(),
        );
        let borrow = Cells::flag(
            graph,
            dotted_name(name, "borrow").as_str(),
            cells.down_inv.output(),
            cells.adder1.out_inv(),
            cells.adder2.out_inv(),
            cells.adder3.out_inv(),
            cells.adder4.out_inv(),
        );

        cells.chain(graph, Ghost(entry), Ghost(base), Ghost(name@));
        cells.controls(graph, Ghost(entry), Ghost(base), Ghost(name@));

        Self {
            up: cells.up_inv.input,
            down: cells.down_inv.input,
            load_inv: cells.load.input,
            clear: cells.clear_inv.input,
            carry,
            borrow,
            adder1: cells.adder1,
            adder2: cells.adder2,
            adder3: cells.adder3,
            adder4: cells.adder4,
        }
    }
}

/// The pins of a [`Counter8Bit`].
pub struct Counter8BitView {
    pub counter1: Ic74193View,
    pub counter2: Ic74193View,
}

impl Ic74193View {
    /// The inputs and outputs of a chip head their nodes in every extension of a graph
    /// in which they do.
    pub proof fn lemma_data_open_extends(self, earlier: GraphView, later: GraphView)
        requires
            later.extends(earlier),
            self.data_open_in(earlier),
        ensures
            self.data_open_in(later),
    {
        reveal(Ic74193View::data_open_in);
        reveal(GraphView::heads);
        later.lemma_extends_pin(earlier, self.adder1.input.id);
        later.lemma_extends_pin(earlier, self.adder2.half_adder.input.id);
        later.lemma_extends_pin(earlier, self.adder3.half_adder.input.id);
        later.lemma_extends_pin(earlier, self.adder4.half_adder.input.id);
        later.lemma_extends_pin(earlier, self.adder1.flip_flop.output.id);
        later.lemma_extends_pin(earlier, self.adder2.half_adder.flip_flop.output.id);
        later.lemma_extends_pin(earlier, self.adder3.half_adder.flip_flop.output.id);
        later.lemma_extends_pin(earlier, self.adder4.half_adder.flip_flop.output.id);
    }
}

impl Counter8BitView {
    /// The pins of a counter head their nodes in every extension of a graph in which
    /// they do.
    pub proof fn lemma_open_extends(self, earlier: GraphView, later: GraphView)
        requires
            later.extends(earlier),
            self.open_in(earlier),
        ensures
            self.open_in(later),
    {
        reveal(Counter8BitView::open_in);
        reveal(GraphView::heads);
        later.lemma_extends_pin(earlier, self.counter1.up.id);
        later.lemma_extends_pin(earlier, self.counter1.down.id);
        later.lemma_extends_pin(earlier, self.counter1.load_inv.id);
        later.lemma_extends_pin(earlier, self.counter1.clear.id);
        later.lemma_extends_pin(earlier, self.counter2.borrow.id);
        later.lemma_extends_pin(earlier, self.counter2.carry.id);
        self.counter1.lemma_data_open_extends(earlier, later);
        self.counter2.lemma_data_open_extends(earlier, later);
    }

    /// Whether the pins of the counter each head a node of the graph: the four
    /// controls, carry and borrow, the eight inputs and the eight outputs.
    #[verifier::opaque]
    pub open spec fn open_in(self, graph: GraphView) -> bool {
        &&& graph.heads(self.counter1.up.id)
        &&& graph.heads(self.counter1.down.id)
        &&& graph.heads(self.counter1.load_inv.id)
        &&& graph.heads(self.counter1.clear.id)
        &&& graph.heads(self.counter2.borrow.id)
        &&& graph.heads(self.counter2.carry.id)
        &&& self.counter1.data_open_in(graph)
        &&& self.counter2.data_open_in(graph)
    }
}

impl Ic74193View {
    /// Whether the pins of the chip have the ids of a chip whose first pin has the id
    /// `base`.
    #[verifier::opaque]
    pub open spec fn pins_at(self, base: nat) -> bool {
        &&& self.up.id == base
        &&& self.down.id == base + 2
        &&& self.load_inv.id == base + 4
        &&& self.clear.id == base + 6
        &&& self.carry.id == base + 177
        &&& self.borrow.id == base + 183
        &&& self.adder1.input.id == base + 8
        &&& self.adder2.half_adder.input.id == base + 43
        &&& self.adder3.half_adder.input.id == base + 89
        &&& self.adder4.half_adder.input.id == base + 135
        &&& self.adder1.flip_flop.output.id == base + 14
        &&& self.adder2.half_adder.flip_flop.output.id == base + 49
        &&& self.adder3.half_adder.flip_flop.output.id == base + 95
        &&& self.adder4.half_adder.flip_flop.output.id == base + 141
    }

    /// Whether the four inputs and the four outputs each head a node of the graph.
    #[verifier::opaque]
    pub open spec fn data_open_in(self, graph: GraphView) -> bool {
        &&& graph.heads(self.adder1.input.id)
        &&& graph.heads(self.adder2.half_adder.input.id)
        &&& graph.heads(self.adder3.half_adder.input.id)
        &&& graph.heads(self.adder4.half_adder.input.id)
        &&& graph.heads(self.adder1.flip_flop.output.id)
        &&& graph.heads(self.adder2.half_adder.flip_flop.output.id)
        &&& graph.heads(self.adder3.half_adder.flip_flop.output.id)
        &&& graph.heads(self.adder4.half_adder.flip_flop.output.id)
    }
}

impl GraphView {
    /// The graph with the four connections that chain a counter to the next higher one:
    /// carry to up, borrow to down, and inverted load and clear shared.
    #[verifier::opaque]
    pub open spec fn with_counters_chained(
        self,
        carry: PinView,
        borrow: PinView,
        load_inv: PinView,
        clear: PinView,
        next: Ic74193View,
    ) -> GraphView {
        self.joined(carry.id, next.up.id).joined(borrow.id, next.down.id).joined(
            load_inv.id,
            next.load_inv.id,
        ).joined(clear.id, next.clear.id)
    }

    /// The graph with an 8-bit counter made of a pair of 74193s.
    #[verifier::opaque]
    pub open spec fn with_counter8(self, name: Seq<char>) -> GraphView {
        let pins = Counter8Bit::layout(self.len(), name);
        self.with_ic74193(dotted(name, "counter1"@)).with_ic74193(
            dotted(name, "counter2"@),
        ).with_counters_chained(
            pins.counter1.carry,
            pins.counter1.borrow,
            pins.counter1.load_inv,
            pins.counter1.clear,
            pins.counter2,
        )
    }

    /// The graph with a 16-bit counter made of a pair of 8-bit counters.
    #[verifier::opaque]
    pub open spec fn with_counter16(self, name: Seq<char>) -> GraphView {
        let pins = Counter16Bit::layout(self.len(), name);
        self.with_counter8(dotted(name, "counter1"@)).with_counter8(
            dotted(name, "counter2"@),
        ).with_counters_chained(
            pins.counter1.counter2.carry,
            pins.counter1.counter2.borrow,
            pins.counter1.counter1.load_inv,
            pins.counter1.counter1.clear,
            pins.counter2.counter1,
        )
    }
}

/// Chains a counter to the next higher one.
fn chain_counters(
    graph: &mut Graph,
    Ghost(entry): Ghost<GraphView>,
    carry: &Pin,
    borrow: &Pin,
    load_inv: &Pin,
    clear: &Pin,
    next: &Ic74193,
)
    requires
        old(graph).wf(),
        entry.wf(),
        old(graph)@.extends(entry),
        entry.len() <= next.up.id,
        entry.len() <= next.down.id,
        entry.len() <= next.load_inv.id,
        entry.len() <= next.clear.id,
        old(graph)@.heads(carry.id),
        old(graph)@.heads(borrow.id),
        old(graph)@.heads(load_inv.id),
        old(graph)@.heads(clear.id),
        old(graph)@.heads(next.up.id),
        old(graph)@.heads(next.down.id),
        old(graph)@.heads(next.load_inv.id),
        old(graph)@.heads(next.clear.id),
        carry.id != next.up.id && carry.id != next.down.id && carry.id != next.load_inv.id
            && carry.id != next.clear.id,
        borrow.id != next.up.id && borrow.id != next.down.id && borrow.id != next.load_inv.id
            && borrow.id != next.clear.id,
        load_inv.id != next.up.id && load_inv.id != next.down.id && load_inv.id
            != next.load_inv.id && load_inv.id != next.clear.id,
        clear.id != next.up.id && clear.id != next.down.id && clear.id != next.load_inv.id
            && clear.id != next.clear.id,
        next.up.id != next.down.id && next.up.id != next.load_inv.id && next.up.id != next.clear.id,
        next.down.id != next.load_inv.id && next.down.id != next.clear.id,
        next.load_inv.id != next.clear.id,
    ensures
        final(graph).wf(),
        final(graph)@ == old(graph)@.with_counters_chained(carry@, borrow@, load_inv@, clear@, next@),
        final(graph)@.len() == old(graph)@.len(),
        final(graph)@.extends(entry),
        forall|p: PinId| #![trigger final(graph)@.heads(p)]
            old(graph)@.heads(p) && p != next.up.id && p != next.down.id && p != next.load_inv.id && p
                != next.clear.id ==> final(graph)@.heads(p),
{
    proof {
        reveal(<Ic74193 as View>::view);
        reveal(GraphView::with_counters_chained);
        GraphView::lemma_wiring(entry);
    }
    graph.connect(carry, next.up());
    graph.connect(borrow, next.down());
    graph.connect(load_inv, next.load_inv());
    graph.connect(clear, next.clear());
}

impl View for Counter8Bit {
    type V = Counter8BitView;

    #[verifier::opaque]
    open spec fn view(&self) -> Counter8BitView {
        Counter8BitView { counter1: self.counter1@, counter2: self.counter2@ }
    }
}

/// 8-bit counter made of a pair of 74193s.
pub struct Counter8Bit {
    /// The chip of the low four bits.
    pub counter1: Ic74193,
    /// The chip of the high four bits.
    pub counter2: Ic74193,
}

impl Counter8Bit {
    /// The number of pins that the counter adds to a graph.
    pub const NUM_PINS: usize = 412;

    /// Input pins for loading new data.
    pub fn input(&self) -> (r: [&Pin; 8])
        ensures
            *r@[0] == self.counter1.adder1.input,
            *r@[1] == self.counter1.adder2.half_adder.input,
            *r@[2] == self.counter1.adder3.half_adder.input,
            *r@[3] == self.counter1.adder4.half_adder.input,
            *r@[4] == self.counter2.adder1.input,
            *r@[5] == self.counter2.adder2.half_adder.input,
            *r@[6] == self.counter2.adder3.half_adder.input,
            *r@[7] == self.counter2.adder4.half_adder.input,
    {
        [
            self.counter1.in1(),
            self.counter1.in2(),
            self.counter1.in3(),
            self.counter1.in4(),
            self.counter2.in1(),
            self.counter2.in2(),
            self.counter2.in3(),
            self.counter2.in4(),
        ]
    }

    /// Count up signal.
    pub fn up(&self) -> (r: &Pin)
        ensures
            *r == self.counter1.up,
            r@ == self@.counter1.up,
    {
        proof {
            reveal(<Counter8Bit as View>::view);
            reveal(<Ic74193 as View>::view);
        }
        self.counter1.up()
    }

    /// Count down signal.
    pub fn down(&self) -> (r: &Pin)
        ensures
            *r == self.counter1.down,
            r@ == self@.counter1.down,
    {
        proof {
            reveal(<Counter8Bit as View>::view);
            reveal(<Ic74193 as View>::view);
        }
        self.counter1.down()
    }

    /// Inverted load signal.
    pub fn load_inv(&self) -> (r: &Pin)
        ensures
            *r == self.counter1.load_inv,
            r@ == self@.counter1.load_inv,
    {
        proof {
            reveal(<Counter8Bit as View>::view);
            reveal(<Ic74193 as View>::view);
        }
        self.counter1.load_inv()
    }

    /// Clear signal.
    pub fn clear(&self) -> (r: &Pin)
        ensures
            *r == self.counter1.clear,
            r@ == self@.counter1.clear,
    {
        proof {
            reveal(<Counter8Bit as View>::view);
            reveal(<Ic74193 as View>::view);
        }
        self.counter1.clear()
    }

    /// Output data.
    pub fn output(&self) -> (r: [&Pin; 8])
        ensures
            *r@[0] == self.counter1.adder1.flip_flop.output,
            *r@[1] == self.counter1.adder2.half_adder.flip_flop.output,
            *r@[2] == self.counter1.adder3.half_adder.flip_flop.output,
            *r@[3] == self.counter1.adder4.half_adder.flip_flop.output,
            *r@[4] == self.counter2.adder1.flip_flop.output,
            *r@[5] == self.counter2.adder2.half_adder.flip_flop.output,
            *r@[6] == self.counter2.adder3.half_adder.flip_flop.output,
            *r@[7] == self.counter2.adder4.half_adder.flip_flop.output,
    {
        [
            self.counter1.out1(),
            self.counter1.out2(),
            self.counter1.out3(),
            self.counter1.out4(),
            self.counter2.out1(),
            self.counter2.out2(),
            self.counter2.out3(),
            self.counter2.out4(),
        ]
    }

    /// Output carry.
    pub fn carry(&self) -> (r: &Pin)
        ensures
            *r == self.counter2.carry,
            r@ == self@.counter2.carry,
    {
        proof {
            reveal(<Counter8Bit as View>::view);
            reveal(<Ic74193 as View>::view);
        }
        self.counter2.carry()
    }

    /// Output borrow.
    pub fn borrow(&self) -> (r: &Pin)
        ensures
            *r == self.counter2.borrow,
            r@ == self@.counter2.borrow,
    {
        proof {
            reveal(<Counter8Bit as View>::view);
            reveal(<Ic74193 as View>::view);
        }
        self.counter2.borrow()
    }

    /// The pins of a counter named `name` whose first pin has the id `base`.
    #[verifier::opaque]
    pub open spec fn layout(base: nat, name: Seq<char>) -> Counter8BitView {
        Counter8BitView {
            counter1: Ic74193::layout(base, dotted(name, "counter1"@)),
            counter2: Ic74193::layout(base + 206, dotted(name, "counter2"@)),
        }
    }

    /// Create a new Counter8Bit.
    pub fn new(graph: &mut Graph, name: &str) -> (counter: Self)
        requires
            old(graph).wf(),
        ensures
            final(graph).wf(),
            final(graph)@ == old(graph)@.with_counter8(name@),
            final(graph)@.len() == old(graph)@.len() + 412,
            final(graph)@.extends(old(graph)@),
            counter@ == Counter8Bit::layout(old(graph)@.len(), name@),
            counter@.open_in(final(graph)@),
            counter@.counter1.pins_at(old(graph)@.len()),
            counter@.counter2.pins_at(old(graph)@.len() + 206),
    {
        let ghost entry = graph@;
        proof {
            reveal(<Ic74193 as View>::view);
            reveal(<Counter8Bit as View>::view);
            reveal(Ic74193View::open_in);
            reveal(Ic74193View::data_open_in);
            reveal(Counter8BitView::open_in);
            reveal(Counter16BitView::open_in);
            reveal(Ic74193View::pins_at);
            reveal(Counter8Bit::layout);
            reveal(GraphView::with_counter8);
            graph.lemma_wf();
            GraphView::lemma_wiring(entry);
        }
        let counter1 = Ic74193::new(graph, dotted_name(name, "counter1").as_str());
        let counter2 = Ic74193::new(graph, dotted_name(name, "counter2").as_str());
        proof {
            graph.lemma_len();
        }

        chain_counters(
            graph,
            Ghost(entry),
            counter1.carry(),
            counter1.borrow(),
            counter1.load_inv(),
            counter1.clear(),
            &counter2,
        );

        Self { counter1, counter2 }
    }
}

/// The pins of a [`Counter16Bit`].
pub struct Counter16BitView {
    pub counter1: Counter8BitView,
    pub counter2: Counter8BitView,
}

impl Counter16BitView {
    /// The pins of a counter head their nodes in every extension of a graph in which
    /// they do.
    pub proof fn lemma_open_extends(self, earlier: GraphView, later: GraphView)
        requires
            later.extends(earlier),
            self.open_in(earlier),
        ensures
            self.open_in(later),
    {
        reveal(Counter16BitView::open_in);
        reveal(GraphView::heads);
        later.lemma_extends_pin(earlier, self.counter1.counter1.up.id);
        later.lemma_extends_pin(earlier, self.counter1.counter1.down.id);
        later.lemma_extends_pin(earlier, self.counter1.counter1.load_inv.id);
        later.lemma_extends_pin(earlier, self.counter1.counter1.clear.id);
        later.lemma_extends_pin(earlier, self.counter2.counter2.borrow.id);
        later.lemma_extends_pin(earlier, self.counter2.counter2.carry.id);
        self.counter1.counter1.lemma_data_open_extends(earlier, later);
        self.counter1.counter2.lemma_data_open_extends(earlier, later);
        self.counter2.counter1.lemma_data_open_extends(earlier, later);
        self.counter2.counter2.lemma_data_open_extends(earlier, later);
    }

    /// Whether the pins of the counter each head a node of the graph: the four
    /// controls, carry and borrow, the sixteen inputs and the sixteen outputs.
    #[verifier::opaque]
    pub open spec fn open_in(self, graph: GraphView) -> bool {
        &&& graph.heads(self.counter1.counter1.up.id)
        &&& graph.heads(self.counter1.counter1.down.id)
        &&& graph.heads(self.counter1.counter1.load_inv.id)
        &&& graph.heads(self.counter1.counter1.clear.id)
        &&& graph.heads(self.counter2.counter2.borrow.id)
        &&& graph.heads(self.counter2.counter2.carry.id)
        &&& self.counter1.counter1.data_open_in(graph)
        &&& self.counter1.counter2.data_open_in(graph)
        &&& self.counter2.counter1.data_open_in(graph)
        &&& self.counter2.counter2.data_open_in(graph)
    }
}

impl View for Counter16Bit {
    type V = Counter16BitView;

    #[verifier::opaque]
    open spec fn view(&self) -> Counter16BitView {
        Counter16BitView { counter1: self.counter1@, counter2: self.counter2@ }
    }
}

/// A 16-bit counter built from 74193s.
pub struct Counter16Bit {
    /// The counter of the low eight bits.
    pub counter1: Counter8Bit,
    /// The counter of the high eight bits.
    pub counter2: Counter8Bit,
}

impl Counter16Bit {
    /// The number of pins that the counter adds to a graph.
    pub const NUM_PINS: usize = 824;

    /// Input bits for loading data.
    pub fn input(&self) -> (r: [&Pin; 16])
        ensures
            forall|i: int| 0 <= i < 8 ==> r@[i] == #[trigger] self.counter1.spec_input()[i],
            forall|i: int| 0 <= i < 8 ==> r@[i + 8] == #[trigger] self.counter2.spec_input()[i],
    {
        let low = self.counter1.input();
        let high = self.counter2.input();
        [
            low[0],
            low[1],
            low[2],
            low[3],
            low[4],
            low[5],
            low[6],
            low[7],
            high[0],
            high[1],
            high[2],
            high[3],
            high[4],
            high[5],
            high[6],
            high[7],
        ]
    }

    /// Count up signal.
    pub fn up(&self) -> (r: &Pin)
        ensures
            *r == self.counter1.counter1.up,
            r@ == self@.counter1.counter1.up,
    {
        proof {
            reveal(<Counter16Bit as View>::view);
            reveal(<Counter8Bit as View>::view);
            reveal(<Ic74193 as View>::view);
        }
        self.counter1.up()
    }

    /// Count down signal.
    pub fn down(&self) -> (r: &Pin)
        ensures
            *r == self.counter1.counter1.down,
            r@ == self@.counter1.counter1.down,
    {
        proof {
            reveal(<Counter16Bit as View>::view);
            reveal(<Counter8Bit as View>::view);
            reveal(<Ic74193 as View>::view);
        }
        self.counter1.down()
    }

    /// Inverted load signal.
    pub fn load_inv(&self) -> (r: &Pin)
        ensures
            *r == self.counter1.counter1.load_inv,
            r@ == self@.counter1.counter1.load_inv,
    {
        proof {
            reveal(<Counter16Bit as View>::view);
            reveal(<Counter8Bit as View>::view);
            reveal(<Ic74193 as View>::view);
        }
        self.counter1.load_inv()
    }

    /// Clear signal.
    pub fn clear(&self) -> (r: &Pin)
        ensures
            *r == self.counter1.counter1.clear,
            r@ == self@.counter1.counter1.clear,
    {
        proof {
            reveal(<Counter16Bit as View>::view);
            reveal(<Counter8Bit as View>::view);
            reveal(<Ic74193 as View>::view);
        }
        self.counter1.clear()
    }

    /// Output pins.
    pub fn output(&self) -> (r: [&Pin; 16])
        ensures
            forall|i: int| 0 <= i < 8 ==> r@[i] == #[trigger] self.counter1.spec_output()[i],
            forall|i: int| 0 <= i < 8 ==> r@[i + 8] == #[trigger] self.counter2.spec_output()[i],
    {
        let low = self.counter1.output();
        let high = self.counter2.output();
        [
            low[0],
            low[1],
            low[2],
            low[3],
            low[4],
            low[5],
            low[6],
            low[7],
            high[0],
            high[1],
            high[2],
            high[3],
            high[4],
            high[5],
            high[6],
            high[7],
        ]
    }

    /// Output carry.
    pub fn carry(&self) -> (r: &Pin)
        ensures
            *r == self.counter2.counter2.carry,
            r@ == self@.counter2.counter2.carry,
    {
        proof {
            reveal(<Counter16Bit as View>::view);
            reveal(<Counter8Bit as View>::view);
            reveal(<Ic74193 as View>::view);
        }
        self.counter2.carry()
    }

    /// Output borrow.
    pub fn borrow(&self) -> (r: &Pin)
        ensures
            *r == self.counter2.counter2.borrow,
            r@ == self@.counter2.counter2.borrow,
    {
        proof {
            reveal(<Counter16Bit as View>::view);
            reveal(<Counter8Bit as View>::view);
            reveal(<Ic74193 as View>::view);
        }
        self.counter2.borrow()
    }

    /// The pins of a counter named `name` whose first pin has the id `base`.
    #[verifier::opaque]
    pub open spec fn layout(base: nat, name: Seq<char>) -> Counter16BitView {
        Counter16BitView {
            counter1: Counter8Bit::layout(base, dotted(name, "counter1"@)),
            counter2: Counter8Bit::layout(base + 412, dotted(name, "counter2"@)),
        }
    }

    /// Create a new Counter16Bit.
    pub fn new(graph: &mut Graph, name: &str) -> (counter: Self)
        requires
            old(graph).wf(),
        ensures
            final(graph).wf(),
            final(graph)@ == old(graph)@.with_counter16(name@),
            final(graph)@.len() == old(graph)@.len() + 824,
            final(graph)@.extends(old(graph)@),
            counter@ == Counter16Bit::layout(old(graph)@.len(), name@),
            counter@.open_in(final(graph)@),
            counter@.counter1.counter1.pins_at(old(graph)@.len()),
            counter@.counter1.counter2.pins_at(old(graph)@.len() + 206),
            counter@.counter2.counter1.pins_at(old(graph)@.len() + 412),
            counter@.counter2.counter2.pins_at(old(graph)@.len() + 618),
    {
        let ghost entry = graph@;
        proof {
            reveal(<Counter8Bit as View>::view);
            reveal(<Ic74193 as View>::view);
            reveal(<Counter16Bit as View>::view);
            reveal(Ic74193View::open_in);
            reveal(Ic74193View::data_open_in);
            reveal(Counter8BitView::open_in);
            reveal(Counter16BitView::open_in);
            reveal(Ic74193View::pins_at);
            reveal(Counter16Bit::layout);
            reveal(Counter8Bit::layout);
            reveal(GraphView::with_counter16);
            graph.lemma_wf();
            GraphView::lemma_wiring(entry);
        }
        let counter1 = Counter8Bit::new(graph, dotted_name(name, "counter1").as_str());
        let counter2 = Counter8Bit::new(graph, dotted_name(name, "counter2").as_str());
        proof {
            graph.lemma_len();
        }

        chain_counters(
            graph,
            Ghost(entry),
            counter1.carry(),
            counter1.borrow(),
            counter1.load_inv(),
            counter1.clear(),
            &counter2.counter1,
        );

        Self { counter1, counter2 }
    }
}

impl Counter8Bit {
    /// The input pins, low bit first.
    pub open spec fn spec_input(&self) -> Seq<&Pin> {
        seq![
            &self.counter1.adder1.input,
            &self.counter1.adder2.half_adder.input,
            &self.counter1.adder3.half_adder.input,
            &self.counter1.adder4.half_adder.input,
            &self.counter2.adder1.input,
            &self.counter2.adder2.half_adder.input,
            &self.counter2.adder3.half_adder.input,
            &self.counter2.adder4.half_adder.input,
        ]
    }

    /// The output pins, low bit first.
    pub open spec fn spec_output(&self) -> Seq<&Pin> {
        seq![
            &self.counter1.adder1.flip_flop.output,
            &self.counter1.adder2.half_adder.flip_flop.output,
            &self.counter1.adder3.half_adder.flip_flop.output,
            &self.counter1.adder4.half_adder.flip_flop.output,
            &self.counter2.adder1.flip_flop.output,
            &self.counter2.adder2.half_adder.flip_flop.output,
            &self.counter2.adder3.half_adder.flip_flop.output,
            &self.counter2.adder4.half_adder.flip_flop.output,
        ]
    }
}

} // verus!
