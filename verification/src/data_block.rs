//! The data block of a small computer: an address pointer, a working register, RAM and
//! the bus that joins them.
use crate::gate::{binary_states, bus_states, nand_gate, nor_gate, BusBuffer, BusTristate};
use crate::graph::{Graph, GraphView, Pin, PinId, PinView};
use crate::ic::{
    pin_at, Counter16Bit, Counter16BitView, Counter8Bit, Counter8BitView, Ic74193, Ic74193View,
};
use crate::names::{dotted, dotted_name, indexed};
use crate::part::Rule;
use crate::ram::{blank_cells, ram_states, IcCY7C199};
use crate::signal::{PinState, Signal};
use vstd::prelude::*;

verus! {

/// The parts of a data block, as the contracts see them: the pointer and the register
/// with their pins, and the first pin of the RAM, of the bus buffer and of the
/// interface between register and bus.
pub struct DataPartsView {
    pub ptr: Counter16BitView,
    pub reg: Counter8BitView,
    pub ram: nat,
    pub bus: nat,
    pub port: nat,
}

impl DataPartsView {
    /// The parts of a data block named `name` whose first pin has the id `base`.
    #[verifier::opaque]
    pub open spec fn layout(base: nat, name: Seq<char>) -> DataPartsView {
        DataPartsView {
            ptr: Counter16Bit::layout(base, dotted(name, "ptr"@)),
            reg: Counter8Bit::layout(base + 824, dotted(name, "reg"@)),
            ram: base + 1236,
            bus: base + 1262,
            port: base + 1278,
        }
    }

    /// Whether the pins of the six chips of pointer and register have the ids of a data
    /// block whose first pin has the id `base`.
    #[verifier::opaque]
    pub open spec fn chips_at(self, base: nat) -> bool {
        &&& self.ram == base + 1236
        &&& self.bus == base + 1262
        &&& self.port == base + 1278
        &&& self.ptr.counter1.counter1.pins_at(base)
        &&& self.ptr.counter1.counter2.pins_at(base + 206)
        &&& self.ptr.counter2.counter1.pins_at(base + 412)
        &&& self.ptr.counter2.counter2.pins_at(base + 618)
        &&& self.reg.counter1.pins_at(base + 824)
        &&& self.reg.counter2.pins_at(base + 1030)
    }

    /// Whether the pins that the address lines join each head a node of the graph: the
    /// outputs of the pointer and the address pins of the RAM.
    #[verifier::opaque]
    pub open spec fn address_open_in(self, graph: GraphView) -> bool {
        &&& self.ptr.counter1.counter1.data_open_in(graph)
        &&& self.ptr.counter1.counter2.data_open_in(graph)
        &&& self.ptr.counter2.counter1.data_open_in(graph)
        &&& self.ptr.counter2.counter2.data_open_in(graph)
        &&& forall|p: PinId| #![trigger graph.heads(p)] self.ram + 11 <= p < self.ram + 26 ==> graph.heads(p)
    }

    /// Whether the pins that the data bus joins each head a node of the graph: the
    /// inputs and outputs of the register, the IO pins of the RAM, the inputs of the
    /// bus buffer, and the inputs and outputs of the interface.
    #[verifier::opaque]
    pub open spec fn bus_open_in(self, graph: GraphView) -> bool {
        &&& self.reg.counter1.data_open_in(graph)
        &&& self.reg.counter2.data_open_in(graph)
        &&& forall|p: PinId| #![trigger graph.heads(p)] self.ram + 3 <= p < self.ram + 11 ==> graph.heads(p)
        &&& forall|p: PinId| #![trigger graph.heads(p)] self.bus + 8 <= p < self.bus + 16 ==> graph.heads(p)
        &&& forall|p: PinId| #![trigger graph.heads(p)] self.port <= p < self.port + 16 ==> graph.heads(p)
    }

    /// Whether the pins that the control logic drives, and the outputs of the bus
    /// buffer, each head a node of the graph.
    #[verifier::opaque]
    pub open spec fn controls_open_in(self, graph: GraphView) -> bool {
        &&& graph.heads(self.ptr.counter1.counter1.up.id)
        &&& graph.heads(self.ptr.counter1.counter1.down.id)
        &&& graph.heads(self.reg.counter1.up.id)
        &&& graph.heads(self.reg.counter1.down.id)
        &&& graph.heads(self.reg.counter1.load_inv.id)
        &&& graph.heads(self.reg.counter1.clear.id)
        &&& graph.heads(self.ram as usize)
        &&& graph.heads((self.ram + 1) as usize)
        &&& graph.heads((self.ram + 2) as usize)
        &&& graph.heads((self.port + 16) as usize)
        &&& forall|p: PinId| #![trigger graph.heads(p)] self.bus <= p < self.bus + 8 ==> graph.heads(p)
    }
}

/// The control inputs of a data block, as the contracts see them.
pub struct ControlsView {
    pub up: PinView,
    pub down: PinView,
    pub count_clock: PinView,
    pub store_clock: PinView,
    pub clear_clock: PinView,
    pub ptr_count_en: PinView,
    pub data_count_en: PinView,
    pub reset: PinView,
}

impl ControlsView {
    /// The control inputs of a data block named `name`, the first of which has the id
    /// `first`.
    #[verifier::opaque]
    pub open spec fn layout(first: nat, name: Seq<char>) -> ControlsView {
        ControlsView {
            up: pin_at(first, dotted(name, "up"@)),
            down: pin_at(first + 1, dotted(name, "down"@)),
            count_clock: pin_at(first + 2, dotted(name, "count_clock"@)),
            store_clock: pin_at(first + 3, dotted(name, "store_clock"@)),
            clear_clock: pin_at(first + 4, dotted(name, "clear_clock"@)),
            ptr_count_en: pin_at(first + 5, dotted(name, "ptr_count_en"@)),
            data_count_en: pin_at(first + 6, dotted(name, "data_count_en"@)),
            reset: pin_at(first + 7, dotted(name, "reset"@)),
        }
    }

    /// Whether the control inputs have their ids in a row from `first` on.
    pub open spec fn pins_at(self, first: nat) -> bool {
        &&& self.up.id == first
        &&& self.down.id == first + 1
        &&& self.count_clock.id == first + 2
        &&& self.store_clock.id == first + 3
        &&& self.clear_clock.id == first + 4
        &&& self.ptr_count_en.id == first + 5
        &&& self.data_count_en.id == first + 6
        &&& self.reset.id == first + 7
    }

    /// Whether each control input heads a node of the graph.
    pub open spec fn open_in(self, graph: GraphView) -> bool {
        &&& graph.heads(self.up.id)
        &&& graph.heads(self.down.id)
        &&& graph.heads(self.count_clock.id)
        &&& graph.heads(self.store_clock.id)
        &&& graph.heads(self.clear_clock.id)
        &&& graph.heads(self.ptr_count_en.id)
        &&& graph.heads(self.data_count_en.id)
        &&& graph.heads(self.reset.id)
    }
}

impl GraphView {
    /// The graph with the parts of a data block: a 16-bit pointer, an 8-bit register,
    /// the RAM, the bus buffer, and the tristate interface between register and bus.
    #[verifier::opaque]
    pub open spec fn with_data_parts(self, name: Seq<char>) -> GraphView {
        self.with_counter16(dotted(name, "ptr"@)).with_counter8(dotted(name, "reg"@)).with_part(
            dotted(name, "ram"@),
            ram_states(),
            Rule::Ram(blank_cells()),
        ).with_part(
            dotted(name, "bus"@),
            bus_states(8, PinState::Output(Signal::Error), 0),
            Rule::BusBuffer(8),
        ).with_part(
            dotted(name, "reg_interface"@),
            bus_states(8, PinState::HiZ, 1),
            Rule::BusTristate(8),
        )
    }

    /// The graph with the four outputs of a chip each driving one of four pins in a
    /// row, the first of which is `first`.
    #[verifier::opaque]
    pub open spec fn with_nibble_wired(self, chip: Ic74193View, first: nat) -> GraphView {
        self.joined(chip.adder1.flip_flop.output.id, first as usize).joined(
            chip.adder2.half_adder.flip_flop.output.id,
            (first + 1) as usize,
        ).joined(chip.adder3.half_adder.flip_flop.output.id, (first + 2) as usize).joined(
            chip.adder4.half_adder.flip_flop.output.id,
            (first + 3) as usize,
        )
    }

    /// The graph with the low fifteen outputs of the pointer driving the address lines
    /// of the RAM.
    #[verifier::opaque]
    pub open spec fn with_address_wired(self, parts: DataPartsView) -> GraphView {
        let high = parts.ptr.counter2.counter2;
        self.with_nibble_wired(parts.ptr.counter1.counter1, parts.ram + 11).with_nibble_wired(
            parts.ptr.counter1.counter2,
            parts.ram + 15,
        ).with_nibble_wired(parts.ptr.counter2.counter1, parts.ram + 19).joined(
            high.adder1.flip_flop.output.id,
            (parts.ram + 23) as usize,
        ).joined(high.adder2.half_adder.flip_flop.output.id, (parts.ram + 24) as usize).joined(
            high.adder3.half_adder.flip_flop.output.id,
            (parts.ram + 25) as usize,
        )
    }

    /// The graph with one bit of the data bus wired: the input `line` of the bus buffer
    /// is joined with the IO pin of the RAM, with the input of the register and with the
    /// output of the interface, and the output of the register drives the input of the
    /// interface.
    #[verifier::opaque]
    pub open spec fn with_bit_wired(
        self,
        line: nat,
        io: nat,
        reg_in: PinId,
        port_out: nat,
        reg_out: PinId,
        port_in: nat,
    ) -> GraphView {
        self.joined(line as usize, io as usize).joined(line as usize, reg_in).joined(
            line as usize,
            port_out as usize,
        ).joined(reg_out, port_in as usize)
    }

    /// The graph with the four bits of the data bus wired that one chip of the register
    /// holds: the bits from `low` on.
    #[verifier::opaque]
    pub open spec fn with_bus_nibble_wired(self, parts: DataPartsView, chip: Ic74193View, low: nat) -> GraphView {
        let line = parts.bus + 8 + low;
        let io = parts.ram + 3 + low;
        let port_out = parts.port + low;
        let port_in = parts.port + 8 + low;
        self.with_bit_wired(
            line,
            io,
            chip.adder1.input.id,
            port_out,
            chip.adder1.flip_flop.output.id,
            port_in,
        ).with_bit_wired(
            line + 1,
            io + 1,
            chip.adder2.half_adder.input.id,
            port_out + 1,
            chip.adder2.half_adder.flip_flop.output.id,
            port_in + 1,
        ).with_bit_wired(
            line + 2,
            io + 2,
            chip.adder3.half_adder.input.id,
            port_out + 2,
            chip.adder3.half_adder.flip_flop.output.id,
            port_in + 2,
        ).with_bit_wired(
            line + 3,
            io + 3,
            chip.adder4.half_adder.input.id,
            port_out + 3,
            chip.adder4.half_adder.flip_flop.output.id,
            port_in + 3,
        )
    }

    /// The graph with the eight control inputs of a data block.
    #[verifier::opaque]
    pub open spec fn with_controls(self, name: Seq<char>) -> GraphView {
        let pins = ControlsView::layout(self.len(), name);
        let input = PinState::Input(Signal::Off);
        self.with_pin(pins.up.name, input).with_pin(pins.down.name, input).with_pin(
            pins.count_clock.name,
            input,
        ).with_pin(pins.store_clock.name, input).with_pin(pins.clear_clock.name, input).with_pin(
            pins.ptr_count_en.name,
            input,
        ).with_pin(pins.data_count_en.name, input).with_pin(pins.reset.name, input)
    }

    /// The graph with the enables of a data block wired: reset clears the register, the
    /// RAM is always selected, and `reset or data_count_en` lets the register onto the
    /// bus and takes the RAM off it.
    #[verifier::opaque]
    pub open spec fn with_enables(self, parts: DataPartsView, controls: ControlsView) -> GraphView {
        let low = pin_at(self.len(), "LOW"@);
        let g1 = self.joined(controls.reset.id, parts.reg.counter1.clear.id).with_pin(
            low.name,
            PinState::Output(Signal::Low),
        ).joined(low.id, parts.ram as usize);
        let reg_not_ram = g1.or_out(controls.reset, controls.data_count_en);
        g1.with_or(controls.reset, controls.data_count_en).joined(
            reg_not_ram.id,
            (parts.port + 16) as usize,
        ).joined(reg_not_ram.id, (parts.ram + 1) as usize)
    }

    /// The graph with a counter counting up or down on the pin `clock`: a nand gate over
    /// the clock and the up input drives the inverted up pin of the counter, another
    /// over the clock and the down input its inverted down pin. The clock is joined
    /// with the down gate first where `down_first` holds.
    #[verifier::opaque]
    pub open spec fn with_counting(
        self,
        up_name: Seq<char>,
        down_name: Seq<char>,
        clock: PinId,
        controls: ControlsView,
        counter_up: PinId,
        counter_down: PinId,
        down_first: bool,
    ) -> GraphView {
        let up_gate = self.len();
        let down_gate = self.len() + 3;
        let g1 = self.with_part(up_name, binary_states(), Rule::Nand).with_part(
            down_name,
            binary_states(),
            Rule::Nand,
        );
        let g2 = if down_first {
            g1.joined(clock, down_gate as usize).joined(clock, up_gate as usize)
        } else {
            g1.joined(clock, up_gate as usize).joined(clock, down_gate as usize)
        };
        g2.joined(controls.up.id, (up_gate + 1) as usize).joined(
            controls.down.id,
            (down_gate + 1) as usize,
        ).joined((up_gate + 2) as usize, counter_up).joined((down_gate + 2) as usize, counter_down)
    }

    /// The graph with load and store of a data block wired: the register loads from the
    /// bus on `store_clock nand ptr_count_en`, and the RAM writes on
    /// `reset nor (store_clock and data_count_en)`.
    #[verifier::opaque]
    pub open spec fn with_load_store(self, controls: ControlsView, load_inv: PinId, we_inv: PinId) -> GraphView {
        let load = self.len();
        let write_gate = self.len() + 3;
        let g1 = self.with_part("reg_load"@, binary_states(), Rule::Nand).joined(
            controls.store_clock.id,
            load as usize,
        ).joined(controls.ptr_count_en.id, (load + 1) as usize).joined(
            (load + 2) as usize,
            load_inv,
        ).with_part("ram_we"@, binary_states(), Rule::Nor);
        let write = g1.and_out(controls.store_clock, controls.data_count_en);
        g1.with_and(controls.store_clock, controls.data_count_en).joined(
            controls.reset.id,
            write_gate as usize,
        ).joined(write.id, (write_gate + 1) as usize).joined((write_gate + 2) as usize, we_inv)
    }

    /// The graph with the control logic of a data block: the eight control inputs, the
    /// enables, the register counting on `count_clock and data_count_en`, the pointer
    /// counting on `(count_clock and ptr_count_en) or (reset and clear_clock)`, and load
    /// and store.
    #[verifier::opaque]
    pub open spec fn with_control_logic(self, parts: DataPartsView, name: Seq<char>) -> GraphView {
        let controls = ControlsView::layout(self.len(), name);
        let g1 = self.with_controls(name).with_enables(parts, controls);
        let reg_count = g1.and_out(controls.count_clock, controls.data_count_en);
        let g2 = g1.with_and(controls.count_clock, controls.data_count_en).with_counting(
            "reg_up"@,
            "reg_down"@,
            reg_count.id,
            controls,
            parts.reg.counter1.up.id,
            parts.reg.counter1.down.id,
            false,
        );
        let counting = g2.and_out(controls.count_clock, controls.ptr_count_en);
        let g3 = g2.with_and(controls.count_clock, controls.ptr_count_en);
        let clearing = g3.and_out(controls.reset, controls.clear_clock);
        let g4 = g3.with_and(controls.reset, controls.clear_clock);
        let ptr_count = g4.or_out(counting, clearing);
        g4.with_or(counting, clearing).with_counting(
            "ptr_up"@,
            "ptr_down"@,
            ptr_count.id,
            controls,
            parts.ptr.counter1.counter1.up.id,
            parts.ptr.counter1.counter1.down.id,
            true,
        ).with_load_store(controls, parts.reg.counter1.load_inv.id, (parts.ram + 2) as usize)
    }

    /// The graph with a data block.
    ///
    /// The pointer drives the address lines of the RAM. The bus buffer reads the data
    /// bus, which joins the IO pins of the RAM with the inputs of the register and,
    /// through the tristate interface, with its outputs.
    #[verifier::opaque]
    pub open spec fn with_data_block(self, name: Seq<char>) -> GraphView {
        let parts = DataPartsView::layout(self.len(), name);
        self.with_data_parts(name).with_address_wired(parts).with_bus_nibble_wired(
            parts,
            parts.reg.counter1,
            0,
        ).with_bus_nibble_wired(parts, parts.reg.counter2, 4).with_control_logic(parts, name)
    }
}

/// The parts of a data block.
struct DataParts {
    ptr: Counter16Bit,
    reg: Counter8Bit,
    ram: IcCY7C199,
    bus: BusBuffer,
    port: BusTristate,
}

impl DataParts {
    /// The parts as the contracts see them.
    closed spec fn view(&self) -> DataPartsView {
        DataPartsView {
            ptr: self.ptr@,
            reg: self.reg@,
            ram: self.ram.0@[0].id as nat,
            bus: self.bus.0@[0].id as nat,
            port: self.port.0@[0].id as nat,
        }
    }

    /// Whether the pins of RAM, bus buffer and interface are numbered in a row.
    closed spec fn in_rows(&self) -> bool {
        &&& self.ram.0@.len() == 26
        &&& self.bus.0@.len() == 16
        &&& self.port.0@.len() == 17
        &&& forall|i: int| 0 <= i < 26 ==> (#[trigger] self.ram.0@[i]).id == self.view().ram + i
        &&& forall|i: int| 0 <= i < 16 ==> (#[trigger] self.bus.0@[i]).id == self.view().bus + i
        &&& forall|i: int| 0 <= i < 17 ==> (#[trigger] self.port.0@[i]).id == self.view().port + i
    }

    /// Creates the parts of a data block.
    fn new(graph: &mut Graph, name: &str) -> (parts: Self)
        requires
            old(graph).wf(),
        ensures
            final(graph).wf(),
            final(graph)@ == old(graph)@.with_data_parts(name@),
            final(graph)@.len() == old(graph)@.len() + 1295,
            final(graph)@.len() <= usize::MAX,
            final(graph)@.extends(old(graph)@),
            parts.view() == DataPartsView::layout(old(graph)@.len(), name@),
            parts.view().chips_at(old(graph)@.len()),
            parts.in_rows(),
            parts.bus_named(name@),
            parts.view().address_open_in(final(graph)@),
            parts.view().bus_open_in(final(graph)@),
            parts.view().controls_open_in(final(graph)@),
    {
        let ghost entry = graph@;
        let ghost base = graph@.len();
        proof {
            reveal(GraphView::with_data_parts);
            reveal(DataPartsView::layout);
            reveal(DataPartsView::chips_at);
        }
        // `ptr` stores the address for operations `<` and `>`
        let ptr = Counter16Bit::new(graph, dotted_name(name, "ptr").as_str());
        let ghost g1 = graph@;

        // `reg` stores the current working counter for operations `+` and `-`
        // This is transferred to/from `ram` as needed when `ptr` changes
        let reg = Counter8Bit::new(graph, dotted_name(name, "reg").as_str());
        let ghost g2 = graph@;

        let ram = IcCY7C199::new(graph, dotted_name(name, "ram").as_str());
        let ghost g3 = graph@;

        // Main data bus, also connected to other components (e.g. I/O)
        let bus = BusBuffer::new(graph, dotted_name(name, "bus").as_str(), 8);
        let ghost g4 = graph@;

        // Allows reg to be connected bidirectionally to or disconnected from the bus
        let port = BusTristate::new(graph, dotted_name(name, "reg_interface").as_str(), 8);

        let parts = DataParts { ptr, reg, ram, bus, port };
        proof {
            let g = graph@;
            let view = parts.view();
            g.lemma_extends_twice(g4, g3);
            g.lemma_extends_twice(g3, g2);
            g.lemma_extends_twice(g2, g1);
            g.lemma_extends_twice(g1, entry);
            g4.lemma_extends_twice(g3, g2);
            parts.ptr@.lemma_open_extends(g1, g);
            parts.reg@.lemma_open_extends(g2, g);
            assert(parts.ram.0@[0].id == base + 1236);
            assert(parts.bus.0@[0].id == base + 1262);
            assert(parts.port.0@[0].id == base + 1278);
            assert forall|p: PinId| #![trigger g.heads(p)] base + 1236 <= p < base + 1295 implies g.heads(p) by {
                if p < base + 1262 {
                    assert(parts.ram.0@[p - (base + 1236)].id == p);
                    g.lemma_extends_pin(g3, p);
                } else if p < base + 1278 {
                    assert(parts.bus.0@[p - (base + 1262)].id == p);
                    g.lemma_extends_pin(g4, p);
                } else {
                    assert(parts.port.0@[p - (base + 1278)].id == p);
                }
            }
            reveal(Counter16BitView::open_in);
            reveal(Counter8BitView::open_in);
            reveal(DataPartsView::address_open_in);
            reveal(DataPartsView::bus_open_in);
            reveal(DataPartsView::controls_open_in);
        }
        parts
    }

    /// Drives four pins in a row, the first of which is `t0`, with the four outputs of
    /// a chip.
    fn wire_nibble(
        graph: &mut Graph,
        Ghost(entry): Ghost<GraphView>,
        Ghost(at): Ghost<nat>,
        chip: &Ic74193,
        t0: &Pin,
        t1: &Pin,
        t2: &Pin,
        t3: &Pin,
    )
        requires
            old(graph).wf(),
            entry.wf(),
            old(graph)@.extends(entry),
            chip@.pins_at(at),
            chip@.data_open_in(old(graph)@),
            entry.len() <= t0.id,
            at + 206 <= t0.id,
            t1.id == t0.id + 1,
            t2.id == t0.id + 2,
            t3.id == t0.id + 3,
            old(graph)@.heads(t0.id),
            old(graph)@.heads(t1.id),
            old(graph)@.heads(t2.id),
            old(graph)@.heads(t3.id),
        ensures
            final(graph).wf(),
            final(graph)@ == old(graph)@.with_nibble_wired(chip@, t0.id as nat),
            final(graph)@.len() == old(graph)@.len(),
            final(graph)@.extends(entry),
            forall|p: PinId|
                #![trigger final(graph)@.heads(p)]
                old(graph)@.heads(p) && !(t0.id <= p < t0.id + 4) ==> final(graph)@.heads(p),
    {
        proof {
            reveal(GraphView::with_nibble_wired);
            reveal(Ic74193View::pins_at);
            reveal(Ic74193View::data_open_in);
            GraphView::lemma_wiring(entry);
        }
        graph.connect(chip.out1(), t0);
        graph.connect(chip.out2(), t1);
        graph.connect(chip.out3(), t2);
        graph.connect(chip.out4(), t3);
    }

    /// Connects the pointer outputs to the address lines of the RAM.
    fn wire_address(&self, graph: &mut Graph, Ghost(entry): Ghost<GraphView>, Ghost(base): Ghost<nat>)
        requires
            old(graph).wf(),
            entry.wf(),
            old(graph)@.extends(entry),
            entry.len() <= base,
            base + 1295 <= old(graph)@.len() <= usize::MAX,
            self.view().chips_at(base),
            self.in_rows(),
            self.view().address_open_in(old(graph)@),
            self.view().bus_open_in(old(graph)@),
            self.view().controls_open_in(old(graph)@),
        ensures
            final(graph).wf(),
            final(graph)@ == old(graph)@.with_address_wired(self.view()),
            final(graph)@.len() == old(graph)@.len(),
            final(graph)@.extends(entry),
            self.view().bus_open_in(final(graph)@),
            self.view().controls_open_in(final(graph)@),
    {
        proof {
            reveal(GraphView::with_address_wired);
            reveal(DataPartsView::chips_at);
            reveal(DataPartsView::address_open_in);
            reveal(DataPartsView::bus_open_in);
            reveal(DataPartsView::controls_open_in);
            reveal(Ic74193View::pins_at);
            reveal(Ic74193View::data_open_in);
            reveal(<Counter16Bit as View>::view);
            reveal(<Counter8Bit as View>::view);
            GraphView::lemma_wiring(entry);
        }
        let ram = &self.ram.0;
        Self::wire_nibble(
            graph,
            Ghost(entry),
            Ghost(base),
            &self.ptr.counter1.counter1,
            &ram[11],
            &ram[12],
            &ram[13],
            &ram[14],
        );
        Self::wire_nibble(
            graph,
            Ghost(entry),
            Ghost(base + 206),
            &self.ptr.counter1.counter2,
            &ram[15],
            &ram[16],
            &ram[17],
            &ram[18],
        );
        Self::wire_nibble(
            graph,
            Ghost(entry),
            Ghost(base + 412),
            &self.ptr.counter2.counter1,
            &ram[19],
            &ram[20],
            &ram[21],
            &ram[22],
        );
        let high = &self.ptr.counter2.counter2;
        proof {
            assert(graph@.heads(ram@[23].id));
            assert(graph@.heads(ram@[24].id));
            assert(graph@.heads(ram@[25].id));
        }
        graph.connect(high.out1(), &ram[23]);
        graph.connect(high.out2(), &ram[24]);
        graph.connect(high.out3(), &ram[25]);
    }

    /// Wires one bit of the data bus.
    fn wire_bit(
        graph: &mut Graph,
        Ghost(entry): Ghost<GraphView>,
        line: &Pin,
        io: &Pin,
        reg_in: &Pin,
        port_out: &Pin,
        reg_out: &Pin,
        port_in: &Pin,
    )
        requires
            old(graph).wf(),
            entry.wf(),
            old(graph)@.extends(entry),
            entry.len() <= io.id,
            entry.len() <= reg_in.id,
            entry.len() <= port_out.id,
            entry.len() <= port_in.id,
            old(graph)@.heads(line.id),
            old(graph)@.heads(io.id),
            old(graph)@.heads(reg_in.id),
            old(graph)@.heads(port_out.id),
            old(graph)@.heads(reg_out.id),
            old(graph)@.heads(port_in.id),
            line.id != io.id && line.id != reg_in.id && line.id != port_out.id && line.id != port_in.id,
            reg_out.id != io.id && reg_out.id != reg_in.id && reg_out.id != port_out.id && reg_out.id
                != port_in.id,
            io.id != reg_in.id && io.id != port_out.id && io.id != port_in.id,
            reg_in.id != port_out.id && reg_in.id != port_in.id,
            port_out.id != port_in.id,
        ensures
            final(graph).wf(),
            final(graph)@ == old(graph)@.with_bit_wired(
                line.id as nat,
                io.id as nat,
                reg_in.id,
                port_out.id as nat,
                reg_out.id,
                port_in.id as nat,
            ),
            final(graph)@.len() == old(graph)@.len(),
            final(graph)@.extends(entry),
            forall|p: PinId|
                #![trigger final(graph)@.heads(p)]
                old(graph)@.heads(p) && p != io.id && p != reg_in.id && p != port_out.id && p
                    != port_in.id ==> final(graph)@.heads(p),
    {
        proof {
            reveal(GraphView::with_bit_wired);
            GraphView::lemma_wiring(entry);
        }
        graph.connect(line, io);
        graph.connect(line, reg_in);
        graph.connect(line, port_out);
        graph.connect(reg_out, port_in);
    }

    /// Wires the four bits of the data bus that one chip of the register holds: the
    /// bits from `low` on.
    fn wire_bus_nibble(
        &self,
        graph: &mut Graph,
        Ghost(entry): Ghost<GraphView>,
        Ghost(base): Ghost<nat>,
        Ghost(at): Ghost<nat>,
        chip: &Ic74193,
        low: usize,
    )
        requires
            old(graph).wf(),
            entry.wf(),
            old(graph)@.extends(entry),
            entry.len() <= base,
            base + 1295 <= old(graph)@.len() <= usize::MAX,
            self.view().chips_at(base),
            self.in_rows(),
            low == 0 || low == 4,
            base + 824 <= at,
            at + 206 <= base + 1236,
            chip@.pins_at(at),
            chip@.data_open_in(old(graph)@),
            forall|p: PinId|
                #![trigger old(graph)@.heads(p)]
                (self.view().ram + 3 + low <= p < self.view().ram + 7 + low) || (self.view().bus + 8 + low
                    <= p < self.view().bus + 12 + low) || (self.view().port + low <= p < self.view().port
                    + 4 + low) || (self.view().port + 8 + low <= p < self.view().port + 12 + low)
                    ==> old(graph)@.heads(p),
        ensures
            final(graph).wf(),
            final(graph)@ == old(graph)@.with_bus_nibble_wired(self.view(), chip@, low as nat),
            final(graph)@.len() == old(graph)@.len(),
            final(graph)@.extends(entry),
            forall|p: PinId|
                #![trigger final(graph)@.heads(p)]
                old(graph)@.heads(p) && !(self.view().ram + 3 + low <= p < self.view().ram + 7 + low)
                    && !(self.view().port + low <= p < self.view().port + 4 + low) && !(self.view().port
                    + 8 + low <= p < self.view().port + 12 + low) && p != at + 8 && p != at + 43 && p != at
                    + 89 && p != at + 135 ==> final(graph)@.heads(p),
    {
        proof {
            reveal(GraphView::with_bus_nibble_wired);
            reveal(DataPartsView::chips_at);
            reveal(Ic74193View::pins_at);
            reveal(Ic74193View::data_open_in);
            GraphView::lemma_wiring(entry);
        }
        let ram = &self.ram.0;
        let bus = &self.bus.0;
        let port = &self.port.0;
        proof {
            assert(graph@.heads(ram@[3 + low].id));
            assert(graph@.heads(bus@[8 + low].id));
            assert(graph@.heads(port@[low as int].id));
            assert(graph@.heads(port@[8 + low].id));
        }
        Self::wire_bit(
            graph,
            Ghost(entry),
            &bus[8 + low],
            &ram[3 + low],
            chip.in1(),
            &port[low],
            chip.out1(),
            &port[8 + low],
        );
        proof {
            assert(graph@.heads(ram@[4 + low].id));
            assert(graph@.heads(bus@[9 + low].id));
            assert(graph@.heads(port@[1 + low].id));
            assert(graph@.heads(port@[9 + low].id));
        }
        Self::wire_bit(
            graph,
            Ghost(entry),
            &bus[9 + low],
            &ram[4 + low],
            chip.in2(),
            &port[1 + low],
            chip.out2(),
            &port[9 + low],
        );
        proof {
            assert(graph@.heads(ram@[5 + low].id));
            assert(graph@.heads(bus@[10 + low].id));
            assert(graph@.heads(port@[2 + low].id));
            assert(graph@.heads(port@[10 + low].id));
        }
        Self::wire_bit(
            graph,
            Ghost(entry),
            &bus[10 + low],
            &ram[5 + low],
            chip.in3(),
            &port[2 + low],
            chip.out3(),
            &port[10 + low],
        );
        proof {
            assert(graph@.heads(ram@[6 + low].id));
            assert(graph@.heads(bus@[11 + low].id));
            assert(graph@.heads(port@[3 + low].id));
            assert(graph@.heads(port@[11 + low].id));
        }
        Self::wire_bit(
            graph,
            Ghost(entry),
            &bus[11 + low],
            &ram[6 + low],
            chip.in4(),
            &port[3 + low],
            chip.out4(),
            &port[11 + low],
        );
    }

    /// Connects everything to the bus input: the IO pins of the RAM, the inputs of the
    /// register and, through the interface, its outputs.
    fn wire_bus(&self, graph: &mut Graph, Ghost(entry): Ghost<GraphView>, Ghost(base): Ghost<nat>)
        requires
            old(graph).wf(),
            entry.wf(),
            old(graph)@.extends(entry),
            entry.len() <= base,
            base + 1295 <= old(graph)@.len() <= usize::MAX,
            self.view().chips_at(base),
            self.in_rows(),
            self.view().bus_open_in(old(graph)@),
            self.view().controls_open_in(old(graph)@),
        ensures
            final(graph).wf(),
            final(graph)@ == old(graph)@.with_bus_nibble_wired(
                self.view(),
                self.view().reg.counter1,
                0,
            ).with_bus_nibble_wired(self.view(), self.view().reg.counter2, 4),
            final(graph)@.len() == old(graph)@.len(),
            final(graph)@.extends(entry),
            self.view().controls_open_in(final(graph)@),
    {
        proof {
            reveal(DataPartsView::chips_at);
            reveal(DataPartsView::bus_open_in);
            reveal(DataPartsView::controls_open_in);
            reveal(Ic74193View::pins_at);
            reveal(Ic74193View::data_open_in);
            reveal(<Counter8Bit as View>::view);
        }
        self.wire_bus_nibble(
            graph,
            Ghost(entry),
            Ghost(base),
            Ghost(base + 824),
            &self.reg.counter1,
            0,
        );
        self.wire_bus_nibble(
            graph,
            Ghost(entry),
            Ghost(base),
            Ghost(base + 1030),
            &self.reg.counter2,
            4,
        );
    }

    /// Whether the pins of the bus buffer are named after a data block named `name`.
    closed spec fn bus_named(&self, name: Seq<char>) -> bool {
        forall|i: int|
            0 <= i < 16 ==> (#[trigger] self.bus.0@[i]).name@ == indexed(dotted(name, "bus"@), i as nat)
    }
}

/// The control inputs of a data block.
struct Controls {
    up: Pin,
    down: Pin,
    count_clock: Pin,
    store_clock: Pin,
    clear_clock: Pin,
    ptr_count_en: Pin,
    data_count_en: Pin,
    reset: Pin,
}

impl View for Controls {
    type V = ControlsView;

    closed spec fn view(&self) -> ControlsView {
        ControlsView {
            up: self.up@,
            down: self.down@,
            count_clock: self.count_clock@,
            store_clock: self.store_clock@,
            clear_clock: self.clear_clock@,
            ptr_count_en: self.ptr_count_en@,
            data_count_en: self.data_count_en@,
            reset: self.reset@,
        }
    }
}

impl Controls {
    /// Creates the control inputs of a data block.
    fn new(graph: &mut Graph, name: &str) -> (controls: Self)
        requires
            old(graph).wf(),
        ensures
            final(graph).wf(),
            final(graph)@ == old(graph)@.with_controls(name@),
            final(graph)@.len() == old(graph)@.len() + 8,
            final(graph)@.len() <= usize::MAX,
            final(graph)@.extends(old(graph)@),
            controls@ == ControlsView::layout(old(graph)@.len(), name@),
            controls@.pins_at(old(graph)@.len()),
            controls@.open_in(final(graph)@),
    {
        proof {
            reveal(GraphView::with_controls);
            reveal(ControlsView::layout);
            graph.lemma_wf();
            GraphView::lemma_wiring(graph@);
        }
        let up = graph.new_input(dotted_name(name, "up").as_str());
        let down = graph.new_input(dotted_name(name, "down").as_str());

        let count_clock = graph.new_input(dotted_name(name, "count_clock").as_str());
        let store_clock = graph.new_input(dotted_name(name, "store_clock").as_str());
        let clear_clock = graph.new_input(dotted_name(name, "clear_clock").as_str());

        let ptr_count_en = graph.new_input(dotted_name(name, "ptr_count_en").as_str());
        let data_count_en = graph.new_input(dotted_name(name, "data_count_en").as_str());

        let reset = graph.new_input(dotted_name(name, "reset").as_str());
        proof {
            graph.lemma_len();
        }
        Controls {
            up,
            down,
            count_clock,
            store_clock,
            clear_clock,
            ptr_count_en,
            data_count_en,
            reset,
        }
    }

    /// Wires the enables: reset clears the register, the RAM is always selected, and
    /// `reset or data_count_en` lets the register onto the bus and takes the RAM off it.
    fn enables(&self, graph: &mut Graph, Ghost(entry): Ghost<GraphView>, parts: &DataParts)
        requires
            old(graph).wf(),
            entry.wf(),
            old(graph)@.extends(entry),
            self@.open_in(old(graph)@),
            parts.in_rows(),
            parts.view().controls_open_in(old(graph)@),
            entry.len() <= parts.view().reg.counter1.clear.id,
            parts.view().reg.counter1.clear.id < parts.view().ram,
            entry.len() <= parts.view().ram,
            parts.view().port + 17 <= self@.up.id,
            parts.view().ram + 26 <= parts.view().port,
            self@.pins_at(self@.up.id as nat),
        ensures
            final(graph).wf(),
            final(graph)@ == old(graph)@.with_enables(parts.view(), self@),
            final(graph)@.len() == old(graph)@.len() + 4,
            final(graph)@.extends(entry),
            forall|p: PinId|
                #![trigger final(graph)@.heads(p)]
                old(graph)@.heads(p) && p != parts.view().reg.counter1.clear.id && p != parts.view().ram
                    && p != parts.view().ram + 1 && p != parts.view().port + 16 ==> final(graph)@.heads(p),
    {
        proof {
            reveal(GraphView::with_enables);
            reveal(DataPartsView::controls_open_in);
            reveal(<Counter8Bit as View>::view);
            GraphView::lemma_wiring(entry);
        }
        graph.connect(&self.reset, parts.reg.clear());

        // Leave the ram chip always enabled.
        let low = graph.new_output("LOW", Signal::Low);
        graph.connect(&low, parts.ram.ce_inv());

        // Only the ram or the register should be outputting to the bus, not both.
        //
        // During normal operation, the register output is enabled when data count is
        // enabled. Otherwise ram output is enabled. During reset, the register is
        // outputting zero, so we want the RAM to read that while cycling through the
        // address space.
        let reg_not_ram = self.reset.bitor(graph, &self.data_count_en);

        // Since RAM OE is inverted but the tristate enable is not, we can just connect
        // them all to the same control signal
        graph.connect(&reg_not_ram, parts.port.en());
        graph.connect(&reg_not_ram, parts.ram.oe_inv());
    }
}

impl Controls {
    /// Makes a counter count up or down on the pin `clock`.
    fn counting(
        &self,
        graph: &mut Graph,
        Ghost(entry): Ghost<GraphView>,
        up_name: &str,
        down_name: &str,
        clock: &Pin,
        counter_up: &Pin,
        counter_down: &Pin,
        down_first: bool,
    )
        requires
            old(graph).wf(),
            entry.wf(),
            old(graph)@.extends(entry),
            old(graph)@.heads(clock.id),
            old(graph)@.heads(self@.up.id),
            old(graph)@.heads(self@.down.id),
            old(graph)@.heads(counter_up.id),
            old(graph)@.heads(counter_down.id),
            entry.len() <= counter_up.id,
            entry.len() <= counter_down.id,
            counter_up.id != counter_down.id,
        ensures
            final(graph).wf(),
            final(graph)@ == old(graph)@.with_counting(
                up_name@,
                down_name@,
                clock.id,
                self@,
                counter_up.id,
                counter_down.id,
                down_first,
            ),
            final(graph)@.len() == old(graph)@.len() + 6,
            final(graph)@.extends(entry),
            forall|p: PinId|
                #![trigger final(graph)@.heads(p)]
                old(graph)@.heads(p) && p != counter_up.id && p != counter_down.id ==> final(graph)@.heads(p),
    {
        proof {
            reveal(GraphView::with_counting);
            GraphView::lemma_wiring(entry);
        }
        let up_gate = nand_gate(graph, up_name);
        let down_gate = nand_gate(graph, down_name);
        if down_first {
            graph.connect(clock, down_gate.input_a());
            graph.connect(clock, up_gate.input_a());
        } else {
            graph.connect(clock, up_gate.input_a());
            graph.connect(clock, down_gate.input_a());
        }
        graph.connect(&self.up, up_gate.input_b());
        graph.connect(&self.down, down_gate.input_b());
        graph.connect(up_gate.output(), counter_up);
        graph.connect(down_gate.output(), counter_down);
    }

    /// Wires load and store: the register loads from the bus on the store clock when
    /// the pointer has moved, and the RAM writes on the store clock when the register
    /// has counted.
    fn load_store(&self, graph: &mut Graph, Ghost(entry): Ghost<GraphView>, load_inv: &Pin, we_inv: &Pin)
        requires
            old(graph).wf(),
            entry.wf(),
            old(graph)@.extends(entry),
            self@.open_in(old(graph)@),
            old(graph)@.heads(load_inv.id),
            old(graph)@.heads(we_inv.id),
            entry.len() <= load_inv.id,
            entry.len() <= we_inv.id,
            load_inv.id != we_inv.id,
            self@.pins_at(self@.up.id as nat),
            load_inv.id < self@.up.id,
            we_inv.id < self@.up.id,
        ensures
            final(graph).wf(),
            final(graph)@ == old(graph)@.with_load_store(self@, load_inv.id, we_inv.id),
            final(graph)@.len() == old(graph)@.len() + 9,
            final(graph)@.extends(entry),
            forall|p: PinId|
                #![trigger final(graph)@.heads(p)]
                old(graph)@.heads(p) && p != load_inv.id && p != we_inv.id ==> final(graph)@.heads(p),
    {
        proof {
            reveal(GraphView::with_load_store);
            GraphView::lemma_wiring(entry);
        }
        // Load the reg from RAM on the store clock when ptr count is enabled
        let reg_load = nand_gate(graph, "reg_load");
        graph.connect(&self.store_clock, reg_load.input_a());
        graph.connect(&self.ptr_count_en, reg_load.input_b());
        graph.connect(reg_load.output(), load_inv);

        // Write from the bus to RAM on the store clock when data count is enabled
        let ram_we = nor_gate(graph, "ram_we");
        let write = self.store_clock.bitand(graph, &self.data_count_en);
        graph.connect(&self.reset, ram_we.input_a());
        graph.connect(&write, ram_we.input_b());
        graph.connect(ram_we.output(), we_inv);
    }

    /// Adds the control logic of a data block to its parts.
    fn new_logic(graph: &mut Graph, Ghost(entry): Ghost<GraphView>, Ghost(base): Ghost<nat>, name: &str, parts: &DataParts) -> (controls:
        Self)
        requires
            old(graph).wf(),
            entry.wf(),
            old(graph)@.extends(entry),
            entry.len() <= base,
            old(graph)@.len() == base + 1295,
            parts.view().chips_at(base),
            parts.in_rows(),
            parts.view().controls_open_in(old(graph)@),
        ensures
            final(graph).wf(),
            final(graph)@ == old(graph)@.with_control_logic(parts.view(), name@),
            final(graph)@.len() == old(graph)@.len() + 45,
            final(graph)@.extends(entry),
            controls@ == ControlsView::layout(old(graph)@.len(), name@),
            controls@.pins_at(old(graph)@.len()),
            controls@.open_in(final(graph)@),
            forall|p: PinId|
                #![trigger final(graph)@.heads(p)]
                parts.view().bus <= p < parts.view().bus + 8 ==> final(graph)@.heads(p),
    {
        proof {
            reveal(GraphView::with_control_logic);
            reveal(DataPartsView::chips_at);
            reveal(DataPartsView::controls_open_in);
            reveal(Ic74193View::pins_at);
            reveal(<Counter16Bit as View>::view);
            reveal(<Counter8Bit as View>::view);
            GraphView::lemma_wiring(entry);
        }
        let controls = Controls::new(graph, name);
        controls.enables(graph, Ghost(entry), parts);

        // Count the data register up or down on the count clock when enabled
        let reg_count = controls.count_clock.bitand(graph, &controls.data_count_en);
        controls.counting(
            graph,
            Ghost(entry),
            "reg_up",
            "reg_down",
            &reg_count,
            parts.reg.up(),
            parts.reg.down(),
            false,
        );

        // Count the pointer up or down on the count clock when enabled or during the
        // reset clear
        let counting = controls.count_clock.bitand(graph, &controls.ptr_count_en);
        let clearing = controls.reset.bitand(graph, &controls.clear_clock);
        let ptr_count = counting.bitor(graph, &clearing);
        controls.counting(
            graph,
            Ghost(entry),
            "ptr_up",
            "ptr_down",
            &ptr_count,
            parts.ptr.up(),
            parts.ptr.down(),
            true,
        );

        controls.load_store(graph, Ghost(entry), parts.reg.load_inv(), parts.ram.we_inv());
        controls
    }
}

/// The pins of a [`DataBlock`].
pub struct DataBlockView {
    /// The control inputs.
    pub controls: ControlsView,
    /// The pins of the bus buffer: eight outputs, then eight inputs.
    pub bus: Seq<PinView>,
    /// The pins of the pointer.
    pub ptr: Counter16BitView,
}

impl DataBlockView {
    /// Whether the pins by which the data block is driven and read each head a node of
    /// the graph: the control inputs and the outputs of the bus buffer.
    pub open spec fn open_in(self, graph: GraphView) -> bool {
        &&& self.controls.open_in(graph)
        &&& forall|i: int| 0 <= i < 8 ==> graph.heads((#[trigger] self.bus[i]).id)
    }
}

impl View for DataBlock {
    type V = DataBlockView;

    open spec fn view(&self) -> DataBlockView {
        DataBlockView {
            controls: ControlsView {
                up: self.up@,
                down: self.down@,
                count_clock: self.count@,
                store_clock: self.store@,
                clear_clock: self.clear@,
                ptr_count_en: self.p_ce@,
                data_count_en: self.d_ce@,
                reset: self.reset@,
            },
            bus: self.bus.0@.map_values(|pin: Pin| pin@),
            ptr: self.ptr@,
        }
    }
}

/// The data block of a small computer.
///
/// The pointer holds the address of the current byte and the register its value. The
/// register is loaded from the RAM when the pointer has moved, and written back when
/// it has counted.
pub struct DataBlock {
    /// Enables counting of the data register.
    pub d_ce: Pin,
    /// Enables counting of the pointer.
    pub p_ce: Pin,
    /// Counts up while high.
    pub up: Pin,
    /// Counts down while high.
    pub down: Pin,
    /// The count clock.
    pub count: Pin,
    /// The store clock.
    pub store: Pin,
    /// Reset.
    pub reset: Pin,
    /// The clear clock, which steps through the addresses during reset.
    pub clear: Pin,
    /// The buffer through which the data bus is read.
    pub bus: BusBuffer,
    /// The pointer.
    pub ptr: Counter16Bit,
}

impl DataBlock {
    /// The number of pins that a data block adds to a graph.
    pub const NUM_PINS: usize = 1340;

    /// Enable of the data register.
    pub fn d_ce(&self) -> (r: &Pin)
        ensures
            *r == self.d_ce,
    {
        &self.d_ce
    }

    /// Enable of the pointer.
    pub fn p_ce(&self) -> (r: &Pin)
        ensures
            *r == self.p_ce,
    {
        &self.p_ce
    }

    /// Count direction up.
    pub fn up(&self) -> (r: &Pin)
        ensures
            *r == self.up,
    {
        &self.up
    }

    /// Count direction down.
    pub fn down(&self) -> (r: &Pin)
        ensures
            *r == self.down,
    {
        &self.down
    }

    /// The count clock.
    pub fn count(&self) -> (r: &Pin)
        ensures
            *r == self.count,
    {
        &self.count
    }

    /// The store clock.
    pub fn store(&self) -> (r: &Pin)
        ensures
            *r == self.store,
    {
        &self.store
    }

    /// Reset.
    pub fn reset(&self) -> (r: &Pin)
        ensures
            *r == self.reset,
    {
        &self.reset
    }

    /// The clear clock.
    pub fn clear(&self) -> (r: &Pin)
        ensures
            *r == self.clear,
    {
        &self.clear
    }

    /// The pins on which the data bus is read.
    pub fn data(&self) -> (r: &[Pin])
        ensures
            r@ == self.bus.0@.subrange(0, self.bus.0@.len() as int / 2),
    {
        self.bus.output()
    }

    /// The outputs of the pointer.
    pub fn addr(&self) -> (r: [&Pin; 16])
        ensures
            forall|i: int| 0 <= i < 8 ==> r@[i] == #[trigger] self.ptr.counter1.spec_output()[i],
            forall|i: int| 0 <= i < 8 ==> r@[i + 8] == #[trigger] self.ptr.counter2.spec_output()[i],
    {
        self.ptr.output()
    }

    /// The pins of a data block named `name` whose first pin has the id `base`.
    pub open spec fn layout(base: nat, name: Seq<char>) -> DataBlockView {
        DataBlockView {
            controls: ControlsView::layout(base + 1295, name),
            bus: Seq::new(
                16,
                |i: int| pin_at((base + 1262 + i) as nat, indexed(dotted(name, "bus"@), i as nat)),
            ),
            ptr: Counter16Bit::layout(base, dotted(name, "ptr"@)),
        }
    }

    /// Creates a data block.
    pub fn new(graph: &mut Graph, name: &str) -> (block: Self)
        requires
            old(graph).wf(),
        ensures
            final(graph).wf(),
            final(graph)@ == old(graph)@.with_data_block(name@),
            final(graph)@.len() == old(graph)@.len() + 1340,
            final(graph)@.extends(old(graph)@),
            block@ == DataBlock::layout(old(graph)@.len(), name@),
            block@.open_in(final(graph)@),
    {
        let ghost entry = graph@;
        let ghost base = graph@.len();
        proof {
            reveal(GraphView::with_data_block);
            graph.lemma_wf();
        }
        let parts = DataParts::new(graph, name);
        parts.wire_address(graph, Ghost(entry), Ghost(base));
        parts.wire_bus(graph, Ghost(entry), Ghost(base));
        let controls = Controls::new_logic(graph, Ghost(entry), Ghost(base), name, &parts);
        proof {
            reveal(DataPartsView::layout);
            reveal(DataPartsView::chips_at);
            let view = parts.view();
            let pins = parts.bus.0@.map_values(|pin: Pin| pin@);
            assert(pins =~= DataBlock::layout(base, name@).bus);
            assert forall|i: int| 0 <= i < 8 implies graph@.heads((#[trigger] pins[i]).id) by {
                assert(parts.bus.0@[i].id == view.bus + i);
            }
        }
        DataBlock {
            bus: parts.bus,
            d_ce: controls.data_count_en,
            p_ce: controls.ptr_count_en,
            up: controls.up,
            ptr: parts.ptr,
            down: controls.down,
            count: controls.count_clock,
            store: controls.store_clock,
            reset: controls.reset,
            clear: controls.clear_clock,
        }
    }
}

} // verus!
