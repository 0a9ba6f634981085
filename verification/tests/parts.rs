use befrust::{
    and_nary, buffer, nor_gate, nor_nary, or_gate, or_nary, xor_gate, BusValue, DataBlock, Graph,
    HalfAdder, Ic74193, IcCY7C199, Pin, PinState, Signal, TFlipFlop, ToValue, Updater,
};

const SIGNALS: [Signal; 4] = [Signal::Off, Signal::Low, Signal::High, Signal::Error];

fn input(signal: Signal) -> PinState {
    PinState::Input(signal)
}

#[test]
fn gate_rules() {
    for a in SIGNALS {
        let mut pins = [input(a), PinState::output()];
        Updater::Not.update(&mut pins);
        assert_eq!(pins, [input(a), PinState::Output(!a)]);
        Updater::Buffer.update(&mut pins);
        assert_eq!(pins, [input(a), PinState::Output(a)]);
        for b in SIGNALS {
            let mut pins = [input(a), input(b), PinState::output()];
            Updater::And.update(&mut pins);
            assert_eq!(pins[2], PinState::Output(a & b));
            Updater::Nand.update(&mut pins);
            assert_eq!(pins[2], PinState::Output(!(a & b)));
            Updater::Or.update(&mut pins);
            assert_eq!(pins[2], PinState::Output(a | b));
            Updater::Nor.update(&mut pins);
            assert_eq!(pins[2], PinState::Output(!(a | b)));
            Updater::Xor.update(&mut pins);
            assert_eq!(pins[2], PinState::Output(a ^ b));
            assert_eq!(pins[0], input(a));
            assert_eq!(pins[1], input(b));
        }
    }
}

#[test]
fn nary_rules_fold_every_input() {
    for a in SIGNALS {
        for b in SIGNALS {
            for c in SIGNALS {
                let mut pins = [PinState::output(), input(a), input(b), input(c)];
                Updater::AndNary.update(&mut pins);
                assert_eq!(pins[0], PinState::Output((a & b) & c));
                Updater::NandNary.update(&mut pins);
                assert_eq!(pins[0], PinState::Output(!((a & b) & c)));
                Updater::OrNary.update(&mut pins);
                assert_eq!(pins[0], PinState::Output((a | b) | c));
                Updater::NorNary.update(&mut pins);
                assert_eq!(pins[0], PinState::Output(!((a | b) | c)));
            }
        }
    }
    let mut single = [PinState::output(), input(Signal::Low)];
    Updater::NandNary.update(&mut single);
    assert_eq!(single[0], PinState::Output(Signal::High));
    // An error is never cut short.
    let mut pins = [PinState::output(), input(Signal::Low), input(Signal::Error)];
    Updater::AndNary.update(&mut pins);
    assert_eq!(pins[0], PinState::Output(Signal::Error));
}

#[test]
fn bus_buffer_rule() {
    let mut pins = [
        PinState::output(),
        PinState::output(),
        PinState::output(),
        input(Signal::High),
        PinState::HiZ,
        PinState::Output(Signal::Low),
    ];
    Updater::BusBuffer(3).update(&mut pins);
    assert_eq!(
        pins,
        [
            PinState::Output(Signal::High),
            PinState::HiZ,
            PinState::Output(Signal::Error),
            input(Signal::High),
            PinState::HiZ,
            PinState::Output(Signal::Low),
        ]
    );
}

#[test]
fn bus_tristate_rule() {
    let start = [
        PinState::HiZ,
        PinState::HiZ,
        input(Signal::Low),
        input(Signal::High),
        input(Signal::High),
    ];
    let mut pins = start;
    Updater::BusTristate(2).update(&mut pins);
    assert_eq!(pins[0], PinState::Output(Signal::Low));
    assert_eq!(pins[1], PinState::Output(Signal::High));
    for enable in [Signal::Off, Signal::Low, Signal::Error] {
        pins[4] = input(enable);
        Updater::BusTristate(2).update(&mut pins);
        assert_eq!(pins[0], PinState::HiZ);
        assert_eq!(pins[1], PinState::HiZ);
        assert_eq!(pins[2], input(Signal::Low));
    }
}

fn flip_flop(toggle: Signal, set: Signal, reset: Signal, q: Signal, prev: Signal) -> [PinState; 6] {
    [
        input(toggle),
        input(set),
        input(reset),
        PinState::Output(q),
        PinState::Output(!q),
        input(prev),
    ]
}

#[test]
fn flip_flop_rule() {
    for q in [Signal::Low, Signal::High] {
        // A rising edge inverts the output.
        for prev in [Signal::Off, Signal::Low] {
            let mut pins = flip_flop(Signal::High, Signal::Low, Signal::Low, q, prev);
            TFlipFlop::update(&mut pins);
            assert_eq!(pins[3], PinState::Output(!q));
            assert_eq!(pins[4], PinState::Output(q));
            assert_eq!(pins[5], input(Signal::High));
        }
        // A toggle that stays high, or falls, does not.
        let mut pins = flip_flop(Signal::High, Signal::Low, Signal::Low, q, Signal::High);
        TFlipFlop::update(&mut pins);
        assert_eq!(pins[3], PinState::Output(q));
        let mut pins = flip_flop(Signal::Low, Signal::Low, Signal::Low, q, Signal::High);
        TFlipFlop::update(&mut pins);
        assert_eq!(pins[3], PinState::Output(q));
        assert_eq!(pins[5], input(Signal::Low));
        // Set and reset override the toggle, and reset dominates set.
        let mut pins = flip_flop(Signal::High, Signal::High, Signal::Low, q, Signal::Low);
        TFlipFlop::update(&mut pins);
        assert_eq!(pins[3], PinState::Output(Signal::High));
        let mut pins = flip_flop(Signal::High, Signal::High, Signal::High, q, Signal::Low);
        TFlipFlop::update(&mut pins);
        assert_eq!(pins[3], PinState::Output(Signal::Low));
        assert_eq!(pins[4], PinState::Output(Signal::High));
    }
}

#[test]
fn flip_flop_in_a_graph() {
    let mut graph = Graph::new();
    let mut toggle = graph.new_output("toggle", Signal::Low);
    let mut set = graph.new_output("set", Signal::Low);
    let mut reset = graph.new_output("reset", Signal::Low);
    let flip_flop = TFlipFlop::new(&mut graph, "ff");
    graph.connect(&toggle, flip_flop.toggle());
    graph.connect(&set, flip_flop.set());
    graph.connect(&reset, flip_flop.reset());
    graph.run();
    assert_eq!(flip_flop.output().sig(&graph), Signal::Low);
    assert_eq!(flip_flop.out_inv().sig(&graph), Signal::High);

    for expected in [Signal::High, Signal::Low, Signal::High] {
        toggle.set_output(&mut graph, Signal::High);
        graph.run();
        assert_eq!(flip_flop.output().sig(&graph), expected);
        assert_eq!(flip_flop.out_inv().sig(&graph), !expected);
        toggle.set_output(&mut graph, Signal::Low);
        graph.run();
        assert_eq!(flip_flop.output().sig(&graph), expected);
    }

    reset.set_output(&mut graph, Signal::High);
    set.set_output(&mut graph, Signal::High);
    graph.run();
    assert_eq!(flip_flop.output().sig(&graph), Signal::Low);
    reset.set_output(&mut graph, Signal::Low);
    graph.run();
    assert_eq!(flip_flop.output().sig(&graph), Signal::High);
}

fn ram_pins(ce_inv: Signal, oe_inv: Signal, we_inv: Signal, data: usize, addr: usize) -> Vec<PinState> {
    let mut pins = vec![input(ce_inv), input(oe_inv), input(we_inv)];
    for i in 0..8 {
        pins.push(input(befrust::BusValue::new_val(data).sig(i)));
    }
    for i in 0..15 {
        pins.push(input(befrust::BusValue::new_val(addr).sig(i)));
    }
    pins
}

#[test]
fn ram_rule_read_after_write() {
    let mut ram = vec![0xffu8; 32768];
    for (addr, data) in [(4usize, 4usize), (0, 0), (32767, 0xa5), (4, 0x5a)] {
        let mut pins = ram_pins(Signal::Low, Signal::High, Signal::Low, data, addr);
        IcCY7C199::update(&mut ram, &mut pins);
        assert_eq!(ram[addr], data as u8);
        for i in 3..11 {
            assert!(matches!(pins[i], PinState::Input(_)));
        }

        let mut pins = ram_pins(Signal::Low, Signal::Low, Signal::High, 0, addr);
        IcCY7C199::update(&mut ram, &mut pins);
        assert_eq!(pins[3..11].val(), befrust::BusValue { val: data, error: 0 });
        for i in 3..11 {
            assert!(matches!(pins[i], PinState::Output(_)));
        }
    }
    // An address that was never written reads as 0xFF.
    let mut pins = ram_pins(Signal::Low, Signal::Low, Signal::High, 0, 77);
    IcCY7C199::update(&mut ram, &mut pins);
    assert_eq!(pins[3..11].val(), befrust::BusValue { val: 0xff, error: 0 });
}

#[test]
fn ram_rule_disconnects_when_idle_or_contended() {
    let mut ram = vec![0xffu8; 32768];
    for ce_inv in [Signal::High, Signal::Off] {
        let mut pins = ram_pins(ce_inv, Signal::Low, Signal::Low, 1, 1);
        IcCY7C199::update(&mut ram, &mut pins);
        assert_eq!(&pins[3..11], &[PinState::HiZ; 8]);
    }
    // Output and write enabled together: the IO pins are released, nothing is stored.
    let mut pins = ram_pins(Signal::Low, Signal::Low, Signal::Low, 1, 1);
    IcCY7C199::update(&mut ram, &mut pins);
    assert_eq!(&pins[3..11], &[PinState::HiZ; 8]);
    assert_eq!(ram[1], 0xff);
    // Neither enabled: the IO pins mirror the bus, nothing is stored.
    let mut pins = ram_pins(Signal::Low, Signal::High, Signal::High, 5, 1);
    IcCY7C199::update(&mut ram, &mut pins);
    assert_eq!(pins[3], input(Signal::High));
    assert_eq!(pins[4], input(Signal::Low));
    assert_eq!(ram[1], 0xff);
}

#[test]
fn ram_rule_with_an_error_on_the_address() {
    let mut ram = vec![0xffu8; 32768];
    let mut pins = ram_pins(Signal::Low, Signal::Low, Signal::High, 0, 3);
    pins[12] = input(Signal::Error);
    IcCY7C199::update(&mut ram, &mut pins);
    assert_eq!(&pins[3..11], &[PinState::Output(Signal::Error); 8]);

    let mut pins = ram_pins(Signal::Low, Signal::High, Signal::Low, 9, 3);
    pins[12] = input(Signal::Error);
    IcCY7C199::update(&mut ram, &mut pins);
    assert!(ram.iter().all(|byte| *byte == 0xff));
    // An error on the data is read as a low bit.
    let mut pins = ram_pins(Signal::Low, Signal::High, Signal::Low, 0xff, 3);
    pins[3] = input(Signal::Error);
    IcCY7C199::update(&mut ram, &mut pins);
    assert_eq!(ram[3], 0xfe);
}

#[test]
fn ram_store_and_load() {
    let mut graph = Graph::new();
    let ram = IcCY7C199::new(&mut graph, "ram");
    let ce_inv = graph.new_output("ce_inv", Signal::Low);
    let mut oe_inv = graph.new_output("oe_inv", Signal::High);
    let mut we_inv = graph.new_output("we_inv", Signal::High);
    graph.connect(&ce_inv, ram.ce_inv());
    graph.connect(&oe_inv, ram.oe_inv());
    graph.connect(&we_inv, ram.we_inv());
    let mut data = graph.new_pins("d", &[PinState::Output(Signal::Low); 8]);
    let mut addr = graph.new_pins("a", &[PinState::Output(Signal::Low); 15]);
    for i in 0..8 {
        graph.connect(&data[i], &ram.io()[i]);
    }
    for i in 0..15 {
        graph.connect(&addr[i], &ram.addr()[i]);
    }
    // The IO pins turn into inputs with the first run, and take over the bus as soon
    // as it changes.
    graph.run();
    data[2].set_output(&mut graph, Signal::High);
    addr[2].set_output(&mut graph, Signal::High);
    graph.run();

    we_inv.set_output(&mut graph, Signal::Low);
    graph.run();
    we_inv.set_output(&mut graph, Signal::High);
    graph.run();

    // Release the bus, then read the byte back.
    for pin in data.iter_mut() {
        let state = pin.state(&graph);
        assert!(matches!(state, PinState::Output(_)));
    }
    let mut graph2 = graph;
    let read = |graph: &Graph, ram: &IcCY7C199| -> Vec<PinState> {
        ram.io().iter().map(|pin: &Pin| pin.state(graph)).collect()
    };
    oe_inv.set_output(&mut graph2, Signal::Low);
    graph2.run();
    let states = read(&graph2, &ram);
    assert_eq!(states.as_slice().val(), befrust::BusValue { val: 0b0000_0100, error: 0 });

    addr[2].set_output(&mut graph2, Signal::Low);
    addr[5].set_output(&mut graph2, Signal::High);
    graph2.run();
    let states = read(&graph2, &ram);
    assert_eq!(states.as_slice().val(), befrust::BusValue { val: 0xff, error: 0 });
}

struct Bench {
    graph: Graph,
    counter: Ic74193,
    d: Vec<Pin>,
    up: Pin,
    down: Pin,
    load_inv: Pin,
    clear: Pin,
}

fn bench() -> Bench {
    let mut graph = Graph::new();
    let d = graph.new_pins("d", &[PinState::Output(Signal::Low); 4]);
    let up = graph.new_output("up", Signal::High);
    let down = graph.new_output("down", Signal::High);
    let load_inv = graph.new_output("load_inv", Signal::High);
    let clear = graph.new_output("clear", Signal::High);
    let counter = Ic74193::new(&mut graph, "counter");
    graph.connect(&up, counter.up());
    graph.connect(&down, counter.down());
    graph.connect(&load_inv, counter.load_inv());
    graph.connect(&clear, counter.clear());
    for (source, pin) in d.iter().zip(counter.input()) {
        graph.connect(source, pin);
    }
    Bench { graph, counter, d, up, down, load_inv, clear }
}

impl Bench {
    fn value(&self) -> usize {
        let signals: Vec<Signal> = self.counter.output().iter().map(|pin| pin.sig(&self.graph)).collect();
        signals.as_slice().val().unwrap()
    }

    fn clear_then_load(&mut self, v: usize) {
        for i in 0..4 {
            let bit = befrust::BusValue::new_val(v).sig(i);
            self.d[i].set_output(&mut self.graph, bit);
        }
        self.graph.run();
        self.clear.set_output(&mut self.graph, Signal::Low);
        self.graph.run();
        assert_eq!(self.value(), 0);
        self.load_inv.set_output(&mut self.graph, Signal::Low);
        self.graph.run();
        self.load_inv.set_output(&mut self.graph, Signal::High);
        self.graph.run();
    }
}

#[test]
fn counter_loads_every_value() {
    for v in 0..16 {
        let mut bench = bench();
        bench.clear_then_load(v);
        assert_eq!(bench.value(), v);
    }
}

#[test]
fn counter_counts_up_and_down() {
    for v in 0..16 {
        let mut bench = bench();
        bench.clear_then_load(v);

        bench.up.set_output(&mut bench.graph, Signal::Low);
        bench.graph.run();
        let carry_low = bench.counter.carry().sig(&bench.graph);
        bench.up.set_output(&mut bench.graph, Signal::High);
        bench.graph.run();
        assert_eq!(bench.value(), (v + 1) % 16);
        assert_eq!(bench.counter.carry().sig(&bench.graph), Signal::High);
        // Carry pulses low while up is low at fifteen, and at no other value.
        assert_eq!(carry_low, if v == 15 { Signal::Low } else { Signal::High });

        bench.down.set_output(&mut bench.graph, Signal::Low);
        bench.graph.run();
        let borrow_low = bench.counter.borrow().sig(&bench.graph);
        bench.down.set_output(&mut bench.graph, Signal::High);
        bench.graph.run();
        assert_eq!(bench.value(), v);
        assert_eq!(bench.counter.borrow().sig(&bench.graph), Signal::High);
        assert_eq!(borrow_low, if (v + 1) % 16 == 0 { Signal::Low } else { Signal::High });
    }
}

#[test]
fn counter_clear_wins() {
    let mut bench = bench();
    bench.clear_then_load(9);
    assert_eq!(bench.value(), 9);
    bench.clear.set_output(&mut bench.graph, Signal::High);
    bench.graph.run();
    assert_eq!(bench.value(), 0);
    assert_eq!(bench.graph.len(), 8 + 206);
}

#[test]
fn builders_place_their_pins_in_order() {
    let mut graph = Graph::new();
    let source = graph.new_output("source", Signal::High);
    let adder = HalfAdder::new(&mut graph, "cell");
    assert_eq!(adder.input().id, 1);
    assert_eq!(adder.input().name(), "cell.input");
    assert_eq!(adder.clear().name(), "cell.clear");
    assert_eq!(adder.load().name(), "cell.load");
    assert_eq!(adder.toggle().id, 4);
    assert_eq!(adder.toggle().name(), "cell.flip_flop[0]");
    assert_eq!(adder.output().id, 7);
    assert_eq!(adder.out_inv().id, 8);
    assert_eq!(graph.len(), 32);
    assert!(!graph.connected(&source, adder.input()));

    let counter = Ic74193::new(&mut graph, "ic");
    assert_eq!(counter.up().id, 32);
    assert_eq!(counter.up().name(), "ic.up_inv[0]");
    assert_eq!(counter.carry().id, 32 + 177);
    assert_eq!(counter.carry().name(), "ic.carry[0]");
    assert_eq!(counter.borrow().id, 32 + 183);
    assert_eq!(counter.in2().name(), "ic.adder2.half.input");
    assert_eq!(graph.len(), 32 + 206);
}

#[test]
fn other_gates_in_a_graph() {
    let mut graph = Graph::new();
    let high = graph.new_output("high", Signal::High);
    let low = graph.new_output("low", Signal::Low);

    let buffered = buffer(&mut graph, "buffer");
    graph.connect(&high, buffered.input());
    let or = or_gate(&mut graph, "or");
    graph.connect_pairs(&[(&high, or.input_a()), (&low, or.input_b())]);
    let nor = nor_gate(&mut graph, "nor");
    graph.connect_pairs(&[(&high, nor.input_a()), (&low, nor.input_b())]);
    let xor = xor_gate(&mut graph, "xor");
    graph.connect_pairs(&[(&high, xor.input_a()), (&low, xor.input_b())]);
    let any = or_nary(&mut graph, "any", 3);
    any.connect_inputs(&mut graph, &[&low, &low, &high]);
    let none = nor_nary(&mut graph, "none", 2);
    none.connect_inputs(&mut graph, &[&low, &low]);
    let all = and_nary(&mut graph, "all", 1);
    all.connect_inputs(&mut graph, &[&low]);

    graph.run();

    assert_eq!(buffered.output().sig(&graph), Signal::High);
    assert_eq!(or.output().sig(&graph), Signal::High);
    assert_eq!(nor.output().sig(&graph), Signal::Low);
    assert_eq!(xor.output().sig(&graph), Signal::High);
    assert_eq!(any.output().sig(&graph), Signal::High);
    assert_eq!(none.output().sig(&graph), Signal::High);
    assert_eq!(all.output().sig(&graph), Signal::Low);
    assert_eq!(any.input().len(), 3);
    assert_eq!(any.input_n(2).name(), "any[3]");
}

struct Desk {
    graph: Graph,
    block: DataBlock,
    down: Pin,
    count: Pin,
    store: Pin,
    p_ce: Pin,
    d_ce: Pin,
    reset: Pin,
}

fn desk() -> Desk {
    let mut graph = Graph::new();
    let down = graph.new_output("down", Signal::Low);
    let up = down.not(&mut graph);
    let count = graph.new_output("count", Signal::Low);
    let store = graph.new_output("store", Signal::Low);
    let clear = graph.new_output("clear", Signal::Low);
    let p_ce = graph.new_output("p_ce", Signal::Low);
    let d_ce = graph.new_output("d_ce", Signal::Low);
    let reset = graph.new_output("reset", Signal::High);
    let block = DataBlock::new(&mut graph, "data");
    graph.connect_pairs(&[
        (&up, block.up()),
        (&down, block.down()),
        (&count, block.count()),
        (&store, block.store()),
        (&p_ce, block.p_ce()),
        (&d_ce, block.d_ce()),
        (&reset, block.reset()),
        (&clear, block.clear()),
    ]);
    Desk { graph, block, down, count, store, p_ce, d_ce, reset }
}

impl Desk {
    fn data(&self) -> BusValue {
        let signals: Vec<Signal> = self.block.data().iter().map(|pin| pin.sig(&self.graph)).collect();
        signals.as_slice().val()
    }

    fn addr(&self) -> BusValue {
        let signals: Vec<Signal> = self.block.addr().iter().map(|pin| pin.sig(&self.graph)).collect();
        signals.as_slice().val()
    }
}

#[test]
fn data_block_is_laid_out_in_order() {
    let desk = desk();
    assert_eq!(desk.graph.len(), 9 + 1340);
    assert_eq!(desk.block.addr()[0].id, 9 + 14);
    assert_eq!(desk.block.data().len(), 8);
    assert_eq!(desk.block.data()[0].id, 9 + 1262);
    assert_eq!(desk.block.data()[0].name(), "data.bus[0]");
    assert_eq!(desk.block.up().id, 9 + 1295);
    assert_eq!(desk.block.up().name(), "data.up");
    assert_eq!(desk.block.reset().id, 9 + 1302);
    assert_eq!(desk.block.reset().name(), "data.reset");
    assert!(desk.graph.connected(&desk.reset, desk.block.reset()));
    assert!(!desk.graph.connected(&desk.down, desk.block.up()));
}

#[test]
fn data_block_counts_its_register() {
    let mut desk = desk();
    let stats = desk.graph.run();
    assert_eq!(stats.cycle, 0);
    // During reset the register is cleared and drives the bus.
    assert_eq!(desk.data(), BusValue { val: 0, error: 0 });
    // Nothing ever clears the pointer: it starts wherever switching on has left it.
    let start = desk.addr();
    assert_eq!(start.error, 0);

    desk.reset.set_output(&mut desk.graph, Signal::Low);
    desk.graph.run();
    desk.d_ce.set_output(&mut desk.graph, Signal::High);
    desk.graph.run();
    assert_eq!(desk.data(), BusValue { val: 0, error: 0 });

    for expected in 1..4 {
        desk.graph.pulse_output(&mut desk.count);
        assert_eq!(desk.data(), BusValue { val: expected, error: 0 });
    }
    desk.graph.pulse_output(&mut desk.store);
    assert_eq!(desk.data(), BusValue { val: 3, error: 0 });

    // The pointer moves on while the register is disabled.
    desk.d_ce.set_output(&mut desk.graph, Signal::Low);
    desk.graph.run();
    desk.p_ce.set_output(&mut desk.graph, Signal::High);
    desk.graph.run();
    desk.graph.pulse_output(&mut desk.count);
    assert_eq!(desk.addr(), BusValue { val: (start.val + 1) % 65536, error: 0 });
    desk.down.set_output(&mut desk.graph, Signal::High);
    desk.graph.run();
    desk.graph.pulse_output(&mut desk.count);
    assert_eq!(desk.addr(), start);
}
