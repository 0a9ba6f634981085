use befrust::{
    not_gate, BusBuffer, BusTristate, BusValue, Graph, Pin, PinState, RunStats, Signal, ToValue,
    Updater,
};

const SIGNALS: [Signal; 4] = [Signal::Off, Signal::Low, Signal::High, Signal::Error];

#[test]
fn error_absorbs_every_operation() {
    for x in SIGNALS {
        assert_eq!(Signal::Error & x, Signal::Error);
        assert_eq!(x & Signal::Error, Signal::Error);
        assert_eq!(Signal::Error | x, Signal::Error);
        assert_eq!(x | Signal::Error, Signal::Error);
        assert_eq!(Signal::Error ^ x, Signal::Error);
        assert_eq!(x ^ Signal::Error, Signal::Error);
    }
    assert_eq!(!Signal::Error, Signal::Error);
}

#[test]
fn xor_table() {
    let (off, low, high) = (Signal::Off, Signal::Low, Signal::High);
    assert_eq!(off ^ off, off);
    for (a, b, expected) in [
        (high, low, high),
        (low, high, high),
        (high, high, low),
        (low, low, low),
        (high, off, low),
        (off, high, low),
        (low, off, low),
        (off, low, low),
    ] {
        assert_eq!(a ^ b, expected);
    }
}

#[test]
fn not_is_an_involution() {
    for x in SIGNALS {
        assert_eq!(!!x, x);
    }
    assert_eq!(!Signal::Off, Signal::Off);
    assert_eq!(!Signal::Error, Signal::Error);
}

#[test]
fn operations_are_commutative() {
    for x in SIGNALS {
        for y in SIGNALS {
            assert_eq!(x & y, y & x);
            assert_eq!(x | y, y | x);
            assert_eq!(x ^ y, y ^ x);
        }
    }
}

#[test]
fn pin_state_operators_use_the_signal() {
    let hiz = PinState::HiZ;
    let high = PinState::Input(Signal::High);
    let low = PinState::Output(Signal::Low);
    assert_eq!(!hiz, Signal::Off);
    assert_eq!(!high, Signal::Low);
    assert_eq!(high & low, Signal::Low);
    assert_eq!(high | low, Signal::High);
    assert_eq!(high ^ low, Signal::High);
    assert_eq!(hiz | low, Signal::Low);
    let converted: Signal = low.into();
    assert_eq!(converted, Signal::Low);
    assert_eq!(Signal::from(hiz), Signal::Off);
    assert!(hiz.is_lowish());
    assert!(low.is_lowish());
    assert!(!high.is_lowish());
    assert!(high.is_high());
    assert!(!PinState::Input(Signal::Error).is_lowish());
    assert!(Signal::Off.is_lowish());
    assert!(!Signal::Error.is_high());
}

#[test]
fn defaults() {
    assert_eq!(Signal::default(), Signal::Error);
    assert_eq!(PinState::default(), PinState::HiZ);
    assert_eq!(BusValue::default(), BusValue { val: 0, error: 0 });
    assert_eq!(PinState::input(), PinState::Input(Signal::Off));
    assert_eq!(PinState::output(), PinState::Output(Signal::Error));
}

#[test]
fn bus_value_of_signals() {
    let empty: [Signal; 0] = [];
    assert_eq!(empty.as_slice().val(), BusValue { val: 0, error: 0 });

    let mixed = [Signal::High, Signal::Off, Signal::Error, Signal::Low, Signal::High];
    assert_eq!(mixed.as_slice().val(), BusValue { val: 0b10001, error: 0b00100 });

    let full = [Signal::High; usize::BITS as usize];
    assert_eq!(full.as_slice().val(), BusValue { val: usize::MAX, error: 0 });

    assert_eq!(Signal::Error.val(), BusValue::new_error(1));
    assert_eq!(Signal::High.val(), BusValue::new_val(1));
    assert_eq!(Signal::Low.val(), BusValue::new_val(0));
    assert_eq!(Signal::Off.val(), BusValue::new_val(0));
    assert_eq!((&PinState::Output(Signal::High)).val(), BusValue::new_val(1));
    assert_eq!((&PinState::HiZ).val(), BusValue::new_val(0));
}

#[test]
fn bus_value_bits() {
    let value = BusValue { val: 0b0101, error: 0b0110 };
    assert_eq!(value.sig(0), Signal::High);
    assert_eq!(value.sig(1), Signal::Error);
    assert_eq!(value.sig(2), Signal::Error);
    assert_eq!(value.sig(3), Signal::Low);
    assert_eq!(value.sig(usize::BITS as usize - 1), Signal::Low);
    assert_eq!(BusValue::new_val(usize::MAX).sig(usize::BITS as usize - 1), Signal::High);
    assert_eq!(BusValue::new_val(27).unwrap(), 27);
}

#[test]
fn bus_value_round_trip_of_every_byte() {
    for v in 0..256usize {
        let value = BusValue::new_val(v);
        let signals: Vec<Signal> = (0..8).map(|i| value.sig(i)).collect();
        assert_eq!(signals.as_slice().val(), BusValue { val: v, error: 0 });
    }
}

#[test]
fn node_resolution_single_driver() {
    let mut graph = Graph::new();
    let source = graph.new_output("source", Signal::High);
    let one = graph.new_input("one");
    let other = graph.new_input("other");
    graph.connect_all(&[&source, &one, &other]);

    assert_eq!(graph.update_nodes(), 1);

    assert_eq!(one.state(&graph), PinState::Input(Signal::High));
    assert_eq!(other.state(&graph), PinState::Input(Signal::High));
    assert_eq!(source.state(&graph), PinState::Output(Signal::High));
    assert_eq!(graph.update_nodes(), 0);
}

#[test]
fn node_without_driver_is_off() {
    let mut graph = Graph::new();
    let source = graph.new_output("source", Signal::High);
    let mut enable = graph.new_output("enable", Signal::High);
    let buffer = BusTristate::new(&mut graph, "buffer", 1);
    let probe = graph.new_input("probe");
    graph.connect(&source, &buffer.input()[0]);
    graph.connect(&enable, buffer.en());
    graph.connect(&buffer.output()[0], &probe);

    graph.run();
    assert_eq!(probe.state(&graph), PinState::Input(Signal::High));

    // With the buffer disabled nothing drives the node of the probe any more.
    enable.set_output(&mut graph, Signal::Low);
    graph.run();
    assert_eq!(buffer.output()[0].state(&graph), PinState::HiZ);
    assert_eq!(probe.state(&graph), PinState::Input(Signal::Off));
}

#[test]
fn new_node_is_off() {
    let mut graph = Graph::new();
    let input = graph.new_input("input");
    let off = graph.new_output("off", Signal::Off);
    graph.connect(&off, &input);

    // Nothing changes where an output drives `Off` onto new pins.
    assert_eq!(graph.update_nodes(), 0);
    assert_eq!(input.state(&graph), PinState::Input(Signal::Off));
    assert_eq!(graph.run(), RunStats { ticks: 1, updates: 0, cycle: 0 });
}

#[test]
fn two_driver_conflict() {
    let mut graph = Graph::new();
    let high = graph.new_output("high", Signal::High);
    let low = graph.new_output("low", Signal::Low);
    let input = graph.new_input("input");
    graph.connect_all(&[&high, &low, &input]);

    let stats = graph.run();

    assert_eq!(input.state(&graph), PinState::Input(Signal::Error));
    assert_eq!(high.state(&graph), PinState::Output(Signal::High));
    assert_eq!(low.state(&graph), PinState::Output(Signal::Low));
    assert_eq!(stats, RunStats { ticks: 2, updates: 1, cycle: 0 });
}

#[test]
fn conflict_after_a_run() {
    let mut graph = Graph::new();
    let high = graph.new_output("high", Signal::High);
    let low = graph.new_output("low", Signal::Low);
    let input = graph.new_input("input");

    graph.connect(&high, &input);
    graph.run();
    assert_eq!(input.sig(&graph), Signal::High);

    graph.connect(&high, &low);
    graph.run();
    assert_eq!(input.sig(&graph), Signal::Error);
}

#[test]
fn conflict_of_equal_signals_is_an_error_too() {
    let mut graph = Graph::new();
    let one = graph.new_output("one", Signal::High);
    let other = graph.new_output("other", Signal::High);
    let input = graph.new_input("input");

    graph.connect(&one, &input);
    graph.run();
    graph.connect(&one, &other);
    let stats = graph.run();
    assert_eq!(input.sig(&graph), Signal::Error);
    assert_eq!(stats, RunStats { ticks: 2, updates: 1, cycle: 0 });
}

#[test]
fn input_keeps_its_signal_while_its_node_does_not_change() {
    // Inputs are written when their node changes. An input that joins a node which
    // holds its signal already is not written until the node changes again.
    let mut graph = Graph::new();
    let mut source = graph.new_output("source", Signal::High);
    let early = graph.new_input("early");
    graph.connect(&source, &early);
    graph.run();
    assert_eq!(early.state(&graph), PinState::Input(Signal::High));

    let late = graph.new_input("late");
    graph.connect(&source, &late);
    let stats = graph.run();
    assert_eq!(stats, RunStats { ticks: 1, updates: 0, cycle: 0 });
    assert_eq!(late.state(&graph), PinState::Input(Signal::Off));

    source.set_output(&mut graph, Signal::Low);
    graph.run();
    assert_eq!(early.state(&graph), PinState::Input(Signal::Low));
    assert_eq!(late.state(&graph), PinState::Input(Signal::Low));
}

#[test]
fn not_chain() {
    let mut graph = Graph::new();

    let a = graph.new_output("a", Signal::High);
    let not1 = not_gate(&mut graph, "not1");
    let not2 = not_gate(&mut graph, "not2");
    graph.connect(&a, not1.input());
    graph.connect(not1.output(), not2.input());

    let stats = graph.run();

    assert_eq!(not1.output().sig(&graph), Signal::Low);
    assert_eq!(not2.output().sig(&graph), Signal::High);
    // Three ticks change something: one for the source and one for each gate. The
    // fourth finds the circuit settled and is counted as well.
    assert_eq!(stats, RunStats { ticks: 4, updates: 3, cycle: 0 });
    assert_eq!(graph.tick(), 0);
}

#[test]
fn chain_settles_within_its_depth() {
    for depth in 1..8usize {
        let mut graph = Graph::new();
        let source = graph.new_output("source", Signal::High);
        let mut last: Pin = source.clone();
        for _ in 0..depth {
            last = last.not(&mut graph);
        }
        let stats = graph.run();
        assert_eq!(stats.cycle, 0);
        assert_eq!(stats.ticks, depth + 2);
        let expected = if depth % 2 == 0 { Signal::High } else { Signal::Low };
        assert_eq!(last.sig(&graph), expected);
    }
}

#[test]
fn oscillator() {
    let mut graph = Graph::new();
    let states = [
        [PinState::Input(Signal::Low), PinState::output()],
        [PinState::Input(Signal::Low), PinState::output()],
        [PinState::Input(Signal::High), PinState::output()],
    ];
    let ring: Vec<Vec<Pin>> = states
        .iter()
        .map(|s| graph.new_part("not", s, Updater::Not))
        .collect();
    graph.connect(&ring[0][1], &ring[1][0]);
    graph.connect(&ring[1][1], &ring[2][0]);
    graph.connect(&ring[2][1], &ring[0][0]);

    let stats = graph.run();

    // The ring has a period of six ticks: the state after the seventh tick is the state
    // after the first, and five ticks lie between the two.
    assert_eq!(stats.cycle, 5);
    assert_eq!(stats.ticks, 8);
}

#[test]
fn ring_without_a_signal_settles() {
    let mut graph = Graph::new();
    let one = not_gate(&mut graph, "one");
    let two = not_gate(&mut graph, "two");
    let three = not_gate(&mut graph, "three");
    graph.connect(one.output(), two.input());
    graph.connect(two.output(), three.input());
    graph.connect(three.output(), one.input());

    let stats = graph.run();

    assert_eq!(stats.cycle, 0);
    assert_eq!(three.output().sig(&graph), Signal::Off);
}

#[test]
fn run_stats_add_componentwise() {
    let a = RunStats { ticks: 3, updates: 7, cycle: 0 };
    let b = RunStats { ticks: 2, updates: 1, cycle: 5 };
    assert_eq!(a + b, RunStats { ticks: 5, updates: 8, cycle: 5 });
}

#[test]
fn pulse_and_flash() {
    let mut graph = Graph::new();
    let mut source = graph.new_output("source", Signal::Low);
    let gate = not_gate(&mut graph, "not");
    graph.connect(&source, gate.input());
    graph.run();
    assert_eq!(gate.output().sig(&graph), Signal::High);
    assert!(graph.is_free(&source));
    assert!(!graph.is_free(gate.output()));

    graph.flip_output(&mut source);
    assert_eq!(source.state(&graph), PinState::Output(Signal::High));
    graph.flip_output(&mut source);

    // The flipped input reaches the not gate one tick late.
    let updates = graph.flash_output(&mut source);
    assert_eq!(updates, 1);
    assert_eq!(source.state(&graph), PinState::Output(Signal::Low));
    assert_eq!(gate.input().sig(&graph), Signal::High);
    graph.run();
    assert_eq!(gate.output().sig(&graph), Signal::High);

    let stats = graph.pulse_output(&mut source);
    assert_eq!(stats, RunStats { ticks: 6, updates: 4, cycle: 0 });
    assert_eq!(source.state(&graph), PinState::Output(Signal::Low));
    assert_eq!(gate.output().sig(&graph), Signal::High);
}

#[test]
fn bus_round_trip() {
    for v in 0..32usize {
        let mut graph = Graph::new();
        let buffer = BusBuffer::new(&mut graph, "buffer", 5);
        let value = BusValue::new_val(v);
        let states: Vec<PinState> = (0..5).map(|i| PinState::Output(value.sig(i))).collect();
        let sources = graph.new_pins("v", &states);
        for i in 0..5 {
            graph.connect(&sources[i], &buffer.input()[i]);
        }
        graph.run();
        let read: Vec<Signal> = buffer.output().iter().map(|pin| pin.sig(&graph)).collect();
        assert_eq!(read.as_slice().val(), BusValue { val: v, error: 0 });
    }
}

#[test]
fn connect_merges_into_the_first_node() {
    let mut graph = Graph::new();
    let a = graph.new_input("a");
    let b = graph.new_input("b");
    let c = graph.new_input("c");
    let d = graph.new_input("d");
    assert!(!graph.connected(&a, &b));

    graph.connect(&c, &d);
    graph.connect(&a, &c);

    assert!(graph.connected(&a, &d));
    assert!(graph.connected(&c, &d));
    assert!(!graph.connected(&a, &b));
    let nodes = graph.nodes();
    assert_eq!(nodes.len(), 2);
    assert_eq!(nodes[0].0, 0);
    let ids: Vec<usize> = nodes[0].1.iter().map(|pin| pin.id).collect();
    assert_eq!(ids, vec![0, 2, 3]);
    assert_eq!(nodes[1].0, 1);
    let orphans = graph.orphans();
    assert_eq!(orphans.len(), 1);
    assert_eq!(orphans[0].0, 1);
    assert_eq!(orphans[0].1.id, 1);
    assert_eq!(orphans[0].1.name(), "b");
}

#[test]
fn connect_order_does_not_change_the_partition() {
    let build = |order: &[(usize, usize)]| {
        let mut graph = Graph::new();
        let pins = graph.new_pins("p", &[PinState::input(); 6]);
        for (a, b) in order {
            graph.connect(&pins[*a], &pins[*b]);
        }
        let mut table = Vec::new();
        for a in 0..6 {
            for b in 0..6 {
                table.push(graph.connected(&pins[a], &pins[b]));
            }
        }
        table
    };
    let one = build(&[(0, 1), (2, 3), (1, 3), (4, 5)]);
    let other = build(&[(5, 4), (3, 1), (3, 2), (1, 0)]);
    assert_eq!(one, other);
    assert!(one[0 * 6 + 2]);
    assert!(!one[0 * 6 + 4]);
}

#[test]
fn pins_are_named_after_their_group() {
    let mut graph = Graph::new();
    let pins = graph.new_pins("d", &[PinState::input(); 12]);
    assert_eq!(pins[0].name(), "d[0]");
    assert_eq!(pins[9].name(), "d[9]");
    assert_eq!(pins[10].name(), "d[10]");
    assert_eq!(pins[11].id, 11);
    assert_eq!(graph.len(), 12);

    let a = graph.new_output("a", Signal::High);
    let b = graph.new_input("b");
    assert_eq!(a.not(&mut graph).name(), "not(a)[1]");
    assert_eq!(a.bitand(&mut graph, &b).name(), "and(a, b)[2]");
    assert_eq!(a.bitor(&mut graph, &b).name(), "or(a, b)[2]");
    assert_eq!(a.bitxor(&mut graph, &b).name(), "xor(a, b)[2]");
    assert_eq!(befrust::names::decimal_name(0), "0");
    assert_eq!(befrust::names::decimal_name(1204), "1204");
    assert_eq!(befrust::names::dotted_name("counter", "up"), "counter.up");
}

#[test]
fn set_output_replaces_the_signal() {
    let mut graph = Graph::new();
    let mut a = graph.new_output("a", Signal::High);
    graph.set_output(&mut a, Signal::Off);
    assert_eq!(graph.get_state(&a), PinState::Output(Signal::Off));
    a.set_output(&mut graph, Signal::Error);
    assert_eq!(graph.get_signal(&a), Signal::Error);
}
