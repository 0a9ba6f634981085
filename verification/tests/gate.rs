use befrust::{
    and_gate, and_nary, nand_gate, nand_nary, not_gate, BusBuffer, BusTristate, Graph, PinState,
    Signal, Updater,
};

#[test]
fn create_graph() {
    let mut graph = Graph::new();

    let a = graph.new_output("a", Signal::High);

    let pins = graph.new_part(
        "not_gate",
        &[PinState::input(), PinState::output()],
        Updater::Not,
    );

    graph.connect(&a, &pins[0]);

    graph.run();

    assert_eq!(graph.get_signal(&pins[1]), Signal::Low);
}

#[test]
fn gate_test_not_gate() {
    let mut graph = Graph::new();

    let a = graph.new_output("a", Signal::High);
    let not1 = not_gate(&mut graph, "not2");
    let not2 = not_gate(&mut graph, "not1");

    graph.connect(&a, not1.input());
    graph.connect(not1.output(), not2.input());

    graph.run();

    assert_eq!(not1.output().sig(&graph), Signal::Low);
    assert_eq!(not2.output().sig(&graph), Signal::High);
}

#[test]
fn gate_test_and_gate() {
    let mut graph = Graph::new();

    let high = graph.new_output("high", Signal::High);
    let low = graph.new_output("low", Signal::Low);
    let high2 = graph.new_output("high2", Signal::High);

    let high_and_low = and_gate(&mut graph, "and1");
    let high_and_high = and_gate(&mut graph, "and2");

    graph.connect_all(&[&high, high_and_low.input_a(), high_and_high.input_a()]);
    graph.connect(&low, high_and_low.input_b());
    graph.connect(&high2, high_and_high.input_b());

    graph.run();

    assert_eq!(high_and_low.output().sig(&graph), Signal::Low);
    assert_eq!(high_and_high.output().sig(&graph), Signal::High);
}

#[test]
fn test_and_nary() {
    let mut graph = Graph::new();
    let a1 = graph.new_output("a1", Signal::High);
    let a2 = graph.new_output("a2", Signal::High);
    let a3 = graph.new_output("a3", Signal::High);
    let mut a4 = graph.new_output("a4", Signal::High);

    let andy = and_nary(&mut graph, "andy", 4);

    andy.connect_inputs(&mut graph, &[&a1, &a2, &a3, &a4]);

    graph.run();

    assert_eq!(andy.output().sig(&graph), Signal::High);

    a4.set_output(&mut graph, Signal::Low);
    graph.run();

    assert_eq!(andy.output().sig(&graph), Signal::Low);
}

#[test]
fn test_nand_gate() {
    let mut graph = Graph::new();

    let high = graph.new_output("high", Signal::High);
    let low = graph.new_output("low", Signal::Low);
    let high2 = graph.new_output("high2", Signal::High);

    let high_nand_low = nand_gate(&mut graph, "nand1");
    let high_nand_high = nand_gate(&mut graph, "nand2");

    graph.connect_all(&[&high, high_nand_low.input_a(), high_nand_high.input_a()]);
    graph.connect(&low, high_nand_low.input_b());
    graph.connect(&high2, high_nand_high.input_b());

    graph.run();

    assert_eq!(high_nand_low.output().sig(&graph), Signal::High);
    assert_eq!(high_nand_high.output().sig(&graph), Signal::Low);
}

#[test]
fn test_nand_nary() {
    let mut graph = Graph::new();
    let a1 = graph.new_output("a1", Signal::High);
    let a2 = graph.new_output("a2", Signal::High);
    let a3 = graph.new_output("a3", Signal::High);
    let mut a4 = graph.new_output("a4", Signal::Low);

    let nandy = nand_nary(&mut graph, "nandy", 4);

    nandy.connect_inputs(&mut graph, &[&a1, &a2, &a3, &a4]);

    graph.run();

    assert_eq!(nandy.output().sig(&graph), Signal::High);

    a4.set_output(&mut graph, Signal::High);
    graph.run();

    assert_eq!(nandy.output().sig(&graph), Signal::Low);
}

#[test]
fn test_bus_buffer() {
    let mut graph = Graph::new();

    let buffer = BusBuffer::new(&mut graph, "buffer", 5);

    let mut inputs = graph.new_pins("inputs", &[PinState::Output(Signal::Low); 5]);
    for i in 0..5 {
        graph.connect(&inputs[i], &buffer.input()[i]);
    }

    graph.run();

    for i in 0..5 {
        assert_eq!(buffer.output()[i].sig(&graph), Signal::Low);
    }

    inputs[2].set_output(&mut graph, Signal::High);
    graph.run();

    for i in 0..5 {
        if i == 2 {
            assert_eq!(buffer.output()[i].sig(&graph), Signal::High);
        } else {
            assert_eq!(buffer.output()[i].sig(&graph), Signal::Low);
        }
    }
}

#[test]
fn test_bus_tristate() {
    let mut graph = Graph::new();

    let buffer = BusTristate::new(&mut graph, "buffer", 5);

    let mut inputs = graph.new_pins("inputs", &[PinState::Output(Signal::Low); 5]);
    for i in 0..5 {
        graph.connect(&inputs[i], &buffer.input()[i]);
    }

    let mut enable = graph.new_output("enable", Signal::Low);
    graph.connect(&enable, buffer.en());

    graph.run();

    for i in 0..5 {
        assert_eq!(PinState::HiZ, buffer.output()[i].state(&graph));
    }

    enable.set_output(&mut graph, Signal::High);
    graph.run();
    for i in 0..5 {
        assert_eq!(buffer.output()[i].sig(&graph), Signal::Low);
    }

    inputs[2].set_output(&mut graph, Signal::High);
    graph.run();

    for i in 0..5 {
        if i == 2 {
            assert_eq!(buffer.output()[i].sig(&graph), Signal::High);
        } else {
            assert_eq!(buffer.output()[i].sig(&graph), Signal::Low);
        }
    }

    enable.set_output(&mut graph, Signal::Low);
    graph.run();
    for i in 0..5 {
        assert_eq!(PinState::HiZ, buffer.output()[i].state(&graph));
    }
}

#[test]
fn gate_test_unary() {
    let mut graph = Graph::new();

    let high = graph.new_output("high", Signal::High);

    let not_high = high.not(&mut graph);

    let yes_high = high.not(&mut graph).not(&mut graph);

    graph.run();

    assert_eq!(not_high.sig(&graph), Signal::Low);
    assert_eq!(yes_high.sig(&graph), Signal::High);
}

#[test]
fn gate_test_binary() {
    let mut graph = Graph::new();

    let high = graph.new_output("high", Signal::High);
    let low = graph.new_output("low", Signal::Low);

    let high_and_low = high.bitand(&mut graph, &low);
    let high_and_low_or_high = high_and_low.bitor(&mut graph, &high);

    let high_xor_low1 = high.bitxor(&mut graph, &low);
    let not_low = low.not(&mut graph);
    let left = high.bitand(&mut graph, &not_low);
    let not_high = high.not(&mut graph);
    let right = not_high.bitand(&mut graph, &low);
    let high_xor_low2 = left.bitor(&mut graph, &right);

    graph.run();

    assert_eq!(high_and_low.sig(&graph), Signal::Low);
    assert_eq!(high_and_low_or_high.sig(&graph), Signal::High);

    assert_eq!(high_xor_low1.sig(&graph), Signal::High);
    assert_eq!(high_xor_low2.sig(&graph), Signal::High);
}

#[test]
fn part_test_not_gate() {
    let mut graph = Graph::new();

    let a = graph.new_output("a", Signal::High);
    let not1 = not_gate(&mut graph, "not2");
    let not2 = not_gate(&mut graph, "not1");

    graph.connect(&a, not1.a());
    graph.connect(not1.q(), not2.a());

    graph.run();

    assert_eq!(not1.q().sig(&graph), Signal::Low);
    assert_eq!(not2.q().sig(&graph), Signal::High);
}

#[test]
fn part_test_and_gate() {
    let mut graph = Graph::new();

    let high = graph.new_output("a", Signal::High);
    let low = graph.new_output("a", Signal::Low);
    let high2 = graph.new_output("a", Signal::High);

    let high_and_low = and_gate(&mut graph, "and1");
    let high_and_high = and_gate(&mut graph, "and2");

    graph.connect_all(&[&high, high_and_low.a(), high_and_high.a()]);
    graph.connect(&low, high_and_low.b());
    graph.connect(&high2, high_and_high.b());

    graph.run();

    assert_eq!(high_and_low.q().sig(&graph), Signal::Low);
    assert_eq!(high_and_high.q().sig(&graph), Signal::High);
}

#[test]
fn part_test_unary() {
    let mut graph = Graph::new();

    let high = graph.new_output("high", Signal::High);

    let not_high = high.not(&mut graph);

    let yes_high = high.not(&mut graph).not(&mut graph);

    graph.run();

    assert_eq!(not_high.sig(&graph), Signal::Low);
    assert_eq!(yes_high.sig(&graph), Signal::High);
}

#[test]
fn part_test_binary() {
    let mut graph = Graph::new();

    let high = graph.new_output("high", Signal::High);
    let low = graph.new_output("low", Signal::Low);

    let high_and_low = high.bitand(&mut graph, &low);
    let high_and_low_or_high = high_and_low.bitor(&mut graph, &high);

    let high_xor_low1 = high.bitxor(&mut graph, &low);
    let not_low = low.not(&mut graph);
    let left = high.bitand(&mut graph, &not_low);
    let not_high = high.not(&mut graph);
    let right = not_high.bitand(&mut graph, &low);
    let high_xor_low2 = left.bitor(&mut graph, &right);

    graph.run();

    assert_eq!(high_and_low.sig(&graph), Signal::Low);
    assert_eq!(high_and_low_or_high.sig(&graph), Signal::High);

    assert_eq!(high_xor_low1.sig(&graph), Signal::High);
    assert_eq!(high_xor_low2.sig(&graph), Signal::High);
}
