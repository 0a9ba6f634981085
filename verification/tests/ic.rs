use befrust::{Counter16Bit, Counter8Bit, Graph, Ic74193, IcCY7C199, Pin, PinState, Signal};

fn assert_sigs(graph: &Graph, pins: &[&Pin], sigs: &[Signal]) {
    assert_eq!(pins.len(), sigs.len());
    for (pin, sig) in pins.iter().zip(sigs) {
        assert_eq!(pin.sig(graph), *sig, "{:?}", pin);
    }
}

fn assert_states(graph: &Graph, pins: &[Pin], states: &[PinState]) {
    assert_eq!(pins.len(), states.len());
    for (pin, state) in pins.iter().zip(states) {
        assert_eq!(pin.state(graph), *state, "{:?}", pin);
    }
}

fn assert_inputs(graph: &Graph, pins: &[Pin]) {
    for pin in pins {
        assert!(matches!(pin.state(graph), PinState::Input(_)));
    }
}

fn assert_outputs(graph: &Graph, pins: &[Pin]) {
    for pin in pins {
        assert!(matches!(pin.state(graph), PinState::Output(_)));
    }
}

#[test]
fn test_load() {
    let mut graph = Graph::new();

    let mut d = graph.new_pins(
        "d",
        &[
            PinState::Output(Signal::High),
            PinState::Output(Signal::Low),
            PinState::Output(Signal::Low),
            PinState::Output(Signal::High),
        ],
    );
    let mut load_inv = graph.new_output("load_inv", Signal::High);
    let mut clear = graph.new_output("clear", Signal::High);
    let up = graph.new_output("up", Signal::High);
    let down = graph.new_output("down", Signal::High);

    let counter = Ic74193::new(&mut graph, "counter");

    graph.connect(&up, counter.up());
    graph.connect(&down, counter.down());
    graph.connect(&load_inv, counter.load_inv());
    graph.connect(&clear, counter.clear());

    let seq: [(&Pin, &Pin); 4] = [
        (&d[0], counter.in1()),
        (&d[1], counter.in2()),
        (&d[2], counter.in3()),
        (&d[3], counter.in4()),
    ];
    for (one, other) in seq {
        one.connect(&mut graph, other);
    }

    graph.run();
    clear.set_output(&mut graph, Signal::Low);
    graph.run();

    assert_eq!(
        &[Signal::Low; 4],
        &[
            counter.out1().sig(&graph),
            counter.out2().sig(&graph),
            counter.out3().sig(&graph),
            counter.out4().sig(&graph),
        ]
    );

    load_inv.set_output(&mut graph, Signal::Low);
    graph.run();

    assert_eq!(
        &[Signal::High, Signal::Low, Signal::Low, Signal::High],
        &[
            counter.out1().sig(&graph),
            counter.out2().sig(&graph),
            counter.out3().sig(&graph),
            counter.out4().sig(&graph),
        ]
    );
    load_inv.set_output(&mut graph, Signal::High);

    graph.run();

    assert_eq!(
        &[Signal::High, Signal::Low, Signal::Low, Signal::High],
        &[
            counter.out1().sig(&graph),
            counter.out2().sig(&graph),
            counter.out3().sig(&graph),
            counter.out4().sig(&graph),
        ]
    );

    // make sure the module isn't just looping back the input
    for pin in d.iter_mut() {
        pin.set_output(&mut graph, Signal::Low);
    }
    graph.run();

    assert_eq!(
        &[
            counter.output()[0].sig(&graph),
            counter.output()[1].sig(&graph),
            counter.output()[2].sig(&graph),
            counter.output()[3].sig(&graph),
        ],
        &[
            counter.out1().sig(&graph),
            counter.out2().sig(&graph),
            counter.out3().sig(&graph),
            counter.out4().sig(&graph),
        ]
    );
}

#[test]
fn test_carry() {
    let mut graph = Graph::new();

    let load_inv = graph.new_output("load_inv", Signal::High);
    let mut clear = graph.new_output("clear", Signal::High);
    let mut up = graph.new_output("up", Signal::High);
    let down = graph.new_output("down", Signal::High);

    let counter = Ic74193::new(&mut graph, "counter");

    graph.connect(&up, counter.up());
    graph.connect(&down, counter.down());

    let counter2 = Ic74193::new(&mut graph, "counter2");
    graph.connect(counter.carry(), counter2.up());
    graph.connect(counter.borrow(), counter2.down());
    graph.connect_all(&[&load_inv, counter.load_inv(), counter2.load_inv()]);
    graph.connect_all(&[&clear, counter.clear(), counter2.clear()]);

    graph.run();

    assert_eq!(
        &[Signal::Low; 8],
        &[
            counter.out1().sig(&graph),
            counter.out2().sig(&graph),
            counter.out3().sig(&graph),
            counter.out4().sig(&graph),
            counter2.out1().sig(&graph),
            counter2.out2().sig(&graph),
            counter2.out3().sig(&graph),
            counter2.out4().sig(&graph),
        ]
    );

    graph.set_output(&mut clear, Signal::Low);

    for _ in 0..16 {
        up.set_output(&mut graph, Signal::Low);
        graph.run();
        up.set_output(&mut graph, Signal::High);
        graph.run();
    }

    assert_eq!(
        &[
            Signal::Low,
            Signal::Low,
            Signal::Low,
            Signal::Low,
            Signal::High,
            Signal::Low,
            Signal::Low,
            Signal::Low,
        ],
        &[
            counter.out1().sig(&graph),
            counter.out2().sig(&graph),
            counter.out3().sig(&graph),
            counter.out4().sig(&graph),
            counter2.out1().sig(&graph),
            counter2.out2().sig(&graph),
            counter2.out3().sig(&graph),
            counter2.out4().sig(&graph),
        ],
    );
}

#[test]
fn test_counter_8bit() {
    let mut graph = Graph::new();

    let mut up = graph.new_output("up", Signal::High);
    let mut down = graph.new_output("down", Signal::High);
    let mut clear = graph.new_output("clear", Signal::High);
    let load_inv = graph.new_output("load_inv", Signal::High);

    let counter = Counter8Bit::new(&mut graph, "counter");

    graph.connect_pairs(&[
        (&up, counter.up()),
        (&down, counter.down()),
        (&clear, counter.clear()),
        (&load_inv, counter.load_inv()),
    ]);

    graph.run();
    clear.set_output(&mut graph, Signal::Low);
    graph.run();
    assert_sigs(
        &graph,
        &counter.output(),
        &[
            Signal::Low,
            Signal::Low,
            Signal::Low,
            Signal::Low,
            Signal::Low,
            Signal::Low,
            Signal::Low,
            Signal::Low,
        ],
    );

    up.set_output(&mut graph, Signal::Low);
    graph.run();
    up.set_output(&mut graph, Signal::High);
    graph.run();

    up.flash_output(&mut graph);
    graph.run();

    assert_sigs(
        &graph,
        &counter.output(),
        &[
            Signal::Low,
            Signal::High,
            Signal::Low,
            Signal::Low,
            Signal::Low,
            Signal::Low,
            Signal::Low,
            Signal::Low,
        ],
    );

    for _ in 1..10 {
        down.flash_output(&mut graph);
        graph.run();
    }

    assert_sigs(
        &graph,
        &counter.output(),
        &[
            Signal::High,
            Signal::Low,
            Signal::Low,
            Signal::High,
            Signal::High,
            Signal::High,
            Signal::High,
            Signal::High,
        ],
    );
}

#[test]
fn test_counter_16bit() {
    let mut graph = Graph::new();

    let mut up = graph.new_output("up", Signal::High);
    let mut down = graph.new_output("down", Signal::High);
    let mut clear = graph.new_output("clear", Signal::High);
    let load_inv = graph.new_output("load_inv", Signal::High);

    let counter = Counter16Bit::new(&mut graph, "counter");

    graph.connect_pairs(&[
        (&up, counter.up()),
        (&down, counter.down()),
        (&clear, counter.clear()),
        (&load_inv, counter.load_inv()),
    ]);

    graph.run();
    clear.set_output(&mut graph, Signal::Low);
    graph.run();
    assert_sigs(&graph, &counter.output(), &[Signal::Low; 16]);

    up.set_output(&mut graph, Signal::Low);
    graph.run();
    up.set_output(&mut graph, Signal::High);
    graph.run();

    up.flash_output(&mut graph);
    graph.run();

    assert_sigs(
        &graph,
        &counter.output(),
        &[
            Signal::Low,
            Signal::High,
            Signal::Low,
            Signal::Low,
            Signal::Low,
            Signal::Low,
            Signal::Low,
            Signal::Low,
            Signal::Low,
            Signal::Low,
            Signal::Low,
            Signal::Low,
            Signal::Low,
            Signal::Low,
            Signal::Low,
            Signal::Low,
        ],
    );

    for _ in 1..10 {
        down.flash_output(&mut graph);
        graph.run();
    }

    assert_sigs(
        &graph,
        &counter.output(),
        &[
            Signal::High,
            Signal::Low,
            Signal::Low,
            Signal::High,
            Signal::High,
            Signal::High,
            Signal::High,
            Signal::High,
            Signal::High,
            Signal::High,
            Signal::High,
            Signal::High,
            Signal::High,
            Signal::High,
            Signal::High,
            Signal::High,
        ],
    );
}

#[test]
fn test_read_write() {
    let mut graph = Graph::new();

    let ram = IcCY7C199::new(&mut graph, "d_ram");

    graph.run();
    assert_states(&graph, ram.io(), &[PinState::HiZ; 8]);

    let ce_inv = graph.new_output("ce_inv", Signal::Low);
    let mut oe_inv = graph.new_output("oe_inv", Signal::Low);
    let mut we_inv = graph.new_output("we_inv", Signal::High);
    graph.connect_pairs(&[
        (&ce_inv, ram.ce_inv()),
        (&oe_inv, ram.oe_inv()),
        (&we_inv, ram.we_inv()),
    ]);

    graph.run();

    assert_outputs(&graph, ram.io());

    let mut d = graph.new_pins("d", &[PinState::Output(Signal::Low); 8]);
    for (one, other) in d.iter().zip(ram.io()) {
        graph.connect(one, other);
    }

    oe_inv.set_output(&mut graph, Signal::High);
    graph.run();

    we_inv.set_output(&mut graph, Signal::Low);
    graph.run();

    assert_inputs(&graph, ram.io());

    we_inv.set_output(&mut graph, Signal::High);
    oe_inv.set_output(&mut graph, Signal::Low);
    graph.run();

    let mut expected_outputs = [PinState::Output(Signal::Low); 8];
    assert_states(&graph, ram.io(), &expected_outputs);

    d[2].set_output(&mut graph, Signal::High);
    expected_outputs[2] = PinState::Output(Signal::High);
    oe_inv.set_output(&mut graph, Signal::High);
    we_inv.set_output(&mut graph, Signal::Low);
    graph.run();
    we_inv.set_output(&mut graph, Signal::High);
    oe_inv.set_output(&mut graph, Signal::Low);
    graph.run();

    assert_states(&graph, ram.io(), &expected_outputs);

    let mut a2 = graph.new_output("a2", Signal::High);
    graph.connect(&a2, &ram.addr()[2]);
    graph.run();

    assert_states(&graph, ram.io(), &[PinState::Output(Signal::High); 8]);

    a2.set_output(&mut graph, Signal::Low);
    graph.run();

    assert_states(&graph, ram.io(), &expected_outputs);
}
