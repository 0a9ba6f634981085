//! A 32K x 8 static RAM with tri-state IO.
use crate::bus::{
    bus_value, lemma_bits_round_trip, lemma_weight_bound, signals_of, BusValue, ToValue,
};
use crate::gate::{lemma_pins_placed, pins_placed};
use crate::graph::{Graph, Pin};
use crate::part::{Rule, Updater};
use crate::signal::{PinState, Signal, ToSignal};
use core::ops::Not;
use vstd::arithmetic::div_mod::lemma_small_mod;
use vstd::arithmetic::power2::{lemma2_to64, pow2};
use vstd::prelude::*;
use vstd::slice::slice_subrange;

verus! {

/// The initial pin states of the RAM: three control inputs, eight disconnected IO pins
/// and fifteen address inputs.
pub open spec fn ram_states() -> Seq<PinState> {
    Seq::new(
        26,
        |i: int|
            if 3 <= i < 11 {
                PinState::HiZ
            } else {
                PinState::Input(Signal::Off)
            },
    )
}

/// The contents of a RAM that was never written: every byte is `0xFF`.
pub open spec fn blank_cells() -> Seq<u8> {
    Seq::new(32768, |i: int| 0xffu8)
}

/// 32k x 8bit RAM modeled after the CY7C199.
pub struct IcCY7C199(pub Vec<Pin>);

impl IcCY7C199 {
    /// Inverted chip enable.
    pub fn ce_inv(&self) -> (r: &Pin)
        requires
            self.0@.len() == 26,
        ensures
            *r == self.0@[0],
    {
        &self.0[Self::CE_INV]
    }

    /// Inverted output enable.
    pub fn oe_inv(&self) -> (r: &Pin)
        requires
            self.0@.len() == 26,
        ensures
            *r == self.0@[1],
    {
        &self.0[Self::OE_INV]
    }

    /// Inverted write enable.
    pub fn we_inv(&self) -> (r: &Pin)
        requires
            self.0@.len() == 26,
        ensures
            *r == self.0@[2],
    {
        &self.0[Self::WE_INV]
    }

    /// I/O pins.
    ///
    /// The pins are set to `HiZ` if `ce_inv` is high, or if `oe_inv` and `we_inv` are
    /// both low. Otherwise they output the contents of the RAM at the current address
    /// if `oe_inv` is low. Otherwise they are inputs, and their value is written into
    /// the RAM if `we_inv` is low.
    pub fn io(&self) -> (r: &[Pin])
        requires
            self.0@.len() == 26,
        ensures
            r@ == self.0@.subrange(3, 11),
    {
        slice_subrange(self.0.as_slice(), Self::IO_START, Self::IO_END)
    }

    /// Address pins.
    pub fn addr(&self) -> (r: &[Pin])
        requires
            self.0@.len() == 26,
        ensures
            r@ == self.0@.subrange(11, 26),
    {
        slice_subrange(self.0.as_slice(), Self::ADDR_START, Self::ADDR_END)
    }

    /// Create a new RAM part, with every byte set to `0xFF`.
    pub fn new(graph: &mut Graph, name: &str) -> (ram: Self)
        requires
            old(graph).wf(),
        ensures
            final(graph).wf(),
            final(graph)@ == old(graph)@.with_part(name@, ram_states(), Rule::Ram(blank_cells())),
            ram.0@.len() == 26,
            pins_placed(ram.0@, old(graph)@, final(graph)@, name@),
    {
        let mut states = vec![PinState::input(); Self::NUM_PINS];
        Self::set_io(states.as_mut_slice(), PinState::HiZ);
        assert(states@ =~= ram_states());

        let pins = graph.new_part(name, states.as_slice(), Updater::ram());
        proof {
            graph.lemma_len();
            lemma_pins_placed(pins@, old(graph)@, graph@, name@);
        }
        Self(pins)
    }

    /// Inverse chip enable pin index.
    pub const CE_INV: usize = 0;

    /// Inverse output enable pin index.
    pub const OE_INV: usize = 1;

    /// Inverse write enable pin index.
    pub const WE_INV: usize = 2;

    /// IO pin starting index.
    pub const IO_START: usize = 3;

    /// Size of a word (number of IO pins).
    pub const WORD_SIZE: usize = 8;

    /// IO pin ending index.
    pub const IO_END: usize = 11;

    /// Address pin starting index.
    pub const ADDR_START: usize = 11;

    /// Address width.
    pub const ADDR_SIZE: usize = 15;

    /// Address pin ending index.
    pub const ADDR_END: usize = 26;

    /// Total number of pins in the part.
    pub const NUM_PINS: usize = 26;

    /// Total number of words in the RAM.
    pub const NUM_WORDS: usize = 32768;

    /// Whether the chip is selected: the inverse of the chip enable pin is neither low
    /// nor off.
    pub open spec fn selected(pins: Seq<PinState>) -> bool {
        !pins[0].signal().inverse().lowish()
    }

    /// Whether output is enabled: the inverse of the output enable pin is `High`.
    pub open spec fn reading(pins: Seq<PinState>) -> bool {
        pins[1].signal().inverse() == Signal::High
    }

    /// Whether write is enabled: the inverse of the write enable pin is `High`.
    pub open spec fn writing(pins: Seq<PinState>) -> bool {
        pins[2].signal().inverse() == Signal::High
    }

    /// The value currently on the IO pins.
    pub open spec fn data(pins: Seq<PinState>) -> BusValue {
        bus_value(signals_of(pins.subrange(3, 11)))
    }

    /// The value currently on the address pins.
    pub open spec fn address(pins: Seq<PinState>) -> BusValue {
        bus_value(signals_of(pins.subrange(11, 26)))
    }

    /// The pins with every IO pin replaced by the given state.
    pub open spec fn with_io(pins: Seq<PinState>, val: PinState) -> Seq<PinState> {
        Seq::new(
            pins.len(),
            |i: int|
                if 3 <= i < 11 {
                    val
                } else {
                    pins[i]
                },
        )
    }

    /// The pins with the IO pins driving the bits of `val`.
    pub open spec fn with_io_output(pins: Seq<PinState>, val: usize) -> Seq<PinState> {
        Seq::new(
            pins.len(),
            |i: int|
                if 3 <= i < 11 {
                    PinState::Output((BusValue { val, error: 0 }).bit_signal((i - 3) as nat))
                } else {
                    pins[i]
                },
        )
    }

    /// The pins with the IO pins turned into inputs that show the bits of `val`.
    pub open spec fn with_io_input(pins: Seq<PinState>, val: usize) -> Seq<PinState> {
        Seq::new(
            pins.len(),
            |i: int|
                if 3 <= i < 11 {
                    PinState::Input((BusValue { val, error: 0 }).bit_signal((i - 3) as nat))
                } else {
                    pins[i]
                },
        )
    }

    /// The pins of the RAM after one update.
    ///
    /// The IO pins are disconnected while the chip is not selected, and also while
    /// output and write are enabled together. With output enabled alone they drive the
    /// byte stored at the address, or `Error` when an address bit is `Error`. Otherwise
    /// they become inputs that mirror the value on the bus.
    pub open spec fn next_pins(cells: Seq<u8>, pins: Seq<PinState>) -> Seq<PinState> {
        if !Self::selected(pins) || (Self::reading(pins) && Self::writing(pins)) {
            Self::with_io(pins, PinState::HiZ)
        } else if Self::reading(pins) {
            if Self::address(pins).error != 0 {
                Self::with_io(pins, PinState::Output(Signal::Error))
            } else {
                Self::with_io_output(pins, cells[Self::address(pins).val as int] as usize)
            }
        } else {
            Self::with_io_input(pins, Self::data(pins).val)
        }
    }

    /// The contents of the RAM after one update: the value on the IO pins is stored at
    /// the address when the chip is selected with write enabled alone and the address
    /// is free of errors.
    pub open spec fn next_cells(cells: Seq<u8>, pins: Seq<PinState>) -> Seq<u8> {
        if Self::selected(pins) && !Self::reading(pins) && Self::writing(pins) && Self::address(
            pins,
        ).error == 0 {
            cells.update(Self::address(pins).val as int, Self::data(pins).val as u8)
        } else {
            cells
        }
    }

    /// Read after write: when the chip is selected with write enabled alone and an
    /// address free of errors, the update stores the value on the IO pins; a later
    /// update with output enabled alone and the same address makes the IO pins drive
    /// that value.
    pub proof fn lemma_read_after_write(cells: Seq<u8>, write: Seq<PinState>, read: Seq<PinState>)
        requires
            cells.len() == 32768,
            write.len() == 26,
            read.len() == 26,
            Self::selected(write) && Self::writing(write) && !Self::reading(write),
            Self::selected(read) && Self::reading(read) && !Self::writing(read),
            Self::address(write).error == 0,
            Self::address(read) == Self::address(write),
        ensures
            Self::next_cells(cells, write)[Self::address(write).val as int] == Self::data(write).val,
            Self::data(Self::next_pins(Self::next_cells(cells, write), read)) == (BusValue {
                val: Self::data(write).val,
                error: 0,
            }),
            forall|i: int|
                3 <= i < 11 ==> Self::next_pins(Self::next_cells(cells, write), read)[i] is Output,
    {
        let stored = Self::next_cells(cells, write);
        let d = Self::data(write).val;
        let a = Self::address(write).val as int;
        lemma_weight_bound(signals_of(write.subrange(3, 11)), Signal::High);
        lemma_weight_bound(signals_of(write.subrange(11, 26)), Signal::High);
        lemma2_to64();
        assert(d < 256);
        assert(0 <= a < 32768);
        assert(stored[a] == d as u8);
        let after = Self::next_pins(stored, read);
        assert(after == Self::with_io_output(read, stored[a] as usize));
        let shown = signals_of(after.subrange(3, 11));
        assert(shown =~= (BusValue { val: d, error: 0 }).bit_signals(8));
        lemma_bits_round_trip(d, 8);
        lemma_small_mod(d as nat, pow2(8));
    }

    /// Placing a value below 256 on the IO pins as inputs makes it the value of the bus,
    /// and likewise for an address below 32768 on the address pins.
    pub proof fn lemma_placed(pins: Seq<PinState>, d: usize, a: usize)
        requires
            pins.len() == 26,
            d < 256,
            a < 32768,
            forall|i: int|
                3 <= i < 11 ==> #[trigger] pins[i] == PinState::Input(
                    (BusValue { val: d, error: 0 }).bit_signal((i - 3) as nat),
                ),
            forall|i: int|
                11 <= i < 26 ==> #[trigger] pins[i] == PinState::Input(
                    (BusValue { val: a, error: 0 }).bit_signal((i - 11) as nat),
                ),
        ensures
            Self::data(pins) == (BusValue { val: d, error: 0 }),
            Self::address(pins) == (BusValue { val: a, error: 0 }),
    {
        lemma2_to64();
        assert(signals_of(pins.subrange(3, 11)) =~= (BusValue { val: d, error: 0 }).bit_signals(8));
        assert(signals_of(pins.subrange(11, 26)) =~= (BusValue { val: a, error: 0 }).bit_signals(15));
        lemma_bits_round_trip(d, 8);
        lemma_bits_round_trip(a, 15);
        lemma_small_mod(d as nat, pow2(8));
        lemma_small_mod(a as nat, pow2(15));
    }

    /// Sets the IO pins to a given state.
    pub fn set_io(states: &mut [PinState], val: PinState)
        requires
            old(states)@.len() >= 11,
        ensures
            final(states)@ == Self::with_io(old(states)@, val),
    {
        let mut i: usize = Self::IO_START;
        while i < Self::IO_END
            invariant
                3 <= i <= 11,
                states@.len() == old(states)@.len(),
                states@.len() >= 11,
                forall|j: int| 3 <= j < i ==> states@[j] == val,
                forall|j: int| 0 <= j < states@.len() && !(3 <= j < i) ==> states@[j] == old(states)@[j],
            decreases 11 - i,
        {
            states[i] = val;
            i = i + 1;
        }
        assert(states@ =~= Self::with_io(old(states)@, val));
    }

    /// Sets the pins to output the given value.
    fn set_output(pins: &mut [PinState], val: usize)
        requires
            old(pins)@.len() <= usize::BITS,
        ensures
            final(pins)@.len() == old(pins)@.len(),
            forall|j: int|
                0 <= j < old(pins)@.len() ==> final(pins)@[j] == PinState::Output(
                    (BusValue { val, error: 0 }).bit_signal(j as nat),
                ),
    {
        let bus_val = BusValue::new_val(val);
        let mut i: usize = 0;
        while i < pins.len()
            invariant
                i <= pins@.len(),
                pins@.len() == old(pins)@.len(),
                pins@.len() <= usize::BITS,
                bus_val == (BusValue { val, error: 0 }),
                forall|j: int| 0 <= j < i ==> pins@[j] == PinState::Output(bus_val.bit_signal(j as nat)),
            decreases pins@.len() - i,
        {
            pins[i] = PinState::Output(bus_val.sig(i));
            i = i + 1;
        }
    }

    /// Changes the pins to inputs and sets them to the given value.
    fn set_input(pins: &mut [PinState], val: usize)
        requires
            old(pins)@.len() <= usize::BITS,
        ensures
            final(pins)@.len() == old(pins)@.len(),
            forall|j: int|
                0 <= j < old(pins)@.len() ==> final(pins)@[j] == PinState::Input(
                    (BusValue { val, error: 0 }).bit_signal(j as nat),
                ),
    {
        let bus_val = BusValue::new_val(val);
        let mut i: usize = 0;
        while i < pins.len()
            invariant
                i <= pins@.len(),
                pins@.len() == old(pins)@.len(),
                pins@.len() <= usize::BITS,
                bus_val == (BusValue { val, error: 0 }),
                forall|j: int| 0 <= j < i ==> pins@[j] == PinState::Input(bus_val.bit_signal(j as nat)),
            decreases pins@.len() - i,
        {
            pins[i] = PinState::Input(bus_val.sig(i));
            i = i + 1;
        }
    }

    /// Part updater.
    ///
    /// An `Error` bit on the address is not fatal here, so that a tick never stops half
    /// way: a read drives `Error` on every IO pin instead of a byte, and a write stores
    /// nothing. `Error` bits on the IO pins are read as low bits.
    pub fn update(ram: &mut Vec<u8>, pins: &mut [PinState])
        requires
            old(ram)@.len() == 32768,
            old(pins)@.len() == 26,
        ensures
            final(pins)@ == Self::next_pins(old(ram)@, old(pins)@),
            final(ram)@ == Self::next_cells(old(ram)@, old(pins)@),
    {
        let ce = pins[Self::CE_INV].not();
        let oe = pins[Self::OE_INV].not();
        let we = pins[Self::WE_INV].not();

        let data = slice_subrange(&*pins, Self::IO_START, Self::IO_END).val();
        let addr = slice_subrange(&*pins, Self::ADDR_START, Self::ADDR_END).val();
        proof {
            lemma_weight_bound(signals_of(pins@.subrange(3, 11)), Signal::High);
            lemma_weight_bound(signals_of(pins@.subrange(11, 26)), Signal::High);
            lemma2_to64();
        }

        if ce.is_lowish() || (oe.is_high() && we.is_high()) {
            Self::set_io(pins, PinState::HiZ);
        } else if oe.is_high() {
            if addr.error != 0 {
                Self::set_io(pins, PinState::Output(Signal::Error));
            } else {
                let stored = ram[addr.val];
                let (_, rest) = pins.split_at_mut(Self::IO_START);
                let (io_pins, _) = rest.split_at_mut(Self::WORD_SIZE);
                Self::set_output(io_pins, stored as usize);
                assert(pins@ =~= Self::with_io_output(old(pins)@, stored as usize));
            }
        } else {
            let (_, rest) = pins.split_at_mut(Self::IO_START);
            let (io_pins, _) = rest.split_at_mut(Self::WORD_SIZE);
            Self::set_input(io_pins, data.val);
            assert(pins@ =~= Self::with_io_input(old(pins)@, data.val));
            if we.is_high() && addr.error == 0 {
                ram[addr.val] = data.val as u8;
            }
        }
    }
}

} // verus!
