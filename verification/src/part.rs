//! The update rules that a part can follow.
//!
//! A part is a contiguous block of pins together with a rule that rewrites those pins
//! once per tick. Every rule is a function of the pins as the part finds them (and, for
//! the RAM, of its stored bytes).
use crate::gate::{
    and_nary_next, and_next, buffer_next, bus_buffer_next, bus_tristate_next, nand_nary_next,
    nand_next, nor_nary_next, nor_next, not_next, or_nary_next, or_next, update_and,
    update_and_nary, update_buffer, update_bus_buffer, update_bus_tristate, update_nand,
    update_nand_nary, update_nor, update_nor_nary, update_not, update_or, update_or_nary,
    update_xor, xor_next,
};
use crate::ic::TFlipFlop;
use crate::ram::{blank_cells, IcCY7C199};
use crate::bus::{lemma_weight_bound, signals_of};
use crate::signal::{PinState, Signal};
use vstd::arithmetic::power2::lemma2_to64;
use vstd::prelude::*;

verus! {

/// The mathematical content of an [`Updater`].
pub enum Rule {
    Not,
    Buffer,
    And,
    Nand,
    Or,
    Nor,
    Xor,
    AndNary,
    OrNary,
    NandNary,
    NorNary,
    BusBuffer(nat),
    BusTristate(nat),
    TFlipFlop,
    Ram(Seq<u8>),
}

impl Rule {
    /// Whether a block of `n` pins has the layout that the rule works on.
    pub open spec fn fits(self, n: nat) -> bool {
        match self {
            Rule::Not | Rule::Buffer => n == 2,
            Rule::And | Rule::Nand | Rule::Or | Rule::Nor | Rule::Xor => n == 3,
            Rule::AndNary | Rule::OrNary | Rule::NandNary | Rule::NorNary => n >= 2,
            Rule::BusBuffer(width) => n == 2 * width,
            Rule::BusTristate(width) => n == 2 * width + 1,
            Rule::TFlipFlop => n == 6,
            Rule::Ram(cells) => n == 26 && cells.len() == 32768,
        }
    }

    /// The pins of the part after one update.
    pub open spec fn next_pins(self, pins: Seq<PinState>) -> Seq<PinState> {
        match self {
            Rule::Not => not_next(pins),
            Rule::Buffer => buffer_next(pins),
            Rule::And => and_next(pins),
            Rule::Nand => nand_next(pins),
            Rule::Or => or_next(pins),
            Rule::Nor => nor_next(pins),
            Rule::Xor => xor_next(pins),
            Rule::AndNary => and_nary_next(pins),
            Rule::OrNary => or_nary_next(pins),
            Rule::NandNary => nand_nary_next(pins),
            Rule::NorNary => nor_nary_next(pins),
            Rule::BusBuffer(width) => bus_buffer_next(width, pins),
            Rule::BusTristate(width) => bus_tristate_next(width, pins),
            Rule::TFlipFlop => TFlipFlop::next_pins(pins),
            Rule::Ram(cells) => IcCY7C199::next_pins(cells, pins),
        }
    }

    /// The rule itself after one update: only the RAM changes, by what it stores.
    pub open spec fn next_rule(self, pins: Seq<PinState>) -> Rule {
        match self {
            Rule::Ram(cells) => Rule::Ram(IcCY7C199::next_cells(cells, pins)),
            other => other,
        }
    }

    /// An update neither adds nor removes pins, and the rule still fits afterwards.
    pub proof fn lemma_next_fits(self, pins: Seq<PinState>)
        requires
            self.fits(pins.len()),
        ensures
            self.next_pins(pins).len() == pins.len(),
            self.next_rule(pins).fits(pins.len()),
    {
        if self is Ram {
            lemma_weight_bound(signals_of(pins.subrange(11, 26)), Signal::High);
            lemma2_to64();
        }
    }
}

/// The update function of a part, called each tick with the latest states of its pins.
pub enum Updater {
    /// Output at pin 1 is the inverse of the input at pin 0.
    Not,
    /// Output at pin 1 follows the input at pin 0.
    Buffer,
    /// Output at pin 2 is the and of the inputs at pins 0 and 1.
    And,
    /// Output at pin 2 is the inverted and of the inputs at pins 0 and 1.
    Nand,
    /// Output at pin 2 is the or of the inputs at pins 0 and 1.
    Or,
    /// Output at pin 2 is the inverted or of the inputs at pins 0 and 1.
    Nor,
    /// Output at pin 2 is the exclusive or of the inputs at pins 0 and 1.
    Xor,
    /// Output at pin 0 is the and of all the other pins.
    AndNary,
    /// Output at pin 0 is the or of all the other pins.
    OrNary,
    /// Output at pin 0 is the inverted and of all the other pins.
    NandNary,
    /// Output at pin 0 is the inverted or of all the other pins.
    NorNary,
    /// A bus buffer of the given width.
    BusBuffer(usize),
    /// A tristate bus buffer of the given width.
    BusTristate(usize),
    /// A T flip-flop.
    TFlipFlop,
    /// A 32K x 8 static RAM with its contents.
    Ram(Vec<u8>),
}

impl View for Updater {
    type V = Rule;

    open spec fn view(&self) -> Rule {
        match self {
            Updater::Not => Rule::Not,
            Updater::Buffer => Rule::Buffer,
            Updater::And => Rule::And,
            Updater::Nand => Rule::Nand,
            Updater::Or => Rule::Or,
            Updater::Nor => Rule::Nor,
            Updater::Xor => Rule::Xor,
            Updater::AndNary => Rule::AndNary,
            Updater::OrNary => Rule::OrNary,
            Updater::NandNary => Rule::NandNary,
            Updater::NorNary => Rule::NorNary,
            Updater::BusBuffer(width) => Rule::BusBuffer(*width as nat),
            Updater::BusTristate(width) => Rule::BusTristate(*width as nat),
            Updater::TFlipFlop => Rule::TFlipFlop,
            Updater::Ram(cells) => Rule::Ram(cells@),
        }
    }
}

impl Updater {
    /// A RAM updater with every byte set to `0xFF`.
    pub fn ram() -> (r: Updater)
        ensures
            r@ == Rule::Ram(blank_cells()),
    {
        let cells = vec![0xffu8; 32768];
        assert(cells@ =~= blank_cells());
        Updater::Ram(cells)
    }

    /// Rewrites the pins of a part according to the rule.
    pub fn update(&mut self, pins: &mut [PinState])
        requires
            old(self)@.fits(old(pins)@.len()),
        ensures
            final(pins)@ == old(self)@.next_pins(old(pins)@),
            final(self)@ == old(self)@.next_rule(old(pins)@),
    {
        match self {
            Updater::Not => update_not(pins),
            Updater::Buffer => update_buffer(pins),
            Updater::And => update_and(pins),
            Updater::Nand => update_nand(pins),
            Updater::Or => update_or(pins),
            Updater::Nor => update_nor(pins),
            Updater::Xor => update_xor(pins),
            Updater::AndNary => update_and_nary(pins),
            Updater::OrNary => update_or_nary(pins),
            Updater::NandNary => update_nand_nary(pins),
            Updater::NorNary => update_nor_nary(pins),
            Updater::BusBuffer(width) => update_bus_buffer(*width, pins),
            Updater::BusTristate(width) => update_bus_tristate(*width, pins),
            Updater::TFlipFlop => TFlipFlop::update(pins),
            Updater::Ram(cells) => IcCY7C199::update(cells, pins),
        }
    }
}

} // verus!
