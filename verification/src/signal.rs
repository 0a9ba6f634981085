//! The four-valued signal algebra and the state of a single pin.
use vstd::prelude::*;
use vstd::std_specs::convert::FromSpecImpl;
use vstd::std_specs::ops::BitAndSpecImpl;
use vstd::std_specs::ops::BitOrSpecImpl;
use vstd::std_specs::ops::BitXorSpecImpl;
use vstd::std_specs::ops::NotSpecImpl;

verus! {

/// The logical value for a given node, pin, etc.
#[derive(Copy, Clone, Debug, PartialEq, Eq, Structural, PartialOrd, Hash)]
pub enum Signal {
    /// No signal present, high impedance, etc.
    Off,
    /// Logical low (0, false, etc.)
    Low,
    /// Logical high (1, true, etc.)
    High,
    /// Uninitialized, indeterminate, or conflicting. Absorbing under every operation.
    Error,
}

impl Signal {
    /// Logical not. `Off` stays `Off` and `Error` stays `Error`.
    pub open spec fn inverse(self) -> Signal {
        match self {
            Signal::High => Signal::Low,
            Signal::Low => Signal::High,
            Signal::Off => Signal::Off,
            Signal::Error => Signal::Error,
        }
    }

    /// Logical and. `Error` absorbs; two `Off`s give `Off`; two `High`s give `High`;
    /// everything else is `Low`.
    pub open spec fn both(self, rhs: Signal) -> Signal {
        if self == Signal::Error || rhs == Signal::Error {
            Signal::Error
        } else if self == Signal::Off && rhs == Signal::Off {
            Signal::Off
        } else if self == Signal::High && rhs == Signal::High {
            Signal::High
        } else {
            Signal::Low
        }
    }

    /// Logical or. `Error` absorbs; `Off` is neutral; two `Low`s give `Low`;
    /// everything else is `High`.
    pub open spec fn either(self, rhs: Signal) -> Signal {
        if self == Signal::Error || rhs == Signal::Error {
            Signal::Error
        } else if self == Signal::Off {
            rhs
        } else if rhs == Signal::Off {
            self
        } else if self == Signal::Low && rhs == Signal::Low {
            Signal::Low
        } else {
            Signal::High
        }
    }

    /// Logical exclusive or. `Error` absorbs; two `Off`s give `Off`; `High` when one
    /// operand is `High` and the other is `Low`; everything else is `Low`.
    pub open spec fn differ(self, rhs: Signal) -> Signal {
        if self == Signal::Error || rhs == Signal::Error {
            Signal::Error
        } else if self == Signal::Off && rhs == Signal::Off {
            Signal::Off
        } else if (self == Signal::High && rhs == Signal::Low) || (self == Signal::Low && rhs
            == Signal::High) {
            Signal::High
        } else {
            Signal::Low
        }
    }

    /// `Off` and `Low` count as low.
    pub open spec fn lowish(self) -> bool {
        self == Signal::Low || self == Signal::Off
    }

    /// Helper to treat `Off` and `Low` as the same value.
    pub fn is_lowish(&self) -> (r: bool)
        ensures
            r == self.lowish(),
    {
        match self {
            Signal::Low | Signal::Off => true,
            _ => false,
        }
    }

    /// Whether the signal is exactly `High`.
    pub fn is_high(&self) -> (r: bool)
        ensures
            r == (*self == Signal::High),
    {
        *self == Signal::High
    }
}

impl Default for Signal {
    /// The default is `Error`, to make it obvious when something was never connected.
    fn default() -> (r: Signal)
        ensures
            r == Signal::Error,
    {
        Signal::Error
    }
}

impl core::ops::Not for Signal {
    type Output = Signal;

    fn not(self) -> (r: Signal) {
        match self {
            Signal::High => Signal::Low,
            Signal::Low => Signal::High,
            Signal::Off => Signal::Off,
            _ => Signal::Error,
        }
    }
}

impl NotSpecImpl for Signal {
    open spec fn obeys_not_spec() -> bool {
        true
    }

    open spec fn not_req(self) -> bool {
        true
    }

    open spec fn not_spec(self) -> Signal {
        self.inverse()
    }
}

impl core::ops::BitAnd for Signal {
    type Output = Signal;

    fn bitand(self, rhs: Signal) -> (r: Signal) {
        match (self, rhs) {
            (Signal::Error, _) | (_, Signal::Error) => Signal::Error,
            (Signal::Off, Signal::Off) => Signal::Off,
            (Signal::High, Signal::High) => Signal::High,
            _ => Signal::Low,
        }
    }
}

impl BitAndSpecImpl for Signal {
    open spec fn obeys_bitand_spec() -> bool {
        true
    }

    open spec fn bitand_req(self, rhs: Signal) -> bool {
        true
    }

    open spec fn bitand_spec(self, rhs: Signal) -> Signal {
        self.both(rhs)
    }
}

impl core::ops::BitOr for Signal {
    type Output = Signal;

    fn bitor(self, rhs: Signal) -> (r: Signal) {
        match (self, rhs) {
            (Signal::Error, _) | (_, Signal::Error) => Signal::Error,
            (Signal::Off, a) | (a, Signal::Off) => a,
            (Signal::Low, Signal::Low) => Signal::Low,
            _ => Signal::High,
        }
    }
}

impl BitOrSpecImpl for Signal {
    open spec fn obeys_bitor_spec() -> bool {
        true
    }

    open spec fn bitor_req(self, rhs: Signal) -> bool {
        true
    }

    open spec fn bitor_spec(self, rhs: Signal) -> Signal {
        self.either(rhs)
    }
}

impl core::ops::BitXor for Signal {
    type Output = Signal;

    fn bitxor(self, rhs: Signal) -> (r: Signal) {
        match (self, rhs) {
            (Signal::Error, _) | (_, Signal::Error) => Signal::Error,
            (Signal::Off, Signal::Off) => Signal::Off,
            (Signal::High, Signal::Low) | (Signal::Low, Signal::High) => Signal::High,
            _ => Signal::Low,
        }
    }
}

impl BitXorSpecImpl for Signal {
    open spec fn obeys_bitxor_spec() -> bool {
        true
    }

    open spec fn bitxor_req(self, rhs: Signal) -> bool {
        true
    }

    open spec fn bitxor_spec(self, rhs: Signal) -> Signal {
        self.differ(rhs)
    }
}

/// Anything that carries a single logical signal.
pub trait ToSignal {
    /// The signal carried by this value.
    spec fn signal(&self) -> Signal;

    /// Gets the logical signal.
    fn sig(&self) -> (r: Signal)
        ensures
            r == self.signal(),
    ;
}

impl ToSignal for Signal {
    open spec fn signal(&self) -> Signal {
        *self
    }

    fn sig(&self) -> (r: Signal) {
        *self
    }
}

/// The connection state and signal for a pin.
///
/// Parts update their pin states each tick, so a connection can change between input,
/// output and high impedance (chip enable, bidirectional ports, ...).
#[derive(Copy, Clone, Debug, PartialEq, Eq, Structural, PartialOrd, Hash)]
pub enum PinState {
    /// High impedance: neither an input nor an output. Logically `Off`.
    HiZ,
    /// An input receives its signal from the connected node.
    Input(Signal),
    /// An output places its signal onto the connected node.
    Output(Signal),
}

impl PinState {
    /// Shorthand for a default input: `Off` until it gets a value from its node.
    pub fn input() -> (r: PinState)
        ensures
            r == PinState::Input(Signal::Off),
    {
        PinState::Input(Signal::Off)
    }

    /// Shorthand for a default output: `Error` until the part's updater runs.
    pub fn output() -> (r: PinState)
        ensures
            r == PinState::Output(Signal::Error),
    {
        PinState::Output(Signal::Error)
    }

    /// Helper for treating `Off` the same as `Low`.
    pub fn is_lowish(&self) -> (r: bool)
        ensures
            r == self.signal().lowish(),
    {
        self.sig().is_lowish()
    }

    /// Whether the pin carries `High`.
    pub fn is_high(&self) -> (r: bool)
        ensures
            r == (self.signal() == Signal::High),
    {
        self.sig().is_high()
    }
}

impl Default for PinState {
    fn default() -> (r: PinState)
        ensures
            r == PinState::HiZ,
    {
        PinState::HiZ
    }
}

impl ToSignal for PinState {
    /// `Off` for `HiZ`, otherwise the signal inside.
    open spec fn signal(&self) -> Signal {
        match *self {
            PinState::HiZ => Signal::Off,
            PinState::Input(s) => s,
            PinState::Output(s) => s,
        }
    }

    fn sig(&self) -> (r: Signal) {
        match self {
            PinState::HiZ => Signal::Off,
            PinState::Input(signal) | PinState::Output(signal) => *signal,
        }
    }
}

impl From<PinState> for Signal {
    fn from(state: PinState) -> (r: Signal) {
        state.sig()
    }
}

impl FromSpecImpl<PinState> for Signal {
    open spec fn obeys_from_spec() -> bool {
        true
    }

    open spec fn from_spec(state: PinState) -> Signal {
        state.signal()
    }
}

impl core::ops::Not for PinState {
    type Output = Signal;

    fn not(self) -> (r: Signal) {
        self.sig().not()
    }
}

impl NotSpecImpl for PinState {
    open spec fn obeys_not_spec() -> bool {
        true
    }

    open spec fn not_req(self) -> bool {
        true
    }

    open spec fn not_spec(self) -> Signal {
        self.signal().inverse()
    }
}

impl core::ops::BitAnd for PinState {
    type Output = Signal;

    fn bitand(self, rhs: PinState) -> (r: Signal) {
        self.sig().bitand(rhs.sig())
    }
}

impl BitAndSpecImpl for PinState {
    open spec fn obeys_bitand_spec() -> bool {
        true
    }

    open spec fn bitand_req(self, rhs: PinState) -> bool {
        true
    }

    open spec fn bitand_spec(self, rhs: PinState) -> Signal {
        self.signal().both(rhs.signal())
    }
}

impl core::ops::BitOr for PinState {
    type Output = Signal;

    fn bitor(self, rhs: PinState) -> (r: Signal) {
        self.sig().bitor(rhs.sig())
    }
}

impl BitOrSpecImpl for PinState {
    open spec fn obeys_bitor_spec() -> bool {
        true
    }

    open spec fn bitor_req(self, rhs: PinState) -> bool {
        true
    }

    open spec fn bitor_spec(self, rhs: PinState) -> Signal {
        self.signal().either(rhs.signal())
    }
}

impl core::ops::BitXor for PinState {
    type Output = Signal;

    fn bitxor(self, rhs: PinState) -> (r: Signal) {
        self.sig().bitxor(rhs.sig())
    }
}

impl BitXorSpecImpl for PinState {
    open spec fn obeys_bitxor_spec() -> bool {
        true
    }

    open spec fn bitxor_req(self, rhs: PinState) -> bool {
        true
    }

    open spec fn bitxor_spec(self, rhs: PinState) -> Signal {
        self.signal().differ(rhs.signal())
    }
}

/// `Error` absorbs every binary operation, on either side, and survives negation.
pub proof fn lemma_error_absorbs(x: Signal)
    ensures
        Signal::Error.both(x) == Signal::Error,
        x.both(Signal::Error) == Signal::Error,
        Signal::Error.either(x) == Signal::Error,
        x.either(Signal::Error) == Signal::Error,
        Signal::Error.differ(x) == Signal::Error,
        x.differ(Signal::Error) == Signal::Error,
        Signal::Error.inverse() == Signal::Error,
{
}

/// Negating twice gives the signal back; `Off` and `Error` are fixed points of negation.
pub proof fn lemma_not_involution(x: Signal)
    ensures
        x.inverse().inverse() == x,
        Signal::Off.inverse() == Signal::Off,
        Signal::Error.inverse() == Signal::Error,
{
}

/// The binary operations do not depend on the order of their operands.
pub proof fn lemma_commutative(x: Signal, y: Signal)
    ensures
        x.both(y) == y.both(x),
        x.either(y) == y.either(x),
        x.differ(y) == y.differ(x),
{
}

} // verus!
