//! Multi-bit values read from, or placed on, a sequence of signals.
use crate::signal::{PinState, Signal, ToSignal};
use vstd::arithmetic::div_mod::*;
use vstd::arithmetic::power2::*;
use vstd::bits::*;
use vstd::layout::unsigned_int_max_values;
use vstd::prelude::*;

verus! {

/// A collection of signals on a bus, least-significant bit first.
#[derive(Copy, Clone, Debug, PartialEq, Eq, Structural, PartialOrd)]
pub struct BusValue {
    /// Numerical representation of the bus signals: bit `i` is 1 iff signal `i` is `High`.
    pub val: usize,
    /// Bit mask of the signals in the `Error` state.
    pub error: usize,
}

/// The sum of `2^i` over the positions `i` of `sigs` that hold `which`.
pub open spec fn weight(sigs: Seq<Signal>, which: Signal) -> nat
    decreases sigs.len(),
{
    if sigs.len() == 0 {
        0
    } else {
        weight(sigs.drop_last(), which) + if sigs.last() == which {
            pow2((sigs.len() - 1) as nat)
        } else {
            0
        }
    }
}

/// The bus value of a sequence of signals, least-significant first.
pub open spec fn bus_value(sigs: Seq<Signal>) -> BusValue {
    BusValue { val: weight(sigs, Signal::High) as usize, error: weight(sigs, Signal::Error) as usize }
}

/// The signals carried by a sequence of items.
pub open spec fn signals_of<T: ToSignal>(items: Seq<T>) -> Seq<Signal> {
    items.map_values(|t: T| t.signal())
}

/// Whether bit `i` of `x` is set.
pub open spec fn bit(x: nat, i: nat) -> bool {
    (x / pow2(i)) % 2 == 1
}

impl BusValue {
    /// The signal at bit position `i`: `Error` where the error mask is set, otherwise
    /// `High` or `Low` after the value's bit.
    pub open spec fn bit_signal(self, i: nat) -> Signal {
        if bit(self.error as nat, i) {
            Signal::Error
        } else if bit(self.val as nat, i) {
            Signal::High
        } else {
            Signal::Low
        }
    }

    /// The first `width` signals of this value, least-significant first.
    pub open spec fn bit_signals(self, width: nat) -> Seq<Signal> {
        Seq::new(width, |i: int| self.bit_signal(i as nat))
    }

    /// Create a `BusValue` for the given number.
    pub fn new_val(val: usize) -> (r: Self)
        ensures
            r == (BusValue { val, error: 0 }),
    {
        Self { val, error: 0 }
    }

    /// Create a `BusValue` with the given error mask.
    pub fn new_error(error: usize) -> (r: Self)
        ensures
            r == (BusValue { val: 0, error }),
    {
        Self { error, val: 0 }
    }

    /// The value of a bus that is free of errors.
    pub fn unwrap(&self) -> (r: usize)
        requires
            self.error == 0,
        ensures
            r == self.val,
    {
        self.val
    }

    /// Gets the `Signal` for the given bit position.
    pub fn sig(&self, i: usize) -> (r: Signal)
        requires
            i < usize::BITS,
        ensures
            r == self.bit_signal(i as nat),
    {
        proof {
            lemma_usize_shr_is_div(self.error, i);
            lemma_usize_shr_is_div(self.val, i);
        }
        if (self.error >> i) % 2 == 1 {
            Signal::Error
        } else if (self.val >> i) % 2 == 1 {
            Signal::High
        } else {
            Signal::Low
        }
    }
}

impl Default for BusValue {
    fn default() -> (r: BusValue)
        ensures
            r == (BusValue { val: 0, error: 0 }),
    {
        BusValue { val: 0, error: 0 }
    }
}

/// Converts an object to a `BusValue`.
pub trait ToValue: Sized {
    /// Whether the object is narrow enough for a machine word.
    spec fn fits_word(self) -> bool;

    /// The bus value that the object stands for.
    spec fn value(self) -> BusValue;

    /// Computes the bus value.
    fn val(self) -> (r: BusValue)
        requires
            self.fits_word(),
        ensures
            r == self.value(),
    ;
}

impl ToValue for Signal {
    open spec fn fits_word(self) -> bool {
        true
    }

    /// A single-bit value: the error bit for `Error`, the value bit for `High`.
    open spec fn value(self) -> BusValue {
        match self {
            Signal::Error => BusValue { val: 0, error: 1 },
            Signal::High => BusValue { val: 1, error: 0 },
            _ => BusValue { val: 0, error: 0 },
        }
    }

    fn val(self) -> (r: BusValue) {
        match self {
            Signal::Error => BusValue::new_error(1),
            Signal::High => BusValue::new_val(1),
            _ => BusValue::new_val(0),
        }
    }
}

impl ToValue for &PinState {
    open spec fn fits_word(self) -> bool {
        true
    }

    open spec fn value(self) -> BusValue {
        self.signal().value()
    }

    fn val(self) -> (r: BusValue) {
        self.sig().val()
    }
}

impl<T: ToSignal> ToValue for &[T] {
    open spec fn fits_word(self) -> bool {
        self@.len() <= usize::BITS
    }

    open spec fn value(self) -> BusValue {
        bus_value(signals_of(self@))
    }

    fn val(self) -> (r: BusValue) {
        let mut bus_val = BusValue::default();
        let mut i: usize = 0;
        let ghost sigs = signals_of(self@);
        while i < self.len()
            invariant
                i <= self.len(),
                self@.len() <= usize::BITS,
                sigs == signals_of(self@),
                bus_val.val == weight(sigs.take(i as int), Signal::High),
                bus_val.error == weight(sigs.take(i as int), Signal::Error),
            decreases self.len() - i,
        {
            let sig_val = self[i].sig().val();
            proof {
                let before = sigs.take(i as int);
                let after = sigs.take(i + 1);
                assert(after.drop_last() =~= before);
                assert(after.last() == self@[i as int].signal());
                lemma_weight_bound(before, Signal::High);
                lemma_weight_bound(before, Signal::Error);
                lemma_pow2_word(i as nat);
                let p = pow2(i as nat);
                assert(sig_val.val * p == if sig_val.val == 1 { p } else { 0 }) by (nonlinear_arith)
                    requires
                        sig_val.val <= 1,
                ;
                assert(sig_val.error * p == if sig_val.error == 1 { p } else { 0 }) by (nonlinear_arith)
                    requires
                        sig_val.error <= 1,
                ;
                lemma_usize_shl_is_mul(sig_val.val, i);
                lemma_usize_shl_is_mul(sig_val.error, i);
            }
            bus_val.val = bus_val.val + (sig_val.val << i);
            bus_val.error = bus_val.error + (sig_val.error << i);
            i = i + 1;
        }
        proof {
            assert(sigs.take(i as int) =~= sigs);
            lemma_weight_bound(sigs, Signal::High);
            lemma_weight_bound(sigs, Signal::Error);
            lemma_word_bound(sigs.len());
        }
        bus_val
    }
}

/// A power of two below the word width fits twice into a machine word.
proof fn lemma_pow2_word(i: nat)
    requires
        i < usize::BITS,
    ensures
        0 < pow2(i),
        2 * pow2(i) <= usize::MAX + 1,
{
    unsigned_int_max_values();
    lemma_pow2_pos(i);
    lemma_pow2_unfold(i + 1);
    if i + 1 < usize::BITS {
        lemma_pow2_strictly_increases(i + 1, usize::BITS as nat);
    }
}

/// Everything below `2^n` fits a machine word when `n` is at most the word width.
proof fn lemma_word_bound(n: nat)
    requires
        n <= usize::BITS,
    ensures
        pow2(n) <= usize::MAX + 1,
{
    unsigned_int_max_values();
    if n < usize::BITS {
        lemma_pow2_strictly_increases(n, usize::BITS as nat);
    }
}

/// A sequence of `n` signals weighs less than `2^n`.
pub proof fn lemma_weight_bound(sigs: Seq<Signal>, which: Signal)
    ensures
        weight(sigs, which) < pow2(sigs.len()),
    decreases sigs.len(),
{
    if sigs.len() == 0 {
        lemma_pow2_pos(0);
    } else {
        lemma_weight_bound(sigs.drop_last(), which);
        lemma_pow2_unfold(sigs.len());
    }
}

/// Bit `i` of the weight is set exactly where signal `i` is the weighed one: the value
/// bit of a bus is 1 iff the signal is `High`, the error bit iff it is `Error`.
pub proof fn lemma_weight_bit(sigs: Seq<Signal>, which: Signal, i: nat)
    requires
        i < sigs.len(),
    ensures
        bit(weight(sigs, which), i) == (sigs[i as int] == which),
    decreases sigs.len(),
{
    let n = sigs.len();
    let rest = sigs.drop_last();
    let low = weight(rest, which);
    let top = pow2((n - 1) as nat);
    let d = pow2(i);
    lemma_weight_bound(rest, which);
    lemma_pow2_pos(i);
    lemma_pow2_pos((n - 1) as nat);
    if i == n - 1 {
        if sigs.last() == which {
            lemma_fundamental_div_mod_converse((low + top) as int, top as int, 1, low as int);
        } else {
            lemma_basic_div(low as int, top as int);
        }
    } else {
        lemma_weight_bit(rest, which, i);
        if sigs.last() == which {
            let k = pow2((n - 2 - i) as nat);
            lemma_pow2_unfold((n - 1 - i) as nat);
            lemma_pow2_adds(i, (n - 1 - i) as nat);
            assert(top == d * (2 * k));
            let q = low as int / d as int;
            let r = low as int % d as int;
            lemma_fundamental_div_mod(low as int, d as int);
            lemma_mod_bound(low as int, d as int);
            assert(low + top == (q + 2 * k) * d + r) by (nonlinear_arith)
                requires
                    low == d * q + r,
                    top == d * (2 * k),
            ;
            lemma_fundamental_div_mod_converse((low + top) as int, d as int, q + 2 * k, r);
        }
    }
}

/// Reading back the first `width` bits of a number gives the number modulo `2^width`,
/// with no error bit.
pub proof fn lemma_bits_round_trip(v: usize, width: nat)
    ensures
        weight((BusValue { val: v, error: 0 }).bit_signals(width), Signal::High) == v as nat % pow2(
            width,
        ),
        weight((BusValue { val: v, error: 0 }).bit_signals(width), Signal::Error) == 0,
    decreases width,
{
    let bv = BusValue { val: v, error: 0 };
    let sigs = bv.bit_signals(width);
    if width == 0 {
        assert(pow2(0) == 1) by {
            lemma2_to64();
        }
    } else {
        let w = (width - 1) as nat;
        lemma_bits_round_trip(v, w);
        assert(sigs.drop_last() =~= bv.bit_signals(w));
        lemma_pow2_pos(w);
        lemma_div_of0(pow2(w) as int);
        assert(!bit(0, w));
        lemma_pow2_unfold(width);
        lemma_mod_breakdown(v as int, pow2(w) as int, 2);
        assert(pow2(w) * 2 == pow2(width));
        let b = (v as int / pow2(w) as int) % 2;
        assert(b == 0 || b == 1);
        assert(pow2(w) * b == if b == 1 { pow2(w) as int } else { 0 }) by (nonlinear_arith)
            requires
                b == 0 || b == 1,
        ;
    }
}

} // verus!
