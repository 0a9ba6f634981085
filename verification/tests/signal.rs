use befrust::{BusValue, PinState, Signal, ToValue};
use befrust::Signal::{Error, High, Low, Off};

#[test]
fn test_bus_val() {
    let mut sig_bus = [Signal::High; 5];

    assert_eq!(sig_bus.as_slice().val(), BusValue::new_val(31));

    sig_bus[2] = Signal::Error;

    assert_eq!(sig_bus.as_slice().val(), BusValue { val: 27, error: 4 });

    let mut state_bus = [
        PinState::HiZ,
        PinState::Output(Signal::High),
        PinState::Output(Signal::Off),
    ];

    assert_eq!(state_bus.as_slice().val(), BusValue::new_val(2));

    state_bus[0] = PinState::Output(Signal::Error);

    assert_eq!(state_bus.as_slice().val(), BusValue { val: 2, error: 1 });
}

#[test]
fn test_not() {
    assert_eq!(!Off, Off);
    assert_eq!(!Low, High);
    assert_eq!(!High, Low);
    assert_eq!(!Error, Error);
}

#[test]
fn test_and() {
    assert_eq!(Off & Error, Error);
    assert_eq!(Low & Error, Error);
    assert_eq!(High & Error, Error);
    assert_eq!(Error & Error, Error);
    assert_eq!(Error & Off, Error);
    assert_eq!(Error & Low, Error);
    assert_eq!(Error & High, Error);

    assert_eq!(Off & Off, Off);
    assert_eq!(Off & Low, Low);
    assert_eq!(Off & High, Low);

    assert_eq!(Low & Off, Low);
    assert_eq!(Low & Low, Low);
    assert_eq!(Low & High, Low);

    assert_eq!(High & Off, Low);
    assert_eq!(High & Low, Low);
    assert_eq!(High & High, High);
}

#[test]
fn test_or() {
    assert_eq!(Off | Error, Error);
    assert_eq!(Low | Error, Error);
    assert_eq!(High | Error, Error);
    assert_eq!(Error | Error, Error);
    assert_eq!(Error | Off, Error);
    assert_eq!(Error | Low, Error);
    assert_eq!(Error | High, Error);

    assert_eq!(Off | Off, Off);
    assert_eq!(Off | Low, Low);
    assert_eq!(Off | High, High);

    assert_eq!(Low | Off, Low);
    assert_eq!(Low | Low, Low);
    assert_eq!(Low | High, High);

    assert_eq!(High | Off, High);
    assert_eq!(High | Low, High);
    assert_eq!(High | High, High);
}

#[test]
fn test_xor() {
    assert_eq!(Off ^ Error, Error);
    assert_eq!(Low ^ Error, Error);
    assert_eq!(High ^ Error, Error);
    assert_eq!(Error ^ Error, Error);
    assert_eq!(Error ^ Off, Error);
    assert_eq!(Error ^ Low, Error);
    assert_eq!(Error ^ High, Error);

    assert_eq!(Off ^ Off, Off);
    assert_eq!(Off ^ Low, Low);
    assert_eq!(Off ^ High, Low);

    assert_eq!(Low ^ Off, Low);
    assert_eq!(Low ^ Low, Low);
    assert_eq!(Low ^ High, High);

    assert_eq!(High ^ Off, Low);
    assert_eq!(High ^ Low, High);
    assert_eq!(High ^ High, Low);
}
