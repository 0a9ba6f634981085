//! Names of pins and parts, which exist for the benefit of whoever debugs a circuit.
use vstd::prelude::*;
use vstd::string::StringExecFns;

verus! {

/// The text of a single decimal digit.
pub open spec fn digit(d: nat) -> Seq<char> {
    if d == 0 {
        "0"@
    } else if d == 1 {
        "1"@
    } else if d == 2 {
        "2"@
    } else if d == 3 {
        "3"@
    } else if d == 4 {
        "4"@
    } else if d == 5 {
        "5"@
    } else if d == 6 {
        "6"@
    } else if d == 7 {
        "7"@
    } else if d == 8 {
        "8"@
    } else {
        "9"@
    }
}

/// The decimal text of a number, without leading zeros.
pub open spec fn decimal(n: nat) -> Seq<char>
    decreases n,
{
    if n < 10 {
        digit(n)
    } else {
        decimal(n / 10) + digit(n % 10)
    }
}

/// The name of element `i` of a group of pins: the group's name, then the index in
/// square brackets.
#[verifier::opaque]
pub open spec fn indexed(name: Seq<char>, i: nat) -> Seq<char> {
    name + "["@ + decimal(i) + "]"@
}

/// The name of a component inside a bigger one: the two names joined by a dot.
#[verifier::opaque]
pub open spec fn dotted(name: Seq<char>, part: Seq<char>) -> Seq<char> {
    name + "."@ + part
}

/// The name of the output of a gate with one input: its kind, then the input in
/// round brackets.
#[verifier::opaque]
pub open spec fn applied(gate: Seq<char>, input: Seq<char>) -> Seq<char> {
    gate + "("@ + input + ")"@
}

/// The name of the output of a gate with two inputs.
#[verifier::opaque]
pub open spec fn applied2(gate: Seq<char>, a: Seq<char>, b: Seq<char>) -> Seq<char> {
    gate + "("@ + a + ", "@ + b + ")"@
}

fn digit_text(d: usize) -> (r: &'static str)
    requires
        d < 10,
    ensures
        r@ == digit(d as nat),
{
    match d {
        0 => "0",
        1 => "1",
        2 => "2",
        3 => "3",
        4 => "4",
        5 => "5",
        6 => "6",
        7 => "7",
        8 => "8",
        _ => "9",
    }
}

/// Writes a number in decimal.
pub fn decimal_name(n: usize) -> (r: String)
    ensures
        r@ == decimal(n as nat),
    decreases n,
{
    if n < 10 {
        digit_text(n).to_owned()
    } else {
        let mut s = decimal_name(n / 10);
        s.append(digit_text(n % 10));
        s
    }
}

/// Builds the name of element `i` of a group of pins.
pub fn indexed_name(name: &str, i: usize) -> (r: String)
    ensures
        r@ == indexed(name@, i as nat),
{
    proof {
        reveal(indexed);
    }
    let mut s = name.to_owned();
    s.append("[");
    s.append(decimal_name(i).as_str());
    s.append("]");
    s
}

/// Builds the name of a component inside a bigger one.
pub fn dotted_name(name: &str, part: &str) -> (r: String)
    ensures
        r@ == dotted(name@, part@),
{
    proof {
        reveal(dotted);
    }
    let mut s = name.to_owned();
    s.append(".");
    s.append(part);
    s
}

/// Builds the name of the output of a gate with one input.
pub fn applied_name(gate: &str, input: &str) -> (r: String)
    ensures
        r@ == applied(gate@, input@),
{
    proof {
        reveal(applied);
    }
    let mut s = gate.to_owned();
    s.append("(");
    s.append(input);
    s.append(")");
    s
}

/// Builds the name of the output of a gate with two inputs.
pub fn applied2_name(gate: &str, a: &str, b: &str) -> (r: String)
    ensures
        r@ == applied2(gate@, a@, b@),
{
    proof {
        reveal(applied2);
    }
    let mut s = gate.to_owned();
    s.append("(");
    s.append(a);
    s.append(", ");
    s.append(b);
    s.append(")");
    s
}

} // verus!
