//! The compute graph: pins, the nodes that connect them, and the parts that drive them.
use crate::names::{indexed, indexed_name};
use crate::part::{Rule, Updater};
use crate::signal::{PinState, Signal, ToSignal};
use core::ops::Not;
use std::collections::BTreeMap;
use vstd::prelude::*;
use vstd::std_specs::ops::AddSpecImpl;

verus! {

/// Identifies a pin: its index in the pin states of the graph.
pub type PinId = usize;

/// A handle to a pin state that exists in a graph.
///
/// Pins are created for parts and connected together into nodes. Signals propagate
/// alternately from nodes to parts and back, via their connected pins.
#[derive(Debug)]
pub struct Pin {
    /// The index of the pin in its graph.
    pub id: PinId,
    /// The name of the pin, for whoever debugs the circuit.
    pub name: String,
}

/// A pin handle as the contracts see it.
pub struct PinView {
    /// The index of the pin in its graph.
    pub id: PinId,
    /// The name of the pin.
    pub name: Seq<char>,
}

impl View for Pin {
    type V = PinView;

    open spec fn view(&self) -> PinView {
        PinView { id: self.id, name: self.name@ }
    }
}

impl Clone for Pin {
    fn clone(&self) -> (r: Self)
        ensures
            r == *self,
    {
        Pin { id: self.id, name: self.name.clone() }
    }
}

impl Pin {
    /// The name of the pin.
    pub fn name(&self) -> (r: &str)
        ensures
            r@ == self.name@,
    {
        self.name.as_str()
    }

    /// Gets the current state of the pin.
    pub fn state(&self, graph: &Graph) -> (state: PinState)
        requires
            self.id < graph@.len(),
        ensures
            state == graph@.pin_states[self.id as int],
    {
        graph.get_state(self)
    }

    /// Gets the current signal of the pin.
    pub fn sig(&self, graph: &Graph) -> (signal: Signal)
        requires
            self.id < graph@.len(),
        ensures
            signal == graph@.pin_states[self.id as int].signal(),
    {
        graph.get_signal(self)
    }

    /// Creates a connection between this and the other pin.
    pub fn connect(&self, graph: &mut Graph, other: &Pin)
        requires
            old(graph).wf(),
            self.id < old(graph)@.len(),
            other.id < old(graph)@.len(),
            !old(graph)@.connected(self.id, other.id),
        ensures
            final(graph).wf(),
            final(graph)@ == old(graph)@.joined(self.id, other.id),
            final(graph)@.len() == old(graph)@.len(),
    {
        graph.connect(self, other);
    }

    /// Creates a connection among this and a group of other pins: the others are
    /// connected to each other, then their node is merged into the node of this pin.
    pub fn connect_all(&self, graph: &mut Graph, others: &[&Pin])
        requires
            old(graph).wf(),
            others@.len() >= 1,
            old(graph)@.all_apart(seq![self.id] + ids_of(others@)),
        ensures
            final(graph).wf(),
            final(graph)@ == old(graph)@.joined_all(ids_of(others@)).joined(self.id, others@[0].id),
    {
        let ghost before = graph@;
        let ghost ids = ids_of(others@);
        let ghost all = seq![self.id] + ids;
        proof {
            graph.lemma_wf();
            assert(before.all_apart(ids)) by {
                assert forall|x: int| 0 <= x < ids.len() implies ids[x] < before.len() by {
                    assert(all[x + 1] == ids[x]);
                }
                assert forall|x: int, y: int| 0 <= x < y < ids.len() implies !before.connected(
                    ids[x],
                    ids[y],
                ) by {
                    assert(all[x + 1] == ids[x] && all[y + 1] == ids[y]);
                }
            }
            before.lemma_joined_all(ids);
            assert(all[0] == self.id);
            assert(all[1] == ids[0]);
            assert(!before.among(ids, 1, ids.len() as int, self.id as int)) by {
                if before.among(ids, 1, ids.len() as int, self.id as int) {
                    let m = choose|m: int|
                        1 <= m < ids.len() && before.pin_nodes[self.id as int] == before.pin_nodes[#[trigger] ids[m] as int];
                    assert(all[m + 1] == ids[m]);
                    assert(!before.connected(all[0], all[m + 1]));
                }
            }
            assert(!before.among(ids, 1, ids.len() as int, ids[0] as int)) by {
                if before.among(ids, 1, ids.len() as int, ids[0] as int) {
                    let m = choose|m: int|
                        1 <= m < ids.len() && before.pin_nodes[ids[0] as int] == before.pin_nodes[#[trigger] ids[m] as int];
                    assert(all[m + 1] == ids[m]);
                    assert(!before.connected(all[1], all[m + 1]));
                }
            }
            assert(!before.connected(all[0], all[1]));
        }
        graph.connect_all(others);
        graph.connect(self, others[0]);
    }

    /// Sets the pin to output the given signal.
    pub fn set_output(&mut self, graph: &mut Graph, signal: Signal)
        requires
            old(graph).wf(),
            old(self).id < old(graph)@.len(),
            old(graph)@.pin_states[old(self).id as int] is Output,
        ensures
            final(graph).wf(),
            final(graph)@ == old(graph)@.with_state(old(self).id, PinState::Output(signal)),
            *final(self) == *old(self),
    {
        graph.set_output(self, signal);
    }

    /// Flips the output signal of the pin for one tick.
    pub fn flash_output(&mut self, graph: &mut Graph)
        requires
            old(graph).wf(),
            old(graph)@.can_flash(old(self).id),
        ensures
            final(graph).wf(),
            final(graph)@ == old(graph)@.flashed(old(self).id),
            *final(self) == *old(self),
    {
        graph.flash_output(self);
    }
}

/// A set of mutually connected pins, as the contracts see it.
pub struct NodeView {
    /// The member pins, in ascending order.
    pub pins: Seq<PinId>,
    /// The signal that the node resolved to when its pins were last scanned, and `Off`
    /// before the first scan.
    pub signal: Signal,
}

/// A part as the contracts see it: a rule and the range of pins that it owns.
pub struct PartView {
    /// The update rule.
    pub rule: Rule,
    /// The first pin of the part.
    pub start: nat,
    /// One past the last pin of the part.
    pub end: nat,
}

/// The mathematical content of a [`Graph`].
pub struct GraphView {
    /// The current state of every pin, indexed by pin id.
    pub pin_states: Seq<PinState>,
    /// The name of every pin, indexed by pin id.
    pub pin_names: Seq<Seq<char>>,
    /// The nodes, keyed by node id.
    pub nodes: Map<usize, NodeView>,
    /// The node of every pin, indexed by pin id.
    pub pin_nodes: Seq<usize>,
    /// The parts, in order of creation.
    pub parts: Seq<PartView>,
}

/// Whether the sequence is strictly increasing.
pub open spec fn ascending(s: Seq<PinId>) -> bool {
    forall|i: int, j: int| 0 <= i < j < s.len() ==> s[i] < s[j]
}

/// The two sequences merged into one, smaller heads first.
pub open spec fn merge(x: Seq<PinId>, y: Seq<PinId>) -> Seq<PinId>
    decreases x.len() + y.len(),
{
    if x.len() == 0 {
        y
    } else if y.len() == 0 {
        x
    } else if x[0] < y[0] {
        seq![x[0]] + merge(x.skip(1), y)
    } else {
        seq![y[0]] + merge(x, y.skip(1))
    }
}

/// The merge holds what the two sequences hold and nothing else.
pub proof fn lemma_merge_contains(x: Seq<PinId>, y: Seq<PinId>, v: PinId)
    ensures
        merge(x, y).contains(v) <==> x.contains(v) || y.contains(v),
        merge(x, y).len() == x.len() + y.len(),
    decreases x.len() + y.len(),
{
    if x.len() == 0 || y.len() == 0 {
    } else if x[0] < y[0] {
        let rest = merge(x.skip(1), y);
        lemma_merge_contains(x.skip(1), y, v);
        lemma_cons_contains(x[0], rest, v);
        lemma_cons_contains(x[0], x.skip(1), v);
        assert(seq![x[0]] + x.skip(1) =~= x);
    } else {
        let rest = merge(x, y.skip(1));
        lemma_merge_contains(x, y.skip(1), v);
        lemma_cons_contains(y[0], rest, v);
        lemma_cons_contains(y[0], y.skip(1), v);
        assert(seq![y[0]] + y.skip(1) =~= y);
    }
}

/// A sequence with one more element in front holds that element and the rest.
proof fn lemma_cons_contains(head: PinId, rest: Seq<PinId>, v: PinId)
    ensures
        (seq![head] + rest).contains(v) <==> v == head || rest.contains(v),
{
    let s = seq![head] + rest;
    if v == head {
        assert(s[0] == v);
    }
    if rest.contains(v) {
        let i = choose|i: int| 0 <= i < rest.len() && rest[i] == v;
        assert(s[i + 1] == v);
    }
    if s.contains(v) {
        let i = choose|i: int| 0 <= i < s.len() && s[i] == v;
        if i > 0 {
            assert(rest[i - 1] == v);
        }
    }
}

/// Merging two ascending sequences that share no element gives an ascending sequence.
pub proof fn lemma_merge_ascending(x: Seq<PinId>, y: Seq<PinId>)
    requires
        ascending(x),
        ascending(y),
        forall|i: int, j: int| 0 <= i < x.len() && 0 <= j < y.len() ==> x[i] != y[j],
    ensures
        ascending(merge(x, y)),
    decreases x.len() + y.len(),
{
    if x.len() == 0 || y.len() == 0 {
    } else {
        let (head, xs, ys) = if x[0] < y[0] {
            (x[0], x.skip(1), y)
        } else {
            (y[0], x, y.skip(1))
        };
        let rest = merge(xs, ys);
        lemma_merge_ascending(xs, ys);
        let m = merge(x, y);
        assert(m == seq![head] + rest);
        assert forall|i: int, j: int| 0 <= i < j < m.len() implies m[i] < m[j] by {
            if i == 0 {
                let v = rest[j - 1];
                assert(rest.contains(v));
                lemma_merge_contains(xs, ys, v);
                if xs.contains(v) {
                    let k = choose|k: int| 0 <= k < xs.len() && xs[k] == v;
                    if x[0] < y[0] {
                        assert(x[k + 1] == v);
                    } else {
                        assert(x[k] == v);
                    }
                } else {
                    let k = choose|k: int| 0 <= k < ys.len() && ys[k] == v;
                    if x[0] < y[0] {
                        assert(y[k] == v);
                    } else {
                        assert(y[k + 1] == v);
                    }
                }
            } else {
                assert(rest[i - 1] < rest[j - 1]);
            }
        }
    }
}

/// Update and cycle information for a run of the graph.
#[derive(Copy, Clone, Debug, PartialEq, Eq, Structural)]
pub struct RunStats {
    /// Number of ticks to reach steady state, the last, quiet one included.
    pub ticks: usize,
    /// Total number of node updates.
    pub updates: usize,
    /// Number of ticks in the final cycle; zero unless the circuit oscillates.
    pub cycle: usize,
}

impl RunStats {
    /// The componentwise sum of two statistics.
    pub open spec fn plus(self, rhs: RunStats) -> RunStats {
        RunStats {
            ticks: (self.ticks + rhs.ticks) as usize,
            updates: (self.updates + rhs.updates) as usize,
            cycle: (self.cycle + rhs.cycle) as usize,
        }
    }
}

impl core::ops::Add for RunStats {
    type Output = RunStats;

    fn add(self, rhs: RunStats) -> (r: RunStats) {
        RunStats {
            ticks: self.ticks + rhs.ticks,
            updates: self.updates + rhs.updates,
            cycle: self.cycle + rhs.cycle,
        }
    }
}

impl AddSpecImpl for RunStats {
    open spec fn obeys_add_spec() -> bool {
        true
    }

    open spec fn add_req(self, rhs: RunStats) -> bool {
        &&& self.ticks + rhs.ticks <= usize::MAX
        &&& self.updates + rhs.updates <= usize::MAX
        &&& self.cycle + rhs.cycle <= usize::MAX
    }

    open spec fn add_spec(self, rhs: RunStats) -> RunStats {
        self.plus(rhs)
    }
}

/// The most ticks, and the most node updates, that a single run counts. A run that
/// would count more stops and returns what it has counted. The limit leaves room to add
/// the statistics of two runs.
pub const RUN_LIMIT: usize = usize::MAX / 2;

/// One step of the fingerprint: the next code is folded into the hash so far.
pub open spec fn mix(hash: u64, code: u64) -> u64 {
    (hash ^ code).wrapping_mul(0x0000_0100_0000_01b3)
}

/// The code of a signal in a fingerprint.
pub open spec fn signal_code(signal: Signal) -> u64 {
    match signal {
        Signal::Off => 0,
        Signal::Low => 1,
        Signal::High => 2,
        Signal::Error => 3,
    }
}

/// The code of a pin state in a fingerprint.
pub open spec fn state_code(state: PinState) -> u64 {
    match state {
        PinState::HiZ => 4,
        PinState::Input(signal) => (8 + signal_code(signal)) as u64,
        PinState::Output(signal) => (12 + signal_code(signal)) as u64,
    }
}

/// The pins among `pins` that are outputs, in the same order.
pub open spec fn drivers(states: Seq<PinState>, pins: Seq<PinId>) -> Seq<PinId>
    decreases pins.len(),
{
    if pins.len() == 0 {
        Seq::empty()
    } else {
        let rest = drivers(states, pins.drop_last());
        if states[pins.last() as int] is Output {
            rest.push(pins.last())
        } else {
            rest
        }
    }
}

/// The signal of a node with the given pins: `Off` without an output among them, the
/// signal of the output where there is exactly one, and `Error` where there are more.
pub open spec fn resolve(states: Seq<PinState>, pins: Seq<PinId>) -> Signal {
    let outputs = drivers(states, pins);
    if outputs.len() == 0 {
        Signal::Off
    } else if outputs.len() == 1 {
        states[outputs[0] as int].signal()
    } else {
        Signal::Error
    }
}

/// The outputs among the pins are the same wherever the two sets of states agree on
/// which of the pins are outputs.
pub proof fn lemma_drivers_agree(a: Seq<PinState>, b: Seq<PinState>, pins: Seq<PinId>)
    requires
        forall|i: int|
            0 <= i < pins.len() ==> ((#[trigger] a[pins[i] as int]) is Output <==> b[pins[i] as int] is Output),
    ensures
        drivers(a, pins) == drivers(b, pins),
    decreases pins.len(),
{
    if pins.len() > 0 {
        let rest = pins.drop_last();
        assert forall|i: int| 0 <= i < rest.len() implies ((#[trigger] a[rest[i] as int]) is Output
            <==> b[rest[i] as int] is Output) by {
            assert(rest[i] == pins[i]);
        }
        lemma_drivers_agree(a, b, rest);
        assert(a[pins[pins.len() - 1] as int] is Output <==> b[pins[pins.len() - 1] as int] is Output);
    }
}

/// Every driver is one of the pins and is an output; an output among the pins is a
/// driver.
pub proof fn lemma_drivers_members(states: Seq<PinState>, pins: Seq<PinId>)
    ensures
        drivers(states, pins).len() <= pins.len(),
        forall|k: int|
            0 <= k < drivers(states, pins).len() ==> pins.contains(#[trigger] drivers(states, pins)[k])
                && states[drivers(states, pins)[k] as int] is Output,
        forall|i: int|
            0 <= i < pins.len() && states[pins[i] as int] is Output ==> drivers(states, pins).contains(
                #[trigger] pins[i],
            ),
    decreases pins.len(),
{
    if pins.len() > 0 {
        let rest = pins.drop_last();
        let last = pins.last();
        lemma_drivers_members(states, rest);
        let d = drivers(states, pins);
        let dr = drivers(states, rest);
        assert forall|k: int| 0 <= k < d.len() implies pins.contains(#[trigger] d[k])
            && states[d[k] as int] is Output by {
            if k < dr.len() {
                assert(d[k] == dr[k]);
                assert(rest.contains(dr[k]));
                let i = choose|i: int| 0 <= i < rest.len() && rest[i] == dr[k];
                assert(pins[i] == dr[k]);
            } else {
                assert(pins[pins.len() - 1] == last);
            }
        }
        assert forall|i: int| 0 <= i < pins.len() && states[pins[i] as int] is Output implies d.contains(
            #[trigger] pins[i],
        ) by {
            if i < rest.len() {
                assert(rest[i] == pins[i]);
                assert(dr.contains(rest[i]));
                let k = choose|k: int| 0 <= k < dr.len() && dr[k] == rest[i];
                assert(d[k] == pins[i]);
            } else {
                assert(d[d.len() - 1] == pins[i]);
            }
        }
    }
}

/// A node with exactly one output among its pins resolves to the signal of that output.
pub proof fn lemma_single_driver(states: Seq<PinState>, pins: Seq<PinId>, k: int)
    requires
        0 <= k < pins.len(),
        states[pins[k] as int] is Output,
        forall|i: int| 0 <= i < pins.len() && i != k ==> !(states[#[trigger] pins[i] as int] is Output),
    ensures
        resolve(states, pins) == states[pins[k] as int].signal(),
        drivers(states, pins) == seq![pins[k]],
    decreases pins.len(),
{
    let rest = pins.drop_last();
    if k == pins.len() - 1 {
        lemma_no_driver(states, rest);
        assert(drivers(states, pins) =~= seq![pins[k]]);
    } else {
        assert(rest[k] == pins[k]);
        assert forall|i: int| 0 <= i < rest.len() && i != k implies !(states[#[trigger] rest[i] as int] is Output) by {
            assert(rest[i] == pins[i]);
        }
        lemma_single_driver(states, rest, k);
        assert(!(states[pins[pins.len() - 1] as int] is Output));
    }
}

/// A node without an output among its pins resolves to `Off`.
pub proof fn lemma_no_driver(states: Seq<PinState>, pins: Seq<PinId>)
    requires
        forall|i: int| 0 <= i < pins.len() ==> !(states[#[trigger] pins[i] as int] is Output),
    ensures
        resolve(states, pins) == Signal::Off,
        drivers(states, pins).len() == 0,
    decreases pins.len(),
{
    if pins.len() > 0 {
        let rest = pins.drop_last();
        assert forall|i: int| 0 <= i < rest.len() implies !(states[#[trigger] rest[i] as int] is Output) by {
            assert(rest[i] == pins[i]);
        }
        lemma_no_driver(states, rest);
        assert(!(states[pins[pins.len() - 1] as int] is Output));
    }
}

/// A node with two or more outputs among its pins resolves to `Error`, whatever the
/// outputs carry.
pub proof fn lemma_conflict(states: Seq<PinState>, pins: Seq<PinId>, i: int, j: int)
    requires
        0 <= i < j < pins.len(),
        states[pins[i] as int] is Output,
        states[pins[j] as int] is Output,
    ensures
        resolve(states, pins) == Signal::Error,
        drivers(states, pins).len() >= 2,
    decreases pins.len(),
{
    let rest = pins.drop_last();
    if j == pins.len() - 1 {
        lemma_drivers_members(states, rest);
        assert(rest[i] == pins[i]);
        assert(drivers(states, rest).contains(rest[i]));
    } else {
        assert(rest[i] == pins[i]);
        assert(rest[j] == pins[j]);
        lemma_conflict(states, rest, i, j);
    }
}

impl GraphView {
    /// The graph without pins.
    pub open spec fn empty() -> GraphView {
        GraphView {
            pin_states: Seq::empty(),
            pin_names: Seq::empty(),
            nodes: Map::empty(),
            pin_nodes: Seq::empty(),
            parts: Seq::empty(),
        }
    }

    /// The number of pins.
    pub open spec fn len(self) -> nat {
        self.pin_states.len()
    }

    /// Whether the node is made of pins of this graph that all name it as their node,
    /// in ascending order and at least one.
    pub open spec fn node_wf(self, n: usize) -> bool {
        let pins = self.nodes[n].pins;
        &&& n < self.len()
        &&& pins.len() > 0
        &&& ascending(pins)
        &&& forall|i: int|
            0 <= i < pins.len() ==> pins[i] < self.len() && self.pin_nodes[#[trigger] pins[i] as int]
                == n
    }

    /// Whether the part owns a block of pins of this graph that its rule fits.
    pub open spec fn part_wf(self, k: int) -> bool {
        let part = self.parts[k];
        &&& part.start <= part.end <= self.len()
        &&& part.rule.fits((part.end - part.start) as nat)
    }

    /// The invariant of a graph: every pin belongs to exactly one node, and the parts
    /// own disjoint blocks of pins, in order of creation.
    pub open spec fn wf(self) -> bool {
        &&& self.len() <= usize::MAX
        &&& self.pin_names.len() == self.len()
        &&& self.pin_nodes.len() == self.len()
        &&& forall|p: int|
            0 <= p < self.len() ==> self.nodes.contains_key(#[trigger] self.pin_nodes[p])
                && self.nodes[self.pin_nodes[p]].pins.contains(p as usize)
        &&& forall|n: usize| #[trigger] self.nodes.contains_key(n) ==> self.node_wf(n)
        &&& forall|k: int| 0 <= k < self.parts.len() ==> #[trigger] self.part_wf(k)
        &&& forall|k: int, l: int|
            0 <= k < l < self.parts.len() ==> (#[trigger] self.parts[k]).end <= (
            #[trigger] self.parts[l]).start
    }

    /// Whether the two pins belong to the same node.
    pub open spec fn connected(self, a: PinId, b: PinId) -> bool {
        self.pin_nodes[a as int] == self.pin_nodes[b as int]
    }

    /// The graph with one more pin, alone in a new node. The node holds `Off`, the signal
    /// of a node without a driver, so that whatever a driver puts on it later counts as a
    /// change and reaches its inputs.
    #[verifier::opaque]
    pub open spec fn with_pin(self, name: Seq<char>, state: PinState) -> GraphView {
        let id = self.len() as usize;
        GraphView {
            pin_states: self.pin_states.push(state),
            pin_names: self.pin_names.push(name),
            nodes: self.nodes.insert(id, NodeView { pins: seq![id], signal: Signal::Off }),
            pin_nodes: self.pin_nodes.push(id),
            parts: self.parts,
        }
    }

    /// The graph after the node of pin `b` was merged into the node of pin `a`: the
    /// node of `b` is gone, the node of `a` holds the pins of both and keeps its signal,
    /// and every pin of the node of `b` now belongs to the node of `a`.
    #[verifier::opaque]
    pub open spec fn joined(self, a: PinId, b: PinId) -> GraphView {
        let na = self.pin_nodes[a as int];
        let nb = self.pin_nodes[b as int];
        GraphView {
            nodes: self.nodes.remove(nb).insert(
                na,
                NodeView {
                    pins: merge(self.nodes[na].pins, self.nodes[nb].pins),
                    signal: self.nodes[na].signal,
                },
            ),
            pin_nodes: Seq::new(
                self.len(),
                |p: int|
                    if self.pin_nodes[p] == nb {
                        na
                    } else {
                        self.pin_nodes[p]
                    },
            ),
            ..self
        }
    }

    /// The graph after the nodes of all the pins were merged into the node of the
    /// first one, one pin after the other.
    pub open spec fn joined_all(self, ids: Seq<PinId>) -> GraphView
        decreases ids.len(),
    {
        if ids.len() <= 1 {
            self
        } else {
            self.joined_all(ids.drop_last()).joined(ids[0], ids.last())
        }
    }

    /// Whether no two of the pins are connected to each other.
    pub open spec fn all_apart(self, ids: Seq<PinId>) -> bool {
        &&& forall|i: int| 0 <= i < ids.len() ==> ids[i] < self.len()
        &&& forall|i: int, j: int| 0 <= i < j < ids.len() ==> !self.connected(ids[i], ids[j])
    }

    /// The graph after each pair was connected, one after the other.
    pub open spec fn joined_pairs(self, pairs: Seq<(PinId, PinId)>) -> GraphView
        decreases pairs.len(),
    {
        if pairs.len() == 0 {
            self
        } else {
            self.joined_pairs(pairs.drop_last()).joined(pairs.last().0, pairs.last().1)
        }
    }

    /// Whether the pairs can be connected one after the other: each pair names pins of
    /// the graph that are not connected yet when their turn comes.
    pub open spec fn can_join_pairs(self, pairs: Seq<(PinId, PinId)>) -> bool
        decreases pairs.len(),
    {
        pairs.len() == 0 || {
            let g = self.joined_pairs(pairs.drop_last());
            &&& self.can_join_pairs(pairs.drop_last())
            &&& pairs.last().0 < self.len()
            &&& pairs.last().1 < self.len()
            &&& !g.connected(pairs.last().0, pairs.last().1)
        }
    }

    /// The graph with a group of new pins, each alone in a new node that holds `Off`, named after the
    /// group and their index in it.
    #[verifier::opaque]
    pub open spec fn with_pins(self, name: Seq<char>, states: Seq<PinState>) -> GraphView {
        let base = self.len();
        GraphView {
            pin_states: self.pin_states + states,
            pin_names: self.pin_names + Seq::new(states.len(), |i: int| indexed(name, i as nat)),
            nodes: Map::new(
                |n: usize| self.nodes.contains_key(n) || base <= n < base + states.len(),
                |n: usize|
                    if n >= base {
                        NodeView { pins: seq![n], signal: Signal::Off }
                    } else {
                        self.nodes[n]
                    },
            ),
            pin_nodes: self.pin_nodes + Seq::new(states.len(), |i: int| (base + i) as usize),
            parts: self.parts,
        }
    }

    /// The graph with a new part: a group of new pins and the rule that updates them.
    #[verifier::opaque]
    pub open spec fn with_part(self, name: Seq<char>, states: Seq<PinState>, rule: Rule) -> GraphView {
        GraphView {
            parts: self.parts.push(
                PartView { rule, start: self.len(), end: self.len() + states.len() },
            ),
            ..self.with_pins(name, states)
        }
    }

    /// The signal that the node resolves to from the current states of its pins.
    pub open spec fn resolved(self, n: usize) -> Signal {
        resolve(self.pin_states, self.nodes[n].pins)
    }

    /// Whether the node exists and resolves to another signal than the one it holds.
    pub open spec fn changed(self, n: usize) -> bool {
        self.nodes.contains_key(n) && self.resolved(n) != self.nodes[n].signal
    }

    /// The number of changed nodes among those with an id below `k`.
    pub open spec fn changed_below(self, k: nat) -> nat
        decreases k,
    {
        if k == 0 {
            0
        } else {
            self.changed_below((k - 1) as nat) + if self.changed((k - 1) as usize) {
                1nat
            } else {
                0nat
            }
        }
    }

    /// The number of nodes that resolve to another signal than the one they hold.
    pub open spec fn node_updates(self) -> nat {
        self.changed_below(self.len())
    }

    /// The state of a pin after the node phase: an input on a changed node takes the
    /// new signal of the node, everything else stays.
    pub open spec fn pin_after_nodes(self, p: int) -> PinState {
        if self.pin_states[p] is Input && self.changed(self.pin_nodes[p]) {
            PinState::Input(self.resolved(self.pin_nodes[p]))
        } else {
            self.pin_states[p]
        }
    }

    /// The graph after the node phase: every node holds the signal that it resolves to,
    /// and the inputs of the changed nodes have taken it over.
    pub open spec fn after_nodes(self) -> GraphView {
        GraphView {
            pin_states: Seq::new(self.len(), |p: int| self.pin_after_nodes(p)),
            nodes: Map::new(
                |n: usize| self.nodes.contains_key(n),
                |n: usize| NodeView { pins: self.nodes[n].pins, signal: self.resolved(n) },
            ),
            ..self
        }
    }

    /// Whether the node of pin `p` is the node of one of the pins `ids[from..to]`.
    pub open spec fn among(self, ids: Seq<PinId>, from: int, to: int, p: int) -> bool {
        exists|m: int| from <= m < to && self.pin_nodes[p] == self.pin_nodes[#[trigger] ids[m] as int]
    }

    /// The states of the pins that part `k` owns.
    pub open spec fn part_pins(self, k: int) -> Seq<PinState> {
        self.pin_states.subrange(self.parts[k].start as int, self.parts[k].end as int)
    }

    /// The graph after part `k` has updated its pins: the pins of the part follow its
    /// rule, the other pins stay.
    pub open spec fn with_part_updated(self, k: int) -> GraphView {
        let part = self.parts[k];
        let mine = self.part_pins(k);
        GraphView {
            pin_states: self.pin_states.subrange(0, part.start as int) + part.rule.next_pins(mine)
                + self.pin_states.subrange(part.end as int, self.len() as int),
            parts: self.parts.update(
                k,
                PartView { rule: part.rule.next_rule(mine), start: part.start, end: part.end },
            ),
            ..self
        }
    }

    /// The graph after the first `k` parts have updated their pins, in order of creation.
    pub open spec fn parts_updated(self, k: nat) -> GraphView
        decreases k,
    {
        if k == 0 {
            self
        } else {
            self.parts_updated((k - 1) as nat).with_part_updated(k - 1)
        }
    }

    /// The graph after the part phase: every part has updated its pins.
    pub open spec fn after_parts(self) -> GraphView {
        self.parts_updated(self.parts.len())
    }

    /// The graph after one tick: the part phase, then the node phase.
    pub open spec fn after_tick(self) -> GraphView {
        self.after_parts().after_nodes()
    }

    /// The number of nodes that one tick updates to a new signal.
    pub open spec fn tick_updates(self) -> nat {
        self.after_parts().node_updates()
    }

    /// The hash of the states of the first `k` pins.
    pub open spec fn hash_states(self, k: nat) -> u64
        decreases k,
    {
        if k == 0 {
            0xcbf2_9ce4_8422_2325
        } else {
            mix(self.hash_states((k - 1) as nat), state_code(self.pin_states[k - 1]))
        }
    }

    /// The hash of all the pin states and of the signals of the nodes with an id
    /// below `k`.
    pub open spec fn hash_nodes(self, k: nat) -> u64
        decreases k,
    {
        if k == 0 {
            self.hash_states(self.len())
        } else {
            let hash = self.hash_nodes((k - 1) as nat);
            if self.nodes.contains_key((k - 1) as usize) {
                mix(hash, signal_code(self.nodes[(k - 1) as usize].signal))
            } else {
                hash
            }
        }
    }

    /// The 64-bit fingerprint of the pin states and node signals, by which a run
    /// recognises a state that it has seen before.
    pub open spec fn fingerprint(self) -> u64 {
        self.hash_nodes(self.len())
    }

    /// What is left of a run after some ticks: the final graph and statistics, given the
    /// statistics so far and the tick number of every fingerprint seen so far.
    ///
    /// The run ends with the first tick that updates no node. After any other tick, the
    /// tick and its updates are counted; when the fingerprint of the graph was seen
    /// before, the run ends with the length of the cycle, otherwise the fingerprint is
    /// noted and the run goes on. A tick that would take a count beyond [`RUN_LIMIT`]
    /// ends the run uncounted.
    pub open spec fn run_from(self, stats: RunStats, seen: Map<u64, usize>) -> (GraphView, RunStats)
        decreases RUN_LIMIT - stats.ticks,
    {
        let next = self.after_tick();
        let n = self.tick_updates();
        if n == 0 || stats.ticks >= RUN_LIMIT || stats.updates + n > RUN_LIMIT {
            (next, stats)
        } else {
            let ticks = (stats.ticks + 1) as usize;
            let updates = (stats.updates + n) as usize;
            let hash = next.fingerprint();
            if seen.contains_key(hash) {
                (next, RunStats { ticks, updates, cycle: (ticks - seen[hash] - 1) as usize })
            } else {
                next.run_from(RunStats { ticks, updates, cycle: stats.cycle }, seen.insert(hash, ticks))
            }
        }
    }

    /// The final graph and the statistics of a run to steady state.
    pub open spec fn run(self) -> (GraphView, RunStats) {
        self.run_from(RunStats { ticks: 1, updates: 0, cycle: 0 }, Map::empty())
    }

    /// The graph with the output of a pin inverted.
    pub open spec fn flipped(self, pin: PinId) -> GraphView {
        self.with_state(pin, PinState::Output(self.pin_states[pin as int].signal().inverse()))
    }

    /// The graph after the output of a pin was inverted for one tick.
    pub open spec fn flashed(self, pin: PinId) -> GraphView {
        self.flipped(pin).after_tick().flipped(pin)
    }

    /// Whether the pin can be flashed: it is an output and still one a tick after it
    /// was flipped.
    pub open spec fn can_flash(self, pin: PinId) -> bool {
        &&& pin < self.len()
        &&& self.pin_states[pin as int] is Output
        &&& self.flipped(pin).after_tick().pin_states[pin as int] is Output
    }

    /// The graph after the output of a pin was inverted, the graph run to steady state,
    /// and the same again.
    pub open spec fn pulsed(self, pin: PinId) -> GraphView {
        self.flipped(pin).run().0.flipped(pin).run().0
    }

    /// Whether the pin can be pulsed: it is an output and still one after it was
    /// flipped and the graph run to steady state.
    pub open spec fn can_pulse(self, pin: PinId) -> bool {
        &&& pin < self.len()
        &&& self.pin_states[pin as int] is Output
        &&& self.flipped(pin).run().0.pin_states[pin as int] is Output
    }

    /// The handle of the pin with the given id.
    pub open spec fn pin(self, id: PinId) -> PinView {
        PinView { id, name: self.pin_names[id as int] }
    }

    /// The orphans among the nodes with an id below `k`, in ascending order: every node
    /// that has a single pin, with that pin.
    pub open spec fn orphans_below(self, k: nat) -> Seq<(usize, PinView)>
        decreases k,
    {
        if k == 0 {
            Seq::empty()
        } else {
            let before = self.orphans_below((k - 1) as nat);
            let n = (k - 1) as usize;
            if self.nodes.contains_key(n) && self.nodes[n].pins.len() == 1 {
                before.push((n, self.pin(self.nodes[n].pins[0])))
            } else {
                before
            }
        }
    }

    /// The orphans of the graph: the pins that are not connected to any other.
    pub open spec fn orphans(self) -> Seq<(usize, PinView)> {
        self.orphans_below(self.len())
    }

    /// The nodes with an id below `k`, in ascending order, each with its pins.
    pub open spec fn listing_below(self, k: nat) -> Seq<(usize, Seq<PinView>)>
        decreases k,
    {
        if k == 0 {
            Seq::empty()
        } else {
            let before = self.listing_below((k - 1) as nat);
            let n = (k - 1) as usize;
            if self.nodes.contains_key(n) {
                before.push((n, self.nodes[n].pins.map_values(|id: PinId| self.pin(id))))
            } else {
                before
            }
        }
    }

    /// All the nodes of the graph, each with its pins.
    pub open spec fn listing(self) -> Seq<(usize, Seq<PinView>)> {
        self.listing_below(self.len())
    }

    /// Whether part `k` owns the pin `p`.
    pub open spec fn owns(self, k: int, p: int) -> bool {
        0 <= k < self.parts.len() && self.parts[k].start <= p < self.parts[k].end
    }

    /// Whether no part owns the pin `p`: nothing but the node phase ever writes it.
    pub open spec fn free(self, p: int) -> bool {
        forall|k: int| !#[trigger] self.owns(k, p)
    }

    /// The graph after `n` ticks.
    pub open spec fn ticked(self, n: nat) -> GraphView
        decreases n,
    {
        if n == 0 {
            self
        } else {
            self.ticked((n - 1) as nat).after_tick()
        }
    }

    /// The graph with the state of one pin replaced.
    pub open spec fn with_state(self, pin: PinId, state: PinState) -> GraphView {
        GraphView { pin_states: self.pin_states.update(pin as int, state), ..self }
    }

    /// Adding a pin keeps the graph well formed.
    pub proof fn lemma_with_pin_wf(self, name: Seq<char>, state: PinState)
        requires
            self.wf(),
            self.len() < usize::MAX,
        ensures
            self.with_pin(name, state).wf(),
    {
        reveal(GraphView::with_pin);
        let g = self.with_pin(name, state);
        let id = self.len() as usize;
        assert forall|p: int| 0 <= p < g.len() implies g.nodes.contains_key(
            #[trigger] g.pin_nodes[p],
        ) && g.nodes[g.pin_nodes[p]].pins.contains(p as usize) by {
            if p < self.len() {
                assert(self.nodes.contains_key(self.pin_nodes[p]));
                assert(self.node_wf(self.pin_nodes[p]));
            } else {
                assert(seq![id][0] == id);
            }
        }
        assert forall|n: usize| #[trigger] g.nodes.contains_key(n) implies g.node_wf(n) by {
            if n != id {
                assert(self.node_wf(n));
            }
        }
        assert forall|k: int| 0 <= k < g.parts.len() implies #[trigger] g.part_wf(k) by {
            assert(self.part_wf(k));
        }
    }
}

/// The ids of a sequence of pins.
pub open spec fn ids_of(pins: Seq<&Pin>) -> Seq<PinId> {
    pins.map_values(|pin: &Pin| pin.id)
}

/// The ids of a sequence of pairs of pins.
pub open spec fn pair_ids_of(pairs: Seq<(&Pin, &Pin)>) -> Seq<(PinId, PinId)> {
    pairs.map_values(|pair: (&Pin, &Pin)| (pair.0.id, pair.1.id))
}

/// Folds one code into a fingerprint.
fn fold(hash: u64, code: u64) -> (r: u64)
    ensures
        r == mix(hash, code),
{
    (hash ^ code).wrapping_mul(0x0000_0100_0000_01b3)
}

fn code_of_signal(signal: Signal) -> (r: u64)
    ensures
        r == signal_code(signal),
{
    match signal {
        Signal::Off => 0,
        Signal::Low => 1,
        Signal::High => 2,
        Signal::Error => 3,
    }
}

fn code_of_state(state: PinState) -> (r: u64)
    ensures
        r == state_code(state),
{
    match state {
        PinState::HiZ => 4,
        PinState::Input(signal) => 8 + code_of_signal(signal),
        PinState::Output(signal) => 12 + code_of_signal(signal),
    }
}

/// Merges two lists of pin ids, smaller heads first.
fn merge_ids(x: &Vec<PinId>, y: &Vec<PinId>) -> (out: Vec<PinId>)
    ensures
        out@ == merge(x@, y@),
{
    let mut out: Vec<PinId> = Vec::new();
    let mut i: usize = 0;
    let mut j: usize = 0;
    proof {
        assert(x@.skip(0) =~= x@);
        assert(y@.skip(0) =~= y@);
        assert(out@ + merge(x@, y@) =~= merge(x@, y@));
    }
    while i < x.len() || j < y.len()
        invariant
            i <= x.len(),
            j <= y.len(),
            out@ + merge(x@.skip(i as int), y@.skip(j as int)) == merge(x@, y@),
        decreases x.len() - i + y.len() - j,
    {
        let ghost xs = x@.skip(i as int);
        let ghost ys = y@.skip(j as int);
        if j >= y.len() || (i < x.len() && x[i] < y[j]) {
            proof {
                assert(xs.skip(1) =~= x@.skip(i + 1));
                if j >= y.len() {
                    assert(merge(xs, ys) == xs);
                    assert(merge(xs.skip(1), ys) == xs.skip(1)) by {
                        if xs.skip(1).len() > 0 {
                        }
                    }
                    assert(xs =~= seq![x@[i as int]] + xs.skip(1));
                }
                assert(out@.push(x@[i as int]) + merge(xs.skip(1), ys) =~= out@ + (seq![
                    x@[i as int],
                ] + merge(xs.skip(1), ys)));
            }
            out.push(x[i]);
            i = i + 1;
        } else {
            proof {
                assert(ys.skip(1) =~= y@.skip(j + 1));
                if i >= x.len() {
                    assert(merge(xs, ys) == ys);
                    assert(ys =~= seq![y@[j as int]] + ys.skip(1));
                }
                assert(out@.push(y@[j as int]) + merge(xs, ys.skip(1)) =~= out@ + (seq![
                    y@[j as int],
                ] + merge(xs, ys.skip(1))));
            }
            out.push(y[j]);
            j = j + 1;
        }
    }
    proof {
        assert(merge(x@.skip(i as int), y@.skip(j as int)) =~= Seq::<PinId>::empty());
        assert(out@ + Seq::<PinId>::empty() =~= out@);
    }
    out
}

/// A set of mutually connected pins.
struct Node {
    pin_ids: Vec<PinId>,
    signal: Signal,
}

/// A set of pins with an update rule, which is applied each tick to the latest states
/// of the pins.
struct Part {
    updater: Updater,
    start: usize,
    end: usize,
}

/// The compute graph.
///
/// The graph owns the state of every pin. Builders take it as an exclusive borrow and
/// hand out [`Pin`] handles, which are plain values.
pub struct Graph {
    /// Current state of all pins in the graph.
    pin_states: Vec<PinState>,
    pin_names: Vec<String>,
    /// The nodes, indexed by node id. A node that was merged into another keeps its
    /// slot, with no pins.
    nodes: Vec<Node>,
    /// Reverse lookup from pins to nodes.
    pin_nodes: Vec<usize>,
    /// Parts for updating output pins.
    parts: Vec<Part>,
}

impl View for Graph {
    type V = GraphView;

    closed spec fn view(&self) -> GraphView {
        GraphView {
            pin_states: self.pin_states@,
            pin_names: Seq::new(self.pin_names@.len(), |i: int| self.pin_names@[i]@),
            nodes: Map::new(
                |n: usize| n < self.nodes@.len() && self.nodes@[n as int].pin_ids@.len() > 0,
                |n: usize|
                    NodeView {
                        pins: self.nodes@[n as int].pin_ids@,
                        signal: self.nodes@[n as int].signal,
                    },
            ),
            pin_nodes: self.pin_nodes@,
            parts: Seq::new(
                self.parts@.len(),
                |k: int|
                    PartView {
                        rule: self.parts@[k].updater@,
                        start: self.parts@[k].start as nat,
                        end: self.parts@[k].end as nat,
                    },
            ),
        }
    }
}

impl Graph {
    /// The invariant of the graph: its content is well formed, and one slot is kept
    /// for the node of every pin.
    pub closed spec fn wf(&self) -> bool {
        &&& self@.wf()
        &&& self.nodes@.len() == self.pin_states@.len()
    }

    /// A well-formed graph has a well-formed content.
    pub proof fn lemma_wf(&self)
        requires
            self.wf(),
        ensures
            self@.wf(),
    {
    }

    /// The pins of a well-formed graph can be counted in a machine word.
    pub proof fn lemma_len(&self)
        requires
            self.wf(),
        ensures
            self@.len() <= usize::MAX,
    {
    }

    /// Creates a new compute graph.
    pub fn new() -> (graph: Self)
        ensures
            graph.wf(),
            graph@ == GraphView::empty(),
    {
        let graph = Graph {
            pin_states: Vec::new(),
            pin_names: Vec::new(),
            nodes: Vec::new(),
            pin_nodes: Vec::new(),
            parts: Vec::new(),
        };
        assert(graph@.pin_names =~= Seq::empty());
        assert(graph@.nodes =~= Map::empty());
        assert(graph@.parts =~= Seq::empty());
        graph
    }

    /// The number of pins in the graph.
    pub fn len(&self) -> (n: usize)
        ensures
            n == self@.len(),
    {
        self.pin_states.len()
    }

    /// Creates a new pin with the given name and state.
    pub fn new_pin(&mut self, name: String, state: PinState) -> (pin: Pin)
        requires
            old(self).wf(),
        ensures
            final(self).wf(),
            final(self)@ == old(self)@.with_pin(name@, state),
            pin.id == old(self)@.len(),
            pin.name == name,
            final(self)@.len() == old(self)@.len() + 1,
            final(self)@.extends(old(self)@),
            final(self)@.heads(pin.id),
    {
        proof {
            reveal(GraphView::with_pin);
        }
        let id = self.pin_states.len();
        let ghost before = self@;
        self.pin_states.push(state);
        self.pin_names.push(name.clone());
        let mut pin_ids = Vec::new();
        pin_ids.push(id);
        // A node without a driver is off, and so is a node that has no pins but this.
        self.nodes.push(Node { pin_ids, signal: Signal::Off });
        self.pin_nodes.push(id);
        proof {
            let after = before.with_pin(name@, state);
            assert(self@.pin_names =~= after.pin_names);
            assert(self@.nodes =~= after.nodes);
            assert(self@.parts =~= after.parts);
            assert(self.pin_states.len() <= usize::MAX);
            before.lemma_with_pin_wf(name@, state);
            before.lemma_with_pin(name@, state);
        }
        Pin { id, name }
    }

    /// Creates a new pin with default input state.
    pub fn new_input(&mut self, name: &str) -> (pin: Pin)
        requires
            old(self).wf(),
        ensures
            final(self).wf(),
            final(self)@ == old(self)@.with_pin(name@, PinState::Input(Signal::Off)),
            pin.id == old(self)@.len(),
            pin.name@ == name@,
            final(self)@.len() == old(self)@.len() + 1,
            final(self)@.extends(old(self)@),
            final(self)@.heads(pin.id),
    {
        self.new_pin(name.to_owned(), PinState::input())
    }

    /// Creates a new output pin with the given signal.
    pub fn new_output(&mut self, name: &str, signal: Signal) -> (pin: Pin)
        requires
            old(self).wf(),
        ensures
            final(self).wf(),
            final(self)@ == old(self)@.with_pin(name@, PinState::Output(signal)),
            pin.id == old(self)@.len(),
            pin.name@ == name@,
            final(self)@.len() == old(self)@.len() + 1,
            final(self)@.extends(old(self)@),
            final(self)@.heads(pin.id),
    {
        self.new_pin(name.to_owned(), PinState::Output(signal))
    }

    /// Creates a set of contiguous pins, named after `name` and their index.
    pub fn new_pins(&mut self, name: &str, new_states: &[PinState]) -> (pins: Vec<Pin>)
        requires
            old(self).wf(),
        ensures
            final(self).wf(),
            final(self)@ == old(self)@.with_pins(name@, new_states@),
            pins@.len() == new_states@.len(),
            forall|i: int|
                0 <= i < pins@.len() ==> (#[trigger] pins@[i]).id == old(self)@.len() + i
                    && pins@[i].name@ == indexed(name@, i as nat),
            final(self)@.len() == old(self)@.len() + new_states@.len(),
            final(self)@.extends(old(self)@),
            forall|i: int|
                0 <= i < new_states@.len() ==> #[trigger] final(self)@.heads(
                    (old(self)@.len() + i) as usize,
                ),
            forall|i: int|
                0 <= i < new_states@.len() ==> #[trigger] final(self)@.pin_states[old(self)@.len() + i]
                    == new_states@[i],
    {
        proof {
            reveal(GraphView::with_pins);
        }
        let ghost before = self@;
        let mut pins: Vec<Pin> = Vec::new();
        let mut i: usize = 0;
        proof {
            assert(new_states@.take(0) =~= Seq::empty());
            let e = before.with_pins(name@, Seq::empty());
            assert(e.pin_states =~= before.pin_states);
            assert(e.pin_names =~= before.pin_names);
            assert(e.pin_nodes =~= before.pin_nodes);
            assert(e.nodes =~= before.nodes);
        }
        while i < new_states.len()
            invariant
                i <= new_states@.len(),
                before.wf(),
                self.wf(),
                self@ == before.with_pins(name@, new_states@.take(i as int)),
                self@.len() == before.len() + i,
                pins@.len() == i,
                forall|j: int|
                    0 <= j < i ==> (#[trigger] pins@[j]).id == before.len() + j && pins@[j].name@
                        == indexed(name@, j as nat),
            decreases new_states@.len() - i,
        {
            let pin = self.new_pin(indexed_name(name, i), new_states[i]);
            proof {
                assert(self@.len() <= usize::MAX) by {
                    self.lemma_wf();
                }
                before.lemma_with_pins_step(name@, new_states@, i as int);
            }
            pins.push(pin);
            i = i + 1;
        }
        proof {
            assert(new_states@.take(i as int) =~= new_states@);
            assert(self.pin_states.len() <= usize::MAX);
            before.lemma_with_pins(name@, new_states@);
        }
        pins
    }

    /// Creates a part.
    ///
    /// A part is a set of pins with an associated updater. Each tick, the updater
    /// produces a new set of pin states given the existing states.
    pub fn new_part(&mut self, name: &str, new_states: &[PinState], updater: Updater) -> (pins:
        Vec<Pin>)
        requires
            old(self).wf(),
            updater@.fits(new_states@.len()),
        ensures
            final(self).wf(),
            final(self)@ == old(self)@.with_part(name@, new_states@, updater@),
            pins@.len() == new_states@.len(),
            forall|i: int|
                0 <= i < pins@.len() ==> (#[trigger] pins@[i]).id == old(self)@.len() + i
                    && pins@[i].name@ == indexed(name@, i as nat),
            final(self)@.len() == old(self)@.len() + new_states@.len(),
            final(self)@.extends(old(self)@),
            forall|i: int|
                0 <= i < new_states@.len() ==> #[trigger] final(self)@.heads(
                    (old(self)@.len() + i) as usize,
                ),
            forall|i: int|
                0 <= i < new_states@.len() ==> #[trigger] final(self)@.pin_states[old(self)@.len() + i]
                    == new_states@[i],
    {
        proof {
            reveal(GraphView::with_part);
            reveal(GraphView::with_pins);
        }
        let ghost before = self@;
        let start = self.pin_states.len();
        let pins = self.new_pins(name, new_states);
        let end = self.pin_states.len();
        self.parts.push(Part { updater, start, end });
        proof {
            let after = before.with_part(name@, new_states@, updater@);
            assert(self@.pin_names =~= after.pin_names);
            assert(self@.nodes =~= after.nodes);
            assert(self@.parts =~= after.parts);
            before.lemma_with_part_wf(name@, new_states@, updater@);
            assert(self.pin_states.len() <= usize::MAX);
            before.lemma_with_part(name@, new_states@, updater@);
        }
        pins
    }

    /// The handle of the pin with the given id.
    fn pin_at(&self, id: PinId) -> (pin: Pin)
        requires
            id < self.pin_names@.len(),
        ensures
            pin@ == self@.pin(id),
    {
        Pin { id, name: self.pin_names[id].clone() }
    }

    /// Lists all the pins that are not connected to any others, each with the id of its
    /// node, in ascending order of the nodes.
    pub fn orphans(&self) -> (found: Vec<(usize, Pin)>)
        requires
            self.wf(),
        ensures
            found@.map_values(|e: (usize, Pin)| (e.0, e.1@)) == self@.orphans(),
    {
        let mut found: Vec<(usize, Pin)> = Vec::new();
        let mut n: usize = 0;
        let total = self.nodes.len();
        proof {
            assert(found@.map_values(|e: (usize, Pin)| (e.0, e.1@)) =~= self@.orphans_below(0));
        }
        while n < total
            invariant
                n <= total,
                total == self.nodes@.len(),
                total == self@.len(),
                self.wf(),
                found@.map_values(|e: (usize, Pin)| (e.0, e.1@)) == self@.orphans_below(n as nat),
            decreases total - n,
        {
            let ghost before = found@;
            if self.nodes[n].pin_ids.len() == 1 {
                proof {
                    assert(self@.nodes.contains_key(n));
                    assert(self@.node_wf(n));
                }
                let pin = self.pin_at(self.nodes[n].pin_ids[0]);
                found.push((n, pin));
                proof {
                    assert(found@.map_values(|e: (usize, Pin)| (e.0, e.1@)) =~= before.map_values(
                        |e: (usize, Pin)| (e.0, e.1@),
                    ).push((n, pin@)));
                }
            }
            n = n + 1;
        }
        found
    }

    /// Lists all the nodes in the graph, each with its id and its pins, in ascending
    /// order.
    pub fn nodes(&self) -> (listing: Vec<(usize, Vec<Pin>)>)
        requires
            self.wf(),
        ensures
            listing@.map_values(|e: (usize, Vec<Pin>)| (e.0, e.1@.map_values(|pin: Pin| pin@)))
                == self@.listing(),
    {
        let mut listing: Vec<(usize, Vec<Pin>)> = Vec::new();
        let mut n: usize = 0;
        let total = self.nodes.len();
        proof {
            assert(listing@.map_values(
                |e: (usize, Vec<Pin>)| (e.0, e.1@.map_values(|pin: Pin| pin@)),
            ) =~= self@.listing_below(0));
        }
        while n < total
            invariant
                n <= total,
                total == self.nodes@.len(),
                total == self@.len(),
                self.wf(),
                listing@.map_values(|e: (usize, Vec<Pin>)| (e.0, e.1@.map_values(|pin: Pin| pin@)))
                    == self@.listing_below(n as nat),
            decreases total - n,
        {
            let ghost before = listing@;
            let count = self.nodes[n].pin_ids.len();
            if count > 0 {
                proof {
                    assert(self@.nodes.contains_key(n));
                    assert(self@.node_wf(n));
                }
                let ghost ids = self@.nodes[n].pins;
                let mut pins: Vec<Pin> = Vec::new();
                let mut i: usize = 0;
                while i < count
                    invariant
                        i <= count,
                        n < self.nodes@.len(),
                        count == self.nodes@[n as int].pin_ids@.len(),
                        ids == self.nodes@[n as int].pin_ids@,
                        forall|j: int| 0 <= j < ids.len() ==> ids[j] < self.pin_names@.len(),
                        pins@.len() == i,
                        forall|j: int| 0 <= j < i ==> (#[trigger] pins@[j])@ == self@.pin(ids[j]),
                    decreases count - i,
                {
                    let pin = self.pin_at(self.nodes[n].pin_ids[i]);
                    pins.push(pin);
                    i = i + 1;
                }
                proof {
                    assert(pins@.map_values(|pin: Pin| pin@) =~= ids.map_values(|id: PinId| self@.pin(id)));
                }
                listing.push((n, pins));
                proof {
                    assert(listing@.map_values(
                        |e: (usize, Vec<Pin>)| (e.0, e.1@.map_values(|pin: Pin| pin@)),
                    ) =~= before.map_values(
                        |e: (usize, Vec<Pin>)| (e.0, e.1@.map_values(|pin: Pin| pin@)),
                    ).push((n, ids.map_values(|id: PinId| self@.pin(id)))));
                }
            }
            n = n + 1;
        }
        listing
    }

    /// Whether no part owns the pin, so that only the circuit builder sets its state.
    pub fn is_free(&self, pin: &Pin) -> (r: bool)
        requires
            self.wf(),
        ensures
            r == self@.free(pin.id as int),
    {
        let mut k: usize = 0;
        while k < self.parts.len()
            invariant
                k <= self.parts@.len(),
                forall|j: int| 0 <= j < k ==> !#[trigger] self@.owns(j, pin.id as int),
            decreases self.parts@.len() - k,
        {
            if self.parts[k].start <= pin.id && pin.id < self.parts[k].end {
                assert(self@.owns(k as int, pin.id as int));
                return false;
            }
            k = k + 1;
        }
        true
    }

    /// Whether the two pins belong to the same node.
    pub fn connected(&self, a: &Pin, b: &Pin) -> (r: bool)
        requires
            self.wf(),
            a.id < self@.len(),
            b.id < self@.len(),
        ensures
            r == self@.connected(a.id, b.id),
    {
        self.pin_nodes[a.id] == self.pin_nodes[b.id]
    }

    /// Connects two pins together.
    ///
    /// The node connected to `b` is merged into the node connected to `a`. In other
    /// words, all pins already connected to `a` and `b` are now connected to each other.
    /// The two pins must not be connected yet.
    pub fn connect(&mut self, a: &Pin, b: &Pin)
        requires
            old(self).wf(),
            a.id < old(self)@.len(),
            b.id < old(self)@.len(),
            !old(self)@.connected(a.id, b.id),
        ensures
            final(self).wf(),
            final(self)@ == old(self)@.joined(a.id, b.id),
            final(self)@.len() == old(self)@.len(),
    {
        proof {
            reveal(GraphView::joined);
        }
        let ghost before = self@;
        let a_node_id = self.pin_nodes[a.id];
        let b_node_id = self.pin_nodes[b.id];
        proof {
            assert(before.nodes.contains_key(a_node_id));
            assert(before.nodes.contains_key(b_node_id));
            assert(before.node_wf(a_node_id));
            assert(before.node_wf(b_node_id));
        }
        let merged = merge_ids(&self.nodes[a_node_id].pin_ids, &self.nodes[b_node_id].pin_ids);
        let ghost moved = self.nodes@[b_node_id as int].pin_ids@;
        let count = self.nodes[b_node_id].pin_ids.len();
        let mut k: usize = 0;
        while k < count
            invariant
                k <= count,
                count == moved.len(),
                a_node_id != b_node_id,
                a_node_id < self.nodes@.len(),
                b_node_id < self.nodes@.len(),
                moved == self.nodes@[b_node_id as int].pin_ids@,
                before.wf(),
                before.nodes.contains_key(b_node_id),
                before.nodes[b_node_id].pins == moved,
                before.pin_nodes == old(self).pin_nodes@,
                self.nodes == old(self).nodes,
                self.pin_states == old(self).pin_states,
                self.pin_names == old(self).pin_names,
                self.parts == old(self).parts,
                self.pin_nodes@.len() == before.len(),
                forall|p: int|
                    0 <= p < before.len() ==> self.pin_nodes@[p] == if before.pin_nodes[p]
                        == b_node_id && (k == count || p < moved[k as int]) {
                        a_node_id
                    } else {
                        before.pin_nodes[p]
                    },
            decreases count - k,
        {
            let b_pin = self.nodes[b_node_id].pin_ids[k];
            proof {
                assert(before.node_wf(b_node_id));
                assert(before.pin_nodes[moved[k as int] as int] == b_node_id);
                assert forall|p: int|
                    0 <= p < before.len() && before.pin_nodes[p] == b_node_id implies (p
                    < moved[k as int] || p == moved[k as int] || (k + 1 < count && p >= moved[k
                    + 1])) by {
                    assert(before.nodes[before.pin_nodes[p]].pins.contains(p as usize));
                    let m = choose|m: int| 0 <= m < moved.len() && moved[m] == p as usize;
                    if m > k {
                        if m > k + 1 {
                            assert(moved[k + 1] < moved[m]);
                        }
                    } else if m < k {
                        assert(moved[m] < moved[k as int]);
                    }
                }
                if k + 1 < count {
                    assert(moved[k as int] < moved[k + 1]);
                }
            }
            self.pin_nodes[b_pin] = a_node_id;
            k = k + 1;
        }
        self.nodes[a_node_id].pin_ids = merged;
        self.nodes[b_node_id].pin_ids = Vec::new();
        proof {
            let after = before.joined(a.id, b.id);
            assert(self@.pin_nodes =~= after.pin_nodes);
            assert(self@.pin_names =~= after.pin_names);
            assert(self@.parts =~= after.parts);
            lemma_merge_contains(before.nodes[a_node_id].pins, before.nodes[b_node_id].pins, 0);
            assert(self@.nodes =~= after.nodes);
            before.lemma_joined_wf(a.id, b.id);
        }
    }

    /// Connects given pairs of pins to each other, one pair after the other.
    pub fn connect_pairs(&mut self, pairs: &[(&Pin, &Pin)])
        requires
            old(self).wf(),
            old(self)@.can_join_pairs(pair_ids_of(pairs@)),
        ensures
            final(self).wf(),
            final(self)@ == old(self)@.joined_pairs(pair_ids_of(pairs@)),
    {
        let ghost before = self@;
        let ghost ids = pair_ids_of(pairs@);
        let mut i: usize = 0;
        proof {
            assert(ids.take(0) =~= Seq::empty());
        }
        while i < pairs.len()
            invariant
                i <= pairs@.len(),
                ids == pair_ids_of(pairs@),
                before.can_join_pairs(ids),
                self.wf(),
                self@ == before.joined_pairs(ids.take(i as int)),
                self@.len() == before.len(),
            decreases pairs@.len() - i,
        {
            proof {
                before.lemma_can_join_prefix(ids, i + 1);
                assert(ids.take(i + 1).drop_last() =~= ids.take(i as int));
                assert(ids.take(i + 1).last() == ids[i as int]);
            }
            let (one, other) = pairs[i];
            self.connect(one, other);
            i = i + 1;
        }
        proof {
            assert(ids.take(i as int) =~= ids);
        }
    }

    /// Connects all pins to each other, by merging the nodes of the others into the
    /// node of the first. No two of the pins may be connected yet.
    pub fn connect_all(&mut self, pins: &[&Pin])
        requires
            old(self).wf(),
            pins@.len() >= 1,
            old(self)@.all_apart(ids_of(pins@)),
        ensures
            final(self).wf(),
            final(self)@ == old(self)@.joined_all(ids_of(pins@)),
    {
        let ghost before = self@;
        let ghost ids = ids_of(pins@);
        let first = pins[0];
        let mut i: usize = 1;
        proof {
            assert(ids.take(1).len() == 1);
        }
        while i < pins.len()
            invariant
                1 <= i <= pins@.len(),
                ids == ids_of(pins@),
                first == pins@[0],
                before.wf(),
                before.all_apart(ids),
                self.wf(),
                self@ == before.joined_all(ids.take(i as int)),
            decreases pins@.len() - i,
        {
            proof {
                let done = ids.take(i as int);
                assert(before.all_apart(done)) by {
                    assert forall|x: int| 0 <= x < done.len() implies done[x] < before.len() by {
                        assert(done[x] == ids[x]);
                    }
                    assert forall|x: int, y: int| 0 <= x < y < done.len() implies !before.connected(
                        done[x],
                        done[y],
                    ) by {
                        assert(done[x] == ids[x] && done[y] == ids[y]);
                    }
                }
                before.lemma_joined_all(done);
                let a = ids[0] as int;
                let b = ids[i as int] as int;
                assert(!before.among(done, 1, done.len() as int, a)) by {
                    if before.among(done, 1, done.len() as int, a) {
                        let m = choose|m: int|
                            1 <= m < done.len() && before.pin_nodes[a] == before.pin_nodes[#[trigger] done[m] as int];
                        assert(done[m] == ids[m]);
                        assert(!before.connected(ids[0], ids[m]));
                    }
                }
                assert(!before.among(done, 1, done.len() as int, b)) by {
                    if before.among(done, 1, done.len() as int, b) {
                        let m = choose|m: int|
                            1 <= m < done.len() && before.pin_nodes[b] == before.pin_nodes[#[trigger] done[m] as int];
                        assert(done[m] == ids[m]);
                        assert(!before.connected(ids[m], ids[i as int]));
                    }
                }
                assert(!before.connected(ids[0], ids[i as int]));
                assert(self@.pin_nodes[a] == before.pin_nodes[a]);
                assert(self@.pin_nodes[b] == before.pin_nodes[b]);
                assert(ids.take(i + 1).drop_last() =~= done);
                assert(ids.take(i + 1).last() == ids[i as int]);
                assert(ids.take(i + 1)[0] == ids[0]);
            }
            self.connect(first, pins[i]);
            i = i + 1;
        }
        proof {
            assert(ids.take(i as int) =~= ids);
        }
    }

    /// Calls the updaters for all parts with their current pin states.
    pub fn update_parts(&mut self)
        requires
            old(self).wf(),
        ensures
            final(self).wf(),
            final(self)@ == old(self)@.after_parts(),
    {
        let ghost before = self@;
        let total = self.parts.len();
        let mut k: usize = 0;
        while k < total
            invariant
                k <= total,
                total == before.parts.len(),
                total == self.parts@.len(),
                before.wf(),
                before == old(self)@,
                self.wf(),
                self@ == before.parts_updated(k as nat),
            decreases total - k,
        {
            let ghost current = self@;
            let start = self.parts[k].start;
            let end = self.parts[k].end;
            proof {
                assert(current.part_wf(k as int));
                current.lemma_with_part_updated_wf(k as int);
            }
            let all = self.pin_states.as_mut_slice();
            let (_, rest) = all.split_at_mut(start);
            let (mine, _) = rest.split_at_mut(end - start);
            assert(mine@ =~= current.part_pins(k as int));
            self.parts[k].updater.update(mine);
            proof {
                let after = current.with_part_updated(k as int);
                assert(self@.pin_states =~= after.pin_states);
                assert(self@.pin_names =~= after.pin_names);
                assert(self@.nodes =~= after.nodes);
                assert(self@.parts =~= after.parts);
            }
            k = k + 1;
        }
    }

    /// A full pass of updating parts then nodes.
    ///
    /// Returns the number of nodes that were updated to a new signal.
    pub fn tick(&mut self) -> (updates: usize)
        requires
            old(self).wf(),
        ensures
            final(self).wf(),
            final(self)@ == old(self)@.after_tick(),
            updates == old(self)@.tick_updates(),
    {
        self.update_parts();
        self.update_nodes()
    }

    /// Computes the fingerprint of the pin states and node signals.
    fn fingerprint(&self) -> (hash: u64)
        requires
            self.wf(),
        ensures
            hash == self@.fingerprint(),
    {
        let mut hash: u64 = 0xcbf2_9ce4_8422_2325;
        let total = self.pin_states.len();
        let mut i: usize = 0;
        while i < total
            invariant
                i <= total,
                total == self@.len(),
                hash == self@.hash_states(i as nat),
            decreases total - i,
        {
            hash = fold(hash, code_of_state(self.pin_states[i]));
            i = i + 1;
        }
        let mut n: usize = 0;
        while n < total
            invariant
                n <= total,
                total == self@.len(),
                total == self.nodes@.len(),
                hash == self@.hash_nodes(n as nat),
            decreases total - n,
        {
            if self.nodes[n].pin_ids.len() > 0 {
                hash = fold(hash, code_of_signal(self.nodes[n].signal));
            }
            n = n + 1;
        }
        hash
    }

    /// Ticks the compute graph until reaching steady state.
    ///
    /// Steady state is either a tick that updates no node, or a detected cycle: the
    /// fingerprint of all pin states and node signals is taken after every tick, and a
    /// fingerprint that was seen before ends the run.
    pub fn run(&mut self) -> (stats: RunStats)
        requires
            old(self).wf(),
        ensures
            final(self).wf(),
            final(self)@ == old(self)@.run().0,
            stats == old(self)@.run().1,
            stats.ticks <= RUN_LIMIT,
            stats.updates <= RUN_LIMIT,
            stats.cycle < stats.ticks,
    {
        let ghost before = self@;
        let mut stats = RunStats { ticks: 1, updates: 0, cycle: 0 };

        // for cycle detection
        let mut state_hashes: BTreeMap<u64, usize> = BTreeMap::new();

        loop
            invariant
                self.wf(),
                before == old(self)@,
                before.run() == self@.run_from(stats, state_hashes@),
                1 <= stats.ticks <= RUN_LIMIT,
                stats.updates <= RUN_LIMIT,
                stats.cycle == 0,
                forall|h: u64| state_hashes@.contains_key(h) ==> #[trigger] state_hashes@[h] <= stats.ticks,
            decreases RUN_LIMIT - stats.ticks,
        {
            let ghost seen = state_hashes@;
            let n = self.tick();
            if n == 0 || stats.ticks >= RUN_LIMIT || n > RUN_LIMIT - stats.updates {
                return stats;
            }
            stats.ticks = stats.ticks + 1;
            stats.updates = stats.updates + n;

            let hash = self.fingerprint();
            match state_hashes.insert(hash, stats.ticks) {
                Some(tick) => {
                    stats.cycle = stats.ticks - tick - 1;
                    return stats;
                },
                None => {
                    proof {
                        assert forall|h: u64| state_hashes@.contains_key(h) implies #[trigger] state_hashes@[h]
                            <= stats.ticks by {
                            if h != hash {
                                assert(seen.contains_key(h));
                            }
                        }
                    }
                },
            }
        }
    }

    /// Flips the state of the given output pin for one tick.
    ///
    /// Returns the number of nodes that the tick updated.
    pub fn flash_output(&mut self, pin: &mut Pin) -> (updates: usize)
        requires
            old(self).wf(),
            old(self)@.can_flash(old(pin).id),
        ensures
            final(self).wf(),
            final(self)@ == old(self)@.flashed(old(pin).id),
            updates == old(self)@.flipped(old(pin).id).tick_updates(),
            *final(pin) == *old(pin),
    {
        self.flip_output(pin);
        proof {
            self@.lemma_after_tick_wf();
        }
        let updates = self.tick();
        self.flip_output(pin);

        updates
    }

    /// Flips the output, runs, flips back, runs.
    ///
    /// Useful for generating clock pulses.
    pub fn pulse_output(&mut self, pin: &mut Pin) -> (stats: RunStats)
        requires
            old(self).wf(),
            old(self)@.can_pulse(old(pin).id),
        ensures
            final(self).wf(),
            final(self)@ == old(self)@.pulsed(old(pin).id),
            stats == old(self)@.flipped(old(pin).id).run().1.plus(
                old(self)@.flipped(old(pin).id).run().0.flipped(old(pin).id).run().1,
            ),
            *final(pin) == *old(pin),
    {
        self.flip_output(pin);
        let stats = self.run();
        proof {
            old(self)@.lemma_with_state_wf(
                pin.id,
                PinState::Output(old(self)@.pin_states[pin.id as int].signal().inverse()),
            );
            old(self)@.flipped(pin.id).lemma_run_from_wf(
                RunStats { ticks: 1, updates: 0, cycle: 0 },
                Map::empty(),
            );
        }
        self.flip_output(pin);
        let second = self.run();
        stats + second
    }

    /// Scans the pins of a node for the signal that the node resolves to.
    fn resolve_node(&self, n: usize) -> (new_signal: Signal)
        requires
            n < self.nodes@.len(),
            forall|i: int|
                0 <= i < self.nodes@[n as int].pin_ids@.len() ==> self.nodes@[n as int].pin_ids@[i]
                    < self.pin_states@.len(),
        ensures
            new_signal == resolve(self.pin_states@, self.nodes@[n as int].pin_ids@),
    {
        let mut new_signal = Signal::Off;
        let mut out_count: usize = 0;
        let mut i: usize = 0;
        let ghost pins = self.nodes@[n as int].pin_ids@;
        while i < self.nodes[n].pin_ids.len()
            invariant
                n < self.nodes@.len(),
                pins == self.nodes@[n as int].pin_ids@,
                i <= pins.len(),
                forall|k: int| 0 <= k < pins.len() ==> pins[k] < self.pin_states@.len(),
                out_count == drivers(self.pin_states@, pins.take(i as int)).len(),
                out_count <= i,
                new_signal == resolve(self.pin_states@, pins.take(i as int)),
            decreases pins.len() - i,
        {
            let pin = self.nodes[n].pin_ids[i];
            proof {
                assert(pins.take(i + 1).drop_last() =~= pins.take(i as int));
                assert(pins.take(i + 1).last() == pin);
            }
            match self.pin_states[pin] {
                PinState::HiZ | PinState::Input(_) => {},
                PinState::Output(signal) => {
                    if out_count > 0 {
                        new_signal = Signal::Error;
                    } else {
                        new_signal = signal;
                    }
                    out_count = out_count + 1;
                },
            }
            i = i + 1;
        }
        proof {
            assert(pins.take(i as int) =~= pins);
        }
        new_signal
    }

    /// Writes the signal of a node into every input among its pins.
    fn drive_inputs(&mut self, n: usize, signal: Signal)
        requires
            old(self).wf(),
            old(self)@.nodes.contains_key(n),
        ensures
            final(self).pin_states@.len() == old(self).pin_states@.len(),
            forall|p: int|
                0 <= p < old(self).pin_states@.len() ==> #[trigger] final(self).pin_states@[p] == if old(
                    self,
                ).pin_nodes@[p] == n && old(self).pin_states@[p] is Input {
                    PinState::Input(signal)
                } else {
                    old(self).pin_states@[p]
                },
            final(self).pin_names == old(self).pin_names,
            final(self).nodes == old(self).nodes,
            final(self).pin_nodes == old(self).pin_nodes,
            final(self).parts == old(self).parts,
    {
        let ghost before = self@;
        let ghost pins = self.nodes@[n as int].pin_ids@;
        let count = self.nodes[n].pin_ids.len();
        let mut i: usize = 0;
        proof {
            assert(before.node_wf(n));
        }
        while i < count
            invariant
                i <= count,
                count == pins.len(),
                n < self.nodes@.len(),
                pins == self.nodes@[n as int].pin_ids@,
                before.wf(),
                before.nodes.contains_key(n),
                before.nodes[n].pins == pins,
                before.pin_states == old(self).pin_states@,
                before.pin_nodes == old(self).pin_nodes@,
                self.pin_states@.len() == before.len(),
                self.pin_names == old(self).pin_names,
                self.nodes == old(self).nodes,
                self.pin_nodes == old(self).pin_nodes,
                self.parts == old(self).parts,
                forall|p: int|
                    0 <= p < before.len() ==> #[trigger] self.pin_states@[p] == if before.pin_nodes[p]
                        == n && before.pin_states[p] is Input && (i == count || p < pins[i as int]) {
                        PinState::Input(signal)
                    } else {
                        before.pin_states[p]
                    },
            decreases count - i,
        {
            let pin_id = self.nodes[n].pin_ids[i];
            proof {
                assert(before.node_wf(n));
                assert(before.pin_nodes[pins[i as int] as int] == n);
                assert forall|p: int| 0 <= p < before.len() && before.pin_nodes[p] == n implies (p
                    < pins[i as int] || p == pins[i as int] || (i + 1 < count && p >= pins[i + 1])) by {
                    assert(before.nodes[before.pin_nodes[p]].pins.contains(p as usize));
                    let m = choose|m: int| 0 <= m < pins.len() && pins[m] == p as usize;
                    if m > i {
                        if m > i + 1 {
                            assert(pins[i + 1] < pins[m]);
                        }
                    } else if m < i {
                        assert(pins[m] < pins[i as int]);
                    }
                }
                if i + 1 < count {
                    assert(pins[i as int] < pins[i + 1]);
                }
            }
            match self.pin_states[pin_id] {
                PinState::Input(_) => {
                    self.pin_states[pin_id] = PinState::Input(signal);
                },
                _ => {},
            }
            i = i + 1;
        }
    }

    /// Propagates signals from output pins to nodes, and from nodes to input pins.
    ///
    /// Returns the number of nodes that were updated to a new signal.
    pub fn update_nodes(&mut self) -> (update_count: usize)
        requires
            old(self).wf(),
        ensures
            final(self).wf(),
            final(self)@ == old(self)@.after_nodes(),
            update_count == old(self)@.node_updates(),
    {
        let ghost before = self@;
        let mut update_count: usize = 0;
        let mut n: usize = 0;
        let total = self.nodes.len();
        while n < total
            invariant
                n <= total,
                total == before.len(),
                before == old(self)@,
                before.wf(),
                self.wf(),
                self.nodes@.len() == total,
                old(self).nodes@.len() == total,
                self.pin_states@.len() == total,
                self.pin_nodes == old(self).pin_nodes,
                self.pin_names == old(self).pin_names,
                self.parts == old(self).parts,
                forall|m: int|
                    0 <= m < total ==> (#[trigger] self.nodes@[m]).pin_ids == old(self).nodes@[m].pin_ids,
                forall|m: int|
                    0 <= m < total ==> (#[trigger] self.nodes@[m]).signal == if m < n
                        && before.nodes.contains_key(m as usize) {
                        before.resolved(m as usize)
                    } else {
                        old(self).nodes@[m].signal
                    },
                forall|p: int|
                    0 <= p < total ==> #[trigger] self.pin_states@[p] == if before.pin_nodes[p] < n {
                        before.pin_after_nodes(p)
                    } else {
                        before.pin_states[p]
                    },
                update_count == before.changed_below(n as nat),
                update_count <= n,
            decreases total - n,
        {
            let ghost current = self@;
            if self.nodes[n].pin_ids.len() > 0 {
                proof {
                    assert(before.nodes.contains_key(n));
                    assert(before.node_wf(n));
                    assert(current.nodes.contains_key(n));
                    assert(current.node_wf(n));
                    let pins = before.nodes[n].pins;
                    assert forall|i: int| 0 <= i < pins.len() implies ((
                    #[trigger] self.pin_states@[pins[i] as int]) is Output
                        <==> before.pin_states[pins[i] as int] is Output) by {
                        let p = pins[i] as int;
                        assert(self.pin_states@[p] == if before.pin_nodes[p] < n {
                            before.pin_after_nodes(p)
                        } else {
                            before.pin_states[p]
                        });
                    }
                    lemma_drivers_agree(self.pin_states@, before.pin_states, pins);
                    lemma_drivers_members(before.pin_states, pins);
                    let d = drivers(before.pin_states, pins);
                    if d.len() == 1 {
                        assert(pins.contains(d[0]));
                        let p = d[0] as int;
                        assert(self.pin_states@[p] == if before.pin_nodes[p] < n {
                            before.pin_after_nodes(p)
                        } else {
                            before.pin_states[p]
                        });
                    }
                }
                let new_signal = self.resolve_node(n);
                assert(new_signal == before.resolved(n));
                if new_signal != self.nodes[n].signal {
                    update_count = update_count + 1;
                    self.nodes[n].signal = new_signal;
                    proof {
                        let mid = self@;
                        assert(mid.nodes.contains_key(n));
                        assert(mid.pin_names =~= current.pin_names);
                        assert(mid.parts =~= current.parts);
                        assert forall|m: usize| #[trigger] mid.nodes.contains_key(m) implies mid.node_wf(m) by {
                            assert(current.nodes.contains_key(m));
                            assert(current.node_wf(m));
                        }
                        assert forall|p: int| 0 <= p < mid.len() implies mid.nodes.contains_key(
                            #[trigger] mid.pin_nodes[p],
                        ) && mid.nodes[mid.pin_nodes[p]].pins.contains(p as usize) by {
                            assert(current.nodes.contains_key(current.pin_nodes[p]));
                        }
                        assert forall|k: int| 0 <= k < mid.parts.len() implies #[trigger] mid.part_wf(k) by {
                            assert(current.part_wf(k));
                        }
                        assert(mid.wf());
                    }
                    self.drive_inputs(n, new_signal);
                }
                proof {
                    let now = self@;
                    assert(now.pin_names =~= current.pin_names);
                    assert(now.parts =~= current.parts);
                    assert forall|m: usize| #[trigger] now.nodes.contains_key(m) implies now.node_wf(m) by {
                        assert(current.nodes.contains_key(m));
                        assert(current.node_wf(m));
                    }
                    assert forall|p: int| 0 <= p < now.len() implies now.nodes.contains_key(
                        #[trigger] now.pin_nodes[p],
                    ) && now.nodes[now.pin_nodes[p]].pins.contains(p as usize) by {
                        assert(current.nodes.contains_key(current.pin_nodes[p]));
                    }
                    assert forall|k: int| 0 <= k < now.parts.len() implies #[trigger] now.part_wf(k) by {
                        assert(current.part_wf(k));
                    }
                }
            } else {
                assert(!before.nodes.contains_key(n));
            }
            n = n + 1;
        }
        proof {
            let after = before.after_nodes();
            assert(self@.pin_states =~= after.pin_states) by {
                assert forall|p: int| 0 <= p < total implies self@.pin_states[p] == after.pin_states[p] by {
                    assert(before.nodes.contains_key(before.pin_nodes[p]));
                    assert(before.node_wf(before.pin_nodes[p]));
                }
            }
            assert(self@.pin_names =~= after.pin_names);
            assert(self@.parts =~= after.parts);
            assert(self@.nodes =~= after.nodes);
        }
        update_count
    }

    /// Get the state of the pin.
    pub fn get_state(&self, pin: &Pin) -> (state: PinState)
        requires
            pin.id < self@.len(),
        ensures
            state == self@.pin_states[pin.id as int],
    {
        self.pin_states[pin.id]
    }

    /// Get the signal of the pin.
    pub fn get_signal(&self, pin: &Pin) -> (signal: Signal)
        requires
            pin.id < self@.len(),
        ensures
            signal == self@.pin_states[pin.id as int].signal(),
    {
        self.get_state(pin).sig()
    }

    /// Set an output pin to have the given signal.
    pub fn set_output(&mut self, pin: &mut Pin, signal: Signal)
        requires
            old(self).wf(),
            old(pin).id < old(self)@.len(),
            old(self)@.pin_states[old(pin).id as int] is Output,
        ensures
            final(self).wf(),
            final(self)@ == old(self)@.with_state(old(pin).id, PinState::Output(signal)),
            *final(pin) == *old(pin),
    {
        let ghost before = self@;
        self.pin_states[pin.id] = PinState::Output(signal);
        proof {
            let after = before.with_state(pin.id, PinState::Output(signal));
            assert(self@.pin_names =~= after.pin_names);
            assert(self@.nodes =~= after.nodes);
            assert(self@.parts =~= after.parts);
            before.lemma_with_state_wf(pin.id, PinState::Output(signal));
        }
    }

    /// Change the output pin to its logical inverse.
    pub fn flip_output(&mut self, pin: &mut Pin)
        requires
            old(self).wf(),
            old(pin).id < old(self)@.len(),
            old(self)@.pin_states[old(pin).id as int] is Output,
        ensures
            final(self).wf(),
            final(self)@ == old(self)@.with_state(
                old(pin).id,
                PinState::Output(old(self)@.pin_states[old(pin).id as int].signal().inverse()),
            ),
            *final(pin) == *old(pin),
    {
        let state = self.pin_states[pin.id];
        self.set_output(pin, state.not());
    }
}

impl GraphView {
    /// Merging the nodes of two pins that are not connected keeps the graph well formed.
    pub proof fn lemma_joined_wf(self, a: PinId, b: PinId)
        requires
            self.wf(),
            a < self.len(),
            b < self.len(),
            !self.connected(a, b),
        ensures
            self.joined(a, b).wf(),
    {
        reveal(GraphView::joined);
        let g = self.joined(a, b);
        let na = self.pin_nodes[a as int];
        let nb = self.pin_nodes[b as int];
        let xs = self.nodes[na].pins;
        let ys = self.nodes[nb].pins;
        let merged = merge(xs, ys);
        assert(self.nodes.contains_key(na) && self.nodes.contains_key(nb));
        assert(self.node_wf(na) && self.node_wf(nb));
        assert forall|i: int, j: int| 0 <= i < xs.len() && 0 <= j < ys.len() implies xs[i]
            != ys[j] by {
            assert(self.pin_nodes[xs[i] as int] == na);
            assert(self.pin_nodes[ys[j] as int] == nb);
        }
        lemma_merge_ascending(xs, ys);
        assert forall|p: int| 0 <= p < g.len() implies g.nodes.contains_key(
            #[trigger] g.pin_nodes[p],
        ) && g.nodes[g.pin_nodes[p]].pins.contains(p as usize) by {
            let n = self.pin_nodes[p];
            assert(self.nodes.contains_key(n));
            lemma_merge_contains(xs, ys, p as usize);
        }
        assert forall|n: usize| #[trigger] g.nodes.contains_key(n) implies g.node_wf(n) by {
            if n == na {
                assert forall|i: int| 0 <= i < merged.len() implies merged[i] < g.len()
                    && g.pin_nodes[#[trigger] merged[i] as int] == n by {
                    let v = merged[i];
                    assert(merged.contains(v));
                    lemma_merge_contains(xs, ys, v);
                    if xs.contains(v) {
                        let k = choose|k: int| 0 <= k < xs.len() && xs[k] == v;
                        assert(self.pin_nodes[xs[k] as int] == na);
                    } else {
                        let k = choose|k: int| 0 <= k < ys.len() && ys[k] == v;
                        assert(self.pin_nodes[ys[k] as int] == nb);
                    }
                }
                lemma_merge_contains(xs, ys, 0);
            } else {
                assert(self.node_wf(n));
                let pins = self.nodes[n].pins;
                assert forall|i: int| 0 <= i < pins.len() implies pins[i] < g.len()
                    && g.pin_nodes[#[trigger] pins[i] as int] == n by {
                    assert(self.pin_nodes[pins[i] as int] == n);
                }
            }
        }
        assert forall|k: int| 0 <= k < g.parts.len() implies #[trigger] g.part_wf(k) by {
            assert(self.part_wf(k));
        }
    }

    /// What a merge does to the partition of the pins: two pins are connected afterwards
    /// exactly if they were before, or if one was connected to `a` and the other to `b`.
    pub proof fn lemma_joined_partition(self, a: PinId, b: PinId, p: PinId, q: PinId)
        requires
            a < self.len(),
            b < self.len(),
            p < self.len(),
            q < self.len(),
        ensures
            self.joined(a, b).connected(p, q) <==> self.connected(p, q) || (self.connected(p, a)
                && self.connected(q, b)) || (self.connected(p, b) && self.connected(q, a)),
    {
        reveal(GraphView::joined);
    }

    /// Merging connects, and never parts: the two pins are connected afterwards, in
    /// either order, and so are all pins that were connected before. A second merge of
    /// the same two pins, or of pins connected through them, is what `connect` rules out.
    pub proof fn lemma_joined_connects(self, a: PinId, b: PinId, p: PinId, q: PinId)
        requires
            a < self.len(),
            b < self.len(),
            p < self.len(),
            q < self.len(),
        ensures
            self.joined(a, b).connected(a, b),
            self.joined(a, b).connected(b, a),
            self.connected(p, q) ==> self.joined(a, b).connected(p, q),
            self.connected(p, p),
            self.connected(p, q) ==> self.connected(q, p),
    {
        reveal(GraphView::joined);
    }

    /// Merging is commutative in the partition: which of the two pins is named first
    /// decides the surviving node, not which pins end up connected.
    pub proof fn lemma_joined_commutes(self, a: PinId, b: PinId, p: PinId, q: PinId)
        requires
            a < self.len(),
            b < self.len(),
            p < self.len(),
            q < self.len(),
        ensures
            self.joined(a, b).connected(p, q) == self.joined(b, a).connected(p, q),
    {
        reveal(GraphView::joined);
    }

    /// Merging is associative in the partition: two merges connect the same pins in
    /// either order.
    pub proof fn lemma_joined_any_order(
        self,
        a: PinId,
        b: PinId,
        c: PinId,
        d: PinId,
        p: PinId,
        q: PinId,
    )
        requires
            a < self.len(),
            b < self.len(),
            c < self.len(),
            d < self.len(),
            p < self.len(),
            q < self.len(),
        ensures
            self.joined(a, b).joined(c, d).connected(p, q) == self.joined(c, d).joined(
                a,
                b,
            ).connected(p, q),
    {
        reveal(GraphView::joined);
    }

    /// Adding the pins of a group one by one is adding the group.
    pub proof fn lemma_with_pins_step(self, name: Seq<char>, states: Seq<PinState>, i: int)
        requires
            self.wf(),
            0 <= i < states.len(),
            self.len() + i < usize::MAX,
        ensures
            self.with_pins(name, states.take(i)).with_pin(indexed(name, i as nat), states[i])
                == self.with_pins(name, states.take(i + 1)),
            self.with_pins(name, Seq::empty()) == self,
    {
        reveal(GraphView::with_pin);
        reveal(GraphView::with_pins);
        let g = self.with_pins(name, states.take(i));
        let a = g.with_pin(indexed(name, i as nat), states[i]);
        let b = self.with_pins(name, states.take(i + 1));
        assert(a.pin_states =~= b.pin_states);
        assert(a.pin_names =~= b.pin_names);
        assert(a.pin_nodes =~= b.pin_nodes);
        assert forall|n: usize| self.nodes.contains_key(n) implies n < self.len() by {
            assert(self.node_wf(n));
        }
        assert(a.nodes =~= b.nodes);
        let e = self.with_pins(name, Seq::empty());
        assert(e.pin_states =~= self.pin_states);
        assert(e.pin_names =~= self.pin_names);
        assert(e.pin_nodes =~= self.pin_nodes);
        assert(e.nodes =~= self.nodes);
    }

    /// Adding a part keeps the graph well formed, when its rule fits its pins.
    pub proof fn lemma_with_part_wf(self, name: Seq<char>, states: Seq<PinState>, rule: Rule)
        requires
            self.with_pins(name, states).wf(),
            self.wf(),
            rule.fits(states.len()),
        ensures
            self.with_part(name, states, rule).wf(),
    {
        reveal(GraphView::with_part);
        reveal(GraphView::with_pins);
        let g = self.with_part(name, states, rule);
        let h = self.with_pins(name, states);
        assert forall|n: usize| #[trigger] g.nodes.contains_key(n) implies g.node_wf(n) by {
            assert(h.node_wf(n));
        }
        assert forall|k: int| 0 <= k < g.parts.len() implies #[trigger] g.part_wf(k) by {
            if k < self.parts.len() {
                assert(self.part_wf(k));
            }
        }
        assert forall|k: int, l: int| 0 <= k < l < g.parts.len() implies (#[trigger] g.parts[k]).end
            <= (#[trigger] g.parts[l]).start by {
            assert(self.part_wf(k));
        }
    }

    /// Node resolution: a node with exactly one output among its pins, of signal `s`,
    /// holds `s` after the node phase, and so does every input among its pins, unless
    /// the node held `s` already and the input did not.
    pub proof fn lemma_node_resolution(self, n: usize, k: int)
        requires
            self.wf(),
            self.nodes.contains_key(n),
            0 <= k < self.nodes[n].pins.len(),
            self.pin_states[self.nodes[n].pins[k] as int] is Output,
            forall|i: int|
                0 <= i < self.nodes[n].pins.len() && i != k ==> !(self.pin_states[#[trigger] self.nodes[n].pins[i] as int] is Output),
        ensures
            self.after_nodes().nodes[n].signal == self.pin_states[self.nodes[n].pins[k] as int].signal(),
            forall|i: int|
                #![trigger self.nodes[n].pins[i]]
                0 <= i < self.nodes[n].pins.len() && self.pin_states[self.nodes[n].pins[i] as int] is Input && (
                self.nodes[n].signal != self.pin_states[self.nodes[n].pins[k] as int].signal()
                    || self.pin_states[self.nodes[n].pins[i] as int] == PinState::Input(
                    self.pin_states[self.nodes[n].pins[k] as int].signal(),
                )) ==> self.after_nodes().pin_states[self.nodes[n].pins[i] as int] == PinState::Input(
                    self.pin_states[self.nodes[n].pins[k] as int].signal(),
                ),
    {
        let pins = self.nodes[n].pins;
        lemma_single_driver(self.pin_states, pins, k);
        assert(self.node_wf(n));
        assert forall|i: int|
            #![trigger self.nodes[n].pins[i]]
            0 <= i < pins.len() && self.pin_states[pins[i] as int] is Input && (self.nodes[n].signal
                != self.pin_states[pins[k] as int].signal() || self.pin_states[pins[i] as int]
                == PinState::Input(self.pin_states[pins[k] as int].signal())) implies self.after_nodes().pin_states[pins[i] as int]
            == PinState::Input(self.pin_states[pins[k] as int].signal()) by {
            assert(self.pin_nodes[pins[i] as int] == n);
        }
    }

    /// Conflict: a node with two or more outputs among its pins holds `Error` after the
    /// node phase, whatever the outputs carry, and so does every input among its pins,
    /// unless the node held `Error` already and the input did not.
    pub proof fn lemma_node_conflict(self, n: usize, i: int, j: int)
        requires
            self.wf(),
            self.nodes.contains_key(n),
            0 <= i < j < self.nodes[n].pins.len(),
            self.pin_states[self.nodes[n].pins[i] as int] is Output,
            self.pin_states[self.nodes[n].pins[j] as int] is Output,
        ensures
            self.after_nodes().nodes[n].signal == Signal::Error,
            forall|k: int|
                #![trigger self.nodes[n].pins[k]]
                0 <= k < self.nodes[n].pins.len() && self.pin_states[self.nodes[n].pins[k] as int] is Input
                    && (self.nodes[n].signal != Signal::Error || self.pin_states[self.nodes[n].pins[k] as int]
                    == PinState::Input(Signal::Error)) ==> self.after_nodes().pin_states[self.nodes[n].pins[k] as int]
                    == PinState::Input(Signal::Error),
    {
        let pins = self.nodes[n].pins;
        lemma_conflict(self.pin_states, pins, i, j);
        assert(self.node_wf(n));
        assert forall|k: int|
            #![trigger self.nodes[n].pins[k]]
            0 <= k < pins.len() && self.pin_states[pins[k] as int] is Input && (self.nodes[n].signal
                != Signal::Error || self.pin_states[pins[k] as int] == PinState::Input(
                Signal::Error,
            )) implies self.after_nodes().pin_states[pins[k] as int] == PinState::Input(Signal::Error) by {
            assert(self.pin_nodes[pins[k] as int] == n);
        }
    }

    /// Whether the input `p` shows the signal that its node holds.
    pub open spec fn follows(self, p: int) -> bool {
        self.pin_states[p] == PinState::Input(self.nodes[self.pin_nodes[p]].signal)
    }

    /// After the node phase an input shows the signal of its node wherever the node
    /// changed, and wherever the input showed the signal of its node before. A new
    /// input shows the signal of its new node, which is `Off`.
    pub proof fn lemma_inputs_follow(self, p: int)
        requires
            self.wf(),
            0 <= p < self.len(),
            self.pin_states[p] is Input,
            self.changed(self.pin_nodes[p]) || self.follows(p),
        ensures
            self.after_nodes().follows(p),
    {
        assert(self.nodes.contains_key(self.pin_nodes[p]));
    }

    /// A new input shows the signal of its new node.
    pub proof fn lemma_new_input_follows(self, name: Seq<char>)
        requires
            self.wf(),
            self.len() < usize::MAX,
        ensures
            self.with_pin(name, PinState::Input(Signal::Off)).follows(self.len() as int),
    {
        reveal(GraphView::with_pin);
    }

    /// A node without an output among its pins holds `Off` after the node phase.
    pub proof fn lemma_node_undriven(self, n: usize)
        requires
            self.nodes.contains_key(n),
            forall|i: int|
                0 <= i < self.nodes[n].pins.len() ==> !(self.pin_states[#[trigger] self.nodes[n].pins[i] as int] is Output),
        ensures
            self.after_nodes().nodes[n].signal == Signal::Off,
    {
        lemma_no_driver(self.pin_states, self.nodes[n].pins);
    }

    /// After the node phase, an input on a node that changed shows the signal that the
    /// node now holds; outputs and disconnected pins are never touched.
    pub proof fn lemma_after_nodes_pins(self, p: int)
        requires
            self.wf(),
            0 <= p < self.len(),
        ensures
            !(self.pin_states[p] is Input) ==> self.after_nodes().pin_states[p] == self.pin_states[p],
            self.after_nodes().pin_states[p] is Input <==> self.pin_states[p] is Input,
            self.pin_states[p] is Input && self.changed(self.pin_nodes[p])
                ==> self.after_nodes().pin_states[p] == PinState::Input(
                self.after_nodes().nodes[self.pin_nodes[p]].signal,
            ),
    {
        assert(self.nodes.contains_key(self.pin_nodes[p]));
    }

    /// The node phase keeps the graph well formed.
    pub proof fn lemma_after_nodes_wf(self)
        requires
            self.wf(),
        ensures
            self.after_nodes().wf(),
    {
        let g = self.after_nodes();
        assert forall|p: int| 0 <= p < g.len() implies g.nodes.contains_key(
            #[trigger] g.pin_nodes[p],
        ) && g.nodes[g.pin_nodes[p]].pins.contains(p as usize) by {
            assert(self.nodes.contains_key(self.pin_nodes[p]));
        }
        assert forall|n: usize| #[trigger] g.nodes.contains_key(n) implies g.node_wf(n) by {
            assert(self.node_wf(n));
        }
        assert forall|k: int| 0 <= k < g.parts.len() implies #[trigger] g.part_wf(k) by {
            assert(self.part_wf(k));
        }
    }

    /// No more nodes change than there are node ids to look at.
    pub proof fn lemma_changed_below_bound(self, k: nat)
        ensures
            self.changed_below(k) <= k,
        decreases k,
    {
        if k > 0 {
            self.lemma_changed_below_bound((k - 1) as nat);
        }
    }

    /// Updating the first parts keeps the graph well formed, touches neither names nor
    /// nodes, and leaves the later parts as they were.
    pub proof fn lemma_parts_updated_wf(self, k: nat)
        requires
            self.wf(),
            k <= self.parts.len(),
        ensures
            self.parts_updated(k).wf(),
            self.parts_updated(k).len() == self.len(),
            self.parts_updated(k).pin_names == self.pin_names,
            self.parts_updated(k).nodes == self.nodes,
            self.parts_updated(k).pin_nodes == self.pin_nodes,
            self.parts_updated(k).parts.len() == self.parts.len(),
            forall|j: int|
                0 <= j < self.parts.len() ==> (#[trigger] self.parts_updated(k).parts[j]).start
                    == self.parts[j].start && self.parts_updated(k).parts[j].end == self.parts[j].end,
            forall|j: int|
                k <= j < self.parts.len() ==> #[trigger] self.parts_updated(k).parts[j] == self.parts[j],
        decreases k,
    {
        if k > 0 {
            let j = (k - 1) as nat;
            let g = self.parts_updated(j);
            self.lemma_parts_updated_wf(j);
            g.lemma_with_part_updated_wf(j as int);
        }
    }

    /// Updating one part keeps the graph well formed.
    pub proof fn lemma_with_part_updated_wf(self, k: int)
        requires
            self.wf(),
            0 <= k < self.parts.len(),
        ensures
            self.with_part_updated(k).wf(),
            self.with_part_updated(k).len() == self.len(),
    {
        let g = self.with_part_updated(k);
        let part = self.parts[k];
        assert(self.part_wf(k));
        part.rule.lemma_next_fits(self.part_pins(k));
        assert(g.len() == self.len());
        assert forall|p: int| 0 <= p < g.len() implies g.nodes.contains_key(
            #[trigger] g.pin_nodes[p],
        ) && g.nodes[g.pin_nodes[p]].pins.contains(p as usize) by {
            assert(self.nodes.contains_key(self.pin_nodes[p]));
        }
        assert forall|n: usize| #[trigger] g.nodes.contains_key(n) implies g.node_wf(n) by {
            assert(self.node_wf(n));
        }
        assert forall|j: int| 0 <= j < g.parts.len() implies #[trigger] g.part_wf(j) by {
            assert(self.part_wf(j));
        }
        assert forall|i: int, j: int| 0 <= i < j < g.parts.len() implies (#[trigger] g.parts[i]).end <= (
        #[trigger] g.parts[j]).start by {
            assert(self.parts[i].end <= self.parts[j].start);
        }
    }

    /// What merging a group of pins does to the nodes: a pin whose node was the node of
    /// one of the pins after the first now belongs to the node of the first; every other
    /// pin keeps its node. States, names and parts stay.
    pub proof fn lemma_joined_all(self, ids: Seq<PinId>)
        requires
            self.wf(),
            ids.len() >= 1,
            self.all_apart(ids),
        ensures
            self.joined_all(ids).wf(),
            self.joined_all(ids).pin_states == self.pin_states,
            self.joined_all(ids).pin_names == self.pin_names,
            self.joined_all(ids).parts == self.parts,
            self.joined_all(ids).pin_nodes.len() == self.len(),
            forall|p: int|
                0 <= p < self.len() ==> #[trigger] self.joined_all(ids).pin_nodes[p] == if self.among(
                    ids,
                    1,
                    ids.len() as int,
                    p,
                ) {
                    self.pin_nodes[ids[0] as int]
                } else {
                    self.pin_nodes[p]
                },
        decreases ids.len(),
    {
        reveal(GraphView::joined);
        if ids.len() > 1 {
            let rest = ids.drop_last();
            let i = ids.len() - 1;
            assert(self.all_apart(rest)) by {
                assert forall|x: int| 0 <= x < rest.len() implies rest[x] < self.len() by {
                    assert(rest[x] == ids[x]);
                }
                assert forall|x: int, y: int| 0 <= x < y < rest.len() implies !self.connected(
                    rest[x],
                    rest[y],
                ) by {
                    assert(rest[x] == ids[x] && rest[y] == ids[y]);
                }
            }
            self.lemma_joined_all(rest);
            let g = self.joined_all(rest);
            let n0 = self.pin_nodes[ids[0] as int];
            let nb = self.pin_nodes[ids[i] as int];
            assert(rest[0] == ids[0]);
            assert(!self.among(rest, 1, rest.len() as int, ids[0] as int)) by {
                if self.among(rest, 1, rest.len() as int, ids[0] as int) {
                    let m = choose|m: int|
                        1 <= m < rest.len() && self.pin_nodes[ids[0] as int] == self.pin_nodes[#[trigger] rest[m] as int];
                    assert(rest[m] == ids[m]);
                    assert(!self.connected(ids[0], ids[m]));
                }
            }
            assert(!self.among(rest, 1, rest.len() as int, ids[i] as int)) by {
                if self.among(rest, 1, rest.len() as int, ids[i] as int) {
                    let m = choose|m: int|
                        1 <= m < rest.len() && self.pin_nodes[ids[i] as int] == self.pin_nodes[#[trigger] rest[m] as int];
                    assert(rest[m] == ids[m]);
                    assert(!self.connected(ids[m], ids[i]));
                }
            }
            assert(!self.connected(ids[0], ids[i]));
            assert(g.pin_nodes[ids[0] as int] == n0);
            assert(g.pin_nodes[ids[i] as int] == nb);
            g.lemma_joined_wf(ids[0], ids[i]);
            let h = g.joined(ids[0], ids[i]);
            assert forall|p: int| 0 <= p < self.len() implies #[trigger] h.pin_nodes[p] == if self.among(
                ids,
                1,
                ids.len() as int,
                p,
            ) {
                n0
            } else {
                self.pin_nodes[p]
            } by {
                let was = self.among(rest, 1, rest.len() as int, p);
                let is = self.among(ids, 1, ids.len() as int, p);
                if was {
                    let m = choose|m: int|
                        1 <= m < rest.len() && self.pin_nodes[p] == self.pin_nodes[#[trigger] rest[m] as int];
                    assert(rest[m] == ids[m]);
                    assert(self.pin_nodes[p] == self.pin_nodes[ids[m] as int]);
                    assert(is);
                }
                if self.pin_nodes[p] == nb {
                    assert(self.pin_nodes[p] == self.pin_nodes[ids[i] as int]);
                    assert(is);
                }
                if is && !was {
                    let m = choose|m: int|
                        1 <= m < ids.len() && self.pin_nodes[p] == self.pin_nodes[#[trigger] ids[m] as int];
                    if m < i {
                        assert(rest[m] == ids[m]);
                        assert(self.pin_nodes[p] == self.pin_nodes[rest[m] as int]);
                    }
                    assert(self.pin_nodes[p] == nb);
                }
                assert(g.pin_nodes[p] == if was {
                    n0
                } else {
                    self.pin_nodes[p]
                });
            }
        } else {
            assert forall|p: int| 0 <= p < self.len() implies !self.among(ids, 1, ids.len() as int, p) by {}
        }
    }

    /// Pairs that can be connected one after the other can be connected up to any point.
    pub proof fn lemma_can_join_prefix(self, pairs: Seq<(PinId, PinId)>, i: int)
        requires
            self.can_join_pairs(pairs),
            0 <= i <= pairs.len(),
        ensures
            self.can_join_pairs(pairs.take(i)),
        decreases pairs.len(),
    {
        if i < pairs.len() {
            self.lemma_can_join_prefix(pairs.drop_last(), i);
            assert(pairs.drop_last().take(i) =~= pairs.take(i));
        } else {
            assert(pairs.take(i) =~= pairs);
        }
    }

    /// While the first `j` parts update, a pin that none of them owns keeps its state.
    pub proof fn lemma_parts_untouched(self, j: nat, p: int)
        requires
            self.wf(),
            j <= self.parts.len(),
            0 <= p < self.len(),
            forall|k: int| 0 <= k < j ==> !#[trigger] self.owns(k, p),
        ensures
            self.parts_updated(j).pin_states[p] == self.pin_states[p],
        decreases j,
    {
        if j > 0 {
            let k = (j - 1) as int;
            let g = self.parts_updated((j - 1) as nat);
            self.lemma_parts_updated_wf((j - 1) as nat);
            self.lemma_parts_untouched((j - 1) as nat, p);
            assert(!self.owns(k, p));
            assert(g.part_wf(k));
            g.parts[k].rule.lemma_next_fits(g.part_pins(k));
        }
    }

    /// Parts do not see each other within a tick: after the first `j` parts have
    /// updated, the pins of each of them are what its rule makes of the pins that the
    /// part had before the tick, and its rule has moved on likewise.
    pub proof fn lemma_part_result(self, j: nat, k: int)
        requires
            self.wf(),
            0 <= k < j <= self.parts.len(),
        ensures
            self.parts_updated(j).part_pins(k) == self.parts[k].rule.next_pins(self.part_pins(k)),
            self.parts_updated(j).parts[k].rule == self.parts[k].rule.next_rule(self.part_pins(k)),
        decreases j,
    {
        let last = (j - 1) as int;
        let g = self.parts_updated((j - 1) as nat);
        let h = self.parts_updated(j);
        self.lemma_parts_updated_wf((j - 1) as nat);
        self.lemma_parts_updated_wf(j);
        assert(self.part_wf(k));
        assert(self.part_wf(last));
        assert(g.part_wf(last));
        g.parts[last].rule.lemma_next_fits(g.part_pins(last));
        let start = self.parts[k].start as int;
        let end = self.parts[k].end as int;
        if k == last {
            assert(g.part_pins(k) =~= self.part_pins(k)) by {
                assert forall|i: int| 0 <= i < end - start implies g.part_pins(k)[i]
                    == self.part_pins(k)[i] by {
                    assert forall|m: int| 0 <= m < j - 1 implies !#[trigger] self.owns(m, start + i) by {
                        assert(self.parts[m].end <= self.parts[k].start);
                    }
                    self.lemma_parts_untouched((j - 1) as nat, start + i);
                }
            }
            assert(h.part_pins(k) =~= self.parts[k].rule.next_pins(self.part_pins(k)));
        } else {
            self.lemma_part_result((j - 1) as nat, k);
            assert(self.parts[k].end <= self.parts[last].start);
            assert(h.part_pins(k) =~= g.part_pins(k));
        }
    }

    /// What the part phase does to a pin: a pin that no part owns keeps its state, and a
    /// pin of a part takes the state that the rule of the part gives it, from the pins
    /// of the part as they were before the tick.
    pub proof fn lemma_after_parts_pin(self, p: int)
        requires
            self.wf(),
            0 <= p < self.len(),
        ensures
            self.free(p) ==> self.after_parts().pin_states[p] == self.pin_states[p],
            forall|k: int|
                #![trigger self.owns(k, p)]
                self.owns(k, p) ==> self.after_parts().pin_states[p] == self.parts[k].rule.next_pins(
                    self.part_pins(k),
                )[p - self.parts[k].start],
    {
        if self.free(p) {
            self.lemma_parts_untouched(self.parts.len(), p);
        }
        assert forall|k: int| #![trigger self.owns(k, p)] self.owns(k, p) implies self.after_parts().pin_states[p]
            == self.parts[k].rule.next_pins(self.part_pins(k))[p - self.parts[k].start] by {
            self.lemma_part_result(self.parts.len(), k);
            self.lemma_parts_updated_wf(self.parts.len());
            assert(self.part_wf(k));
            assert(self.after_parts().part_pins(k)[p - self.parts[k].start] == self.after_parts().pin_states[p]);
        }
    }

    /// A tick leaves alone every output that no part owns, and does not change which
    /// pins the parts own.
    pub proof fn lemma_tick_source(self, p: int)
        requires
            self.wf(),
            0 <= p < self.len(),
            self.free(p),
            self.pin_states[p] is Output,
        ensures
            self.after_tick().pin_states[p] == self.pin_states[p],
            self.after_tick().free(p),
    {
        self.lemma_after_parts_pin(p);
        self.lemma_parts_updated_wf(self.parts.len());
        let a = self.after_parts();
        a.lemma_after_nodes_pins(p);
        assert forall|k: int| !#[trigger] self.after_tick().owns(k, p) by {
            assert(!self.owns(k, p));
        }
    }

    /// A run leaves alone every output that no part owns.
    pub proof fn lemma_run_source(self, stats: RunStats, seen: Map<u64, usize>, p: int)
        requires
            self.wf(),
            0 <= p < self.len(),
            self.free(p),
            self.pin_states[p] is Output,
        ensures
            self.run_from(stats, seen).0.pin_states[p] == self.pin_states[p],
            self.run_from(stats, seen).0.free(p),
        decreases RUN_LIMIT - stats.ticks,
    {
        self.lemma_tick_source(p);
        self.lemma_after_tick_wf();
        let next = self.after_tick();
        let n = self.tick_updates();
        if n == 0 || stats.ticks >= RUN_LIMIT || stats.updates + n > RUN_LIMIT {
        } else {
            let ticks = (stats.ticks + 1) as usize;
            let updates = (stats.updates + n) as usize;
            let hash = next.fingerprint();
            if !seen.contains_key(hash) {
                next.lemma_run_source(
                    RunStats { ticks, updates, cycle: stats.cycle },
                    seen.insert(hash, ticks),
                    p,
                );
            }
        }
    }

    /// An output that no part owns can be flashed and pulsed.
    pub proof fn lemma_source_can_pulse(self, pin: PinId)
        requires
            self.wf(),
            pin < self.len(),
            self.free(pin as int),
            self.pin_states[pin as int] is Output,
        ensures
            self.can_flash(pin),
            self.can_pulse(pin),
    {
        let flipped = self.flipped(pin);
        self.lemma_with_state_wf(
            pin,
            PinState::Output(self.pin_states[pin as int].signal().inverse()),
        );
        assert forall|k: int| !#[trigger] flipped.owns(k, pin as int) by {
            assert(!self.owns(k, pin as int));
        }
        flipped.lemma_tick_source(pin as int);
        flipped.lemma_run_source(RunStats { ticks: 1, updates: 0, cycle: 0 }, Map::empty(), pin as int);
    }

    /// One tick keeps the graph well formed, and its pins in number.
    pub proof fn lemma_after_tick_wf(self)
        requires
            self.wf(),
        ensures
            self.after_tick().wf(),
            self.after_tick().len() == self.len(),
            self.tick_updates() <= self.len(),
    {
        self.lemma_parts_updated_wf(self.parts.len());
        self.after_parts().lemma_after_nodes_wf();
        self.after_parts().lemma_changed_below_bound(self.len());
    }

    /// A run keeps the graph well formed and its pins in number, and its counts stay
    /// within the limit.
    pub proof fn lemma_run_from_wf(self, stats: RunStats, seen: Map<u64, usize>)
        requires
            self.wf(),
            stats.ticks <= RUN_LIMIT,
            stats.updates <= RUN_LIMIT,
            stats.cycle == 0,
        ensures
            self.run_from(stats, seen).0.wf(),
            self.run_from(stats, seen).0.len() == self.len(),
            self.run_from(stats, seen).1.ticks <= RUN_LIMIT,
            self.run_from(stats, seen).1.updates <= RUN_LIMIT,
            self.run_from(stats, seen).1.ticks >= stats.ticks,
            self.run_from(stats, seen).1.cycle < self.run_from(stats, seen).1.ticks || self.run_from(
                stats,
                seen,
            ).1.cycle == 0 || !(forall|h: u64| seen.contains_key(h) ==> #[trigger] seen[h] <= stats.ticks),
        decreases RUN_LIMIT - stats.ticks,
    {
        self.lemma_after_tick_wf();
        let next = self.after_tick();
        let n = self.tick_updates();
        if n == 0 || stats.ticks >= RUN_LIMIT || stats.updates + n > RUN_LIMIT {
        } else {
            let ticks = (stats.ticks + 1) as usize;
            let updates = (stats.updates + n) as usize;
            let hash = next.fingerprint();
            if seen.contains_key(hash) {
            } else {
                let seen2 = seen.insert(hash, ticks);
                let stats2 = RunStats { ticks, updates, cycle: stats.cycle };
                next.lemma_run_from_wf(stats2, seen2);
                if forall|h: u64| seen.contains_key(h) ==> #[trigger] seen[h] <= stats.ticks {
                    assert forall|h: u64| seen2.contains_key(h) implies #[trigger] seen2[h] <= stats2.ticks by {
                        if h != hash {
                            assert(seen.contains_key(h));
                        }
                    }
                }
            }
        }
    }

    /// Whether this graph is `earlier` with more pins, parts and connections: every pin
    /// of `earlier` has kept its state, its name and its node.
    #[verifier::opaque]
    pub open spec fn extends(self, earlier: GraphView) -> bool {
        &&& earlier.len() <= self.len()
        &&& forall|p: int|
            0 <= p < earlier.len() ==> #[trigger] self.pin_nodes[p] == earlier.pin_nodes[p]
        &&& forall|p: int|
            0 <= p < earlier.len() ==> #[trigger] self.pin_states[p] == earlier.pin_states[p]
        &&& forall|p: int|
            0 <= p < earlier.len() ==> #[trigger] self.pin_names[p] == earlier.pin_names[p]
    }

    /// Whether the pin is the one that its node is named after, as every pin is until
    /// its node is merged into another.
    #[verifier::opaque]
    pub open spec fn heads(self, pin: PinId) -> bool {
        pin < self.len() && self.pin_nodes[pin as int] == pin
    }

    /// Every graph extends itself.
    pub proof fn lemma_extends_self(self)
        ensures
            self.extends(self),
    {
        reveal(GraphView::extends);
    }

    /// Extending an extension extends what was extended.
    pub proof fn lemma_extends_twice(self, middle: GraphView, earlier: GraphView)
        requires
            self.extends(middle),
            middle.extends(earlier),
        ensures
            self.extends(earlier),
    {
        reveal(GraphView::extends);
        assert forall|p: int| 0 <= p < earlier.len() implies #[trigger] self.pin_nodes[p]
            == earlier.pin_nodes[p] by {
            assert(middle.pin_nodes[p] == earlier.pin_nodes[p]);
        }
        assert forall|p: int| 0 <= p < earlier.len() implies #[trigger] self.pin_states[p]
            == earlier.pin_states[p] by {
            assert(middle.pin_states[p] == earlier.pin_states[p]);
        }
        assert forall|p: int| 0 <= p < earlier.len() implies #[trigger] self.pin_names[p]
            == earlier.pin_names[p] by {
            assert(middle.pin_names[p] == earlier.pin_names[p]);
        }
    }

    /// What an extension keeps of a pin of the earlier graph.
    pub proof fn lemma_extends_pin(self, earlier: GraphView, pin: PinId)
        requires
            self.extends(earlier),
            pin < earlier.len(),
        ensures
            pin < self.len(),
            self.pin_nodes[pin as int] == earlier.pin_nodes[pin as int],
            self.pin_states[pin as int] == earlier.pin_states[pin as int],
            self.pin_names[pin as int] == earlier.pin_names[pin as int],
            earlier.heads(pin) ==> self.heads(pin),
    {
        reveal(GraphView::heads);
        reveal(GraphView::extends);
    }

    /// In a well-formed graph the node of every pin has an id below the number of pins.
    pub proof fn lemma_node_bound(self, pin: PinId)
        requires
            self.wf(),
            pin < self.len(),
        ensures
            self.pin_nodes[pin as int] < self.len(),
    {
        assert(self.nodes.contains_key(self.pin_nodes[pin as int]));
        assert(self.node_wf(self.pin_nodes[pin as int]));
    }

    /// A new group of pins leaves the earlier pins alone, and each new pin heads a node.
    pub proof fn lemma_with_pins(self, name: Seq<char>, states: Seq<PinState>)
        requires
            self.wf(),
            self.len() + states.len() <= usize::MAX,
        ensures
            self.with_pins(name, states).extends(self),
            self.with_pins(name, states).len() == self.len() + states.len(),
            forall|i: int|
                0 <= i < states.len() ==> #[trigger] self.with_pins(name, states).heads(
                    (self.len() + i) as usize,
                ),
            forall|i: int|
                0 <= i < states.len() ==> #[trigger] self.with_pins(name, states).pin_states[
                    self.len() + i
                ] == states[i],
    {
        reveal(GraphView::heads);
        reveal(GraphView::with_pins);
        reveal(GraphView::extends);
    }

    /// A new part leaves the earlier pins alone, and each of its pins heads a node.
    pub proof fn lemma_with_part(self, name: Seq<char>, states: Seq<PinState>, rule: Rule)
        requires
            self.wf(),
            self.len() + states.len() <= usize::MAX,
        ensures
            self.with_part(name, states, rule).extends(self),
            self.with_part(name, states, rule).len() == self.len() + states.len(),
            forall|i: int|
                0 <= i < states.len() ==> #[trigger] self.with_part(name, states, rule).heads(
                    (self.len() + i) as usize,
                ),
            forall|i: int|
                0 <= i < states.len() ==> #[trigger] self.with_part(name, states, rule).pin_states[
                    self.len() + i
                ] == states[i],
    {
        reveal(GraphView::heads);
        reveal(GraphView::with_part);
        reveal(GraphView::with_pins);
        reveal(GraphView::extends);
    }

    /// A new pin leaves the earlier pins alone and heads a node.
    pub proof fn lemma_with_pin(self, name: Seq<char>, state: PinState)
        requires
            self.wf(),
            self.len() < usize::MAX,
        ensures
            self.with_pin(name, state).extends(self),
            self.with_pin(name, state).len() == self.len() + 1,
            self.with_pin(name, state).heads(self.len() as usize),
            self.with_pin(name, state).pin_states[self.len() as int] == state,
    {
        reveal(GraphView::heads);
        reveal(GraphView::with_pin);
        reveal(GraphView::extends);
    }

    /// Merging the node of `b` into the node of `a` moves the pins of the node of `b`
    /// and no others.
    pub proof fn lemma_joined(self, a: PinId, b: PinId)
        requires
            a < self.len(),
            b < self.len(),
        ensures
            self.joined(a, b).len() == self.len(),
            self.joined(a, b).pin_states == self.pin_states,
            self.joined(a, b).pin_names == self.pin_names,
            self.joined(a, b).parts == self.parts,
            forall|p: int|
                0 <= p < self.len() ==> #[trigger] self.joined(a, b).pin_nodes[p] == if self.pin_nodes[p]
                    == self.pin_nodes[b as int] {
                    self.pin_nodes[a as int]
                } else {
                    self.pin_nodes[p]
                },
    {
        reveal(GraphView::joined);
    }

    /// Merging a node that a later pin heads into another node leaves the pins of an
    /// earlier graph alone.
    pub proof fn lemma_joined_extends(self, earlier: GraphView, a: PinId, b: PinId)
        requires
            earlier.wf(),
            self.extends(earlier),
            a < self.len(),
            self.heads(b),
            earlier.len() <= b,
        ensures
            self.joined(a, b).extends(earlier),
            self.joined(a, b).len() == self.len(),
    {
        reveal(GraphView::heads);
        reveal(GraphView::joined);
        reveal(GraphView::extends);
        let g = self.joined(a, b);
        assert forall|p: int| 0 <= p < earlier.len() implies #[trigger] g.pin_nodes[p]
            == earlier.pin_nodes[p] by {
            earlier.lemma_node_bound(p as usize);
            assert(self.pin_nodes[p] == earlier.pin_nodes[p]);
        }
        assert forall|p: int| 0 <= p < earlier.len() implies #[trigger] g.pin_states[p]
            == earlier.pin_states[p] by {
            assert(self.pin_states[p] == earlier.pin_states[p]);
        }
        assert forall|p: int| 0 <= p < earlier.len() implies #[trigger] g.pin_names[p]
            == earlier.pin_names[p] by {
            assert(self.pin_names[p] == earlier.pin_names[p]);
        }
    }

    /// Merging a node that one pin heads into another node leaves every other head a
    /// head, and makes the node of `a` the node of `b`.
    pub proof fn lemma_joined_heads(self, a: PinId, b: PinId, pin: PinId)
        requires
            a < self.len(),
            self.heads(b),
            self.heads(pin),
            pin != b,
        ensures
            self.joined(a, b).heads(pin),
    {
        reveal(GraphView::heads);
        reveal(GraphView::joined);
    }

    /// A pin of an earlier graph is not connected to a later pin that heads a node.
    pub proof fn lemma_old_apart(self, earlier: GraphView, a: PinId, b: PinId)
        requires
            earlier.wf(),
            self.extends(earlier),
            a < earlier.len(),
            self.heads(b),
            earlier.len() <= b,
        ensures
            !self.connected(a, b),
            a < self.len(),
            b < self.len(),
    {
        reveal(GraphView::heads);
        reveal(GraphView::extends);
        earlier.lemma_node_bound(a);
    }

    /// The rules by which a circuit is wired up from parts, for every graph that comes
    /// after the graph `entry`:
    /// extending is transitive; an extension keeps the heads of nodes; merging the node
    /// of a head `b` into another node keeps every other head, and keeps an extension of
    /// `entry` one when `b` is not a pin of `entry`; and two heads are never connected.
    pub proof fn lemma_wiring(entry: GraphView)
        requires
            entry.wf(),
        ensures
            forall|g: GraphView, m: GraphView| #![trigger g.extends(m)]
                g.extends(m) && m.extends(entry) ==> g.extends(entry),
            forall|g: GraphView, e: GraphView, p: PinId| #![trigger g.extends(e), g.heads(p)]
                g.extends(e) && e.heads(p) ==> g.heads(p),
            forall|g: GraphView, a: PinId, b: PinId, p: PinId| #![trigger g.joined(a, b).heads(p)]
                a < g.len() && g.heads(b) && g.heads(p) && p != b ==> g.joined(a, b).heads(p),
            forall|g: GraphView, a: PinId, b: PinId| #![trigger g.joined(a, b)]
                g.extends(entry) && a < g.len() && g.heads(b) && entry.len() <= b ==> g.joined(
                    a,
                    b,
                ).extends(entry),
            forall|g: GraphView, a: PinId, b: PinId| #![trigger g.connected(a, b)]
                g.heads(a) && g.heads(b) && a != b ==> !g.connected(a, b),
            forall|g: GraphView, a: PinId, b: PinId| #![trigger g.connected(a, b)]
                g.extends(entry) && a < entry.len() && g.heads(b) && entry.len() <= b
                    ==> !g.connected(a, b),
            forall|g: GraphView, p: PinId| #![trigger g.heads(p)] g.heads(p) ==> p < g.len(),
            forall|g: GraphView| #![trigger g.extends(entry)] g.extends(entry) ==> entry.len() <= g.len(),
            entry.extends(entry),
    {
        assert forall|g: GraphView, a: PinId, b: PinId| #![trigger g.connected(a, b)]
            g.extends(entry) && a < entry.len() && g.heads(b) && entry.len() <= b implies !g.connected(
            a,
            b,
        ) by {
            g.lemma_old_apart(entry, a, b);
        }
        assert forall|g: GraphView| #![trigger g.extends(entry)] g.extends(entry) implies entry.len()
            <= g.len() by {
            reveal(GraphView::extends);
        }
        reveal(GraphView::heads);
        entry.lemma_extends_self();
        assert forall|g: GraphView, m: GraphView| #![trigger g.extends(m)]
            g.extends(m) && m.extends(entry) implies g.extends(entry) by {
            g.lemma_extends_twice(m, entry);
        }
        assert forall|g: GraphView, e: GraphView, p: PinId| #![trigger g.extends(e), g.heads(p)]
            g.extends(e) && e.heads(p) implies g.heads(p) by {
            g.lemma_extends_pin(e, p);
        }
        assert forall|g: GraphView, a: PinId, b: PinId, p: PinId| #![trigger g.joined(a, b).heads(p)]
            a < g.len() && g.heads(b) && g.heads(p) && p != b implies g.joined(a, b).heads(p) by {
            g.lemma_joined_heads(a, b, p);
        }
        assert forall|g: GraphView, a: PinId, b: PinId| #![trigger g.joined(a, b)]
            g.extends(entry) && a < g.len() && g.heads(b) && entry.len() <= b implies g.joined(
            a,
            b,
        ).extends(entry) by {
            g.lemma_joined_extends(entry, a, b);
        }
    }

    /// Replacing the state of a pin keeps the graph well formed.
    pub proof fn lemma_with_state_wf(self, pin: PinId, state: PinState)
        requires
            self.wf(),
            pin < self.len(),
        ensures
            self.with_state(pin, state).wf(),
    {
        let g = self.with_state(pin, state);
        assert forall|n: usize| #[trigger] g.nodes.contains_key(n) implies g.node_wf(n) by {
            assert(self.node_wf(n));
        }
        assert forall|k: int| 0 <= k < g.parts.len() implies #[trigger] g.part_wf(k) by {
            assert(self.part_wf(k));
        }
    }
}

} // verus!
