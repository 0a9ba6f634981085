//! Convergence and oscillation of runs.
//!
//! A gate writes one pin, its output, from the signals on its other pins. Where the
//! nodes of a circuit of gates can be layered, so that the output of every gate lies in
//! a higher layer than each of its inputs, the signals settle layer by layer: a circuit
//! with layers `0..=d` is at rest after `d + 1` ticks. A circuit that comes back to a
//! graph it has been in before never rests, and a run of it ends with the length of the
//! cycle.
use crate::gate::nary_inputs;
use crate::graph::{drivers, lemma_drivers_agree, resolve, GraphView, PinId, RunStats, RUN_LIMIT};
use crate::part::Rule;
use crate::signal::{PinState, ToSignal};
use vstd::prelude::*;

verus! {

impl Rule {
    /// Whether the rule is that of a gate: a part that writes one pin, its output, from
    /// the signals on its other pins, and keeps nothing from one tick to the next.
    pub open spec fn is_gate(self) -> bool {
        match self {
            Rule::Not | Rule::Buffer => true,
            Rule::And | Rule::Nand | Rule::Or | Rule::Nor | Rule::Xor => true,
            Rule::AndNary | Rule::OrNary | Rule::NandNary | Rule::NorNary => true,
            _ => false,
        }
    }

    /// The place of the output among the pins of a gate.
    pub open spec fn output_at(self) -> int {
        match self {
            Rule::Not | Rule::Buffer => 1,
            Rule::And | Rule::Nand | Rule::Or | Rule::Nor | Rule::Xor => 2,
            _ => 0,
        }
    }

    /// A gate writes its output and nothing else, the output is driven, and it depends
    /// on nothing but the signals on the other pins.
    pub proof fn lemma_gate(self, a: Seq<PinState>, b: Seq<PinState>)
        requires
            self.is_gate(),
            self.fits(a.len()),
            a.len() == b.len(),
            forall|i: int|
                0 <= i < a.len() && i != self.output_at() ==> (#[trigger] a[i]).signal() == b[i].signal(),
        ensures
            0 <= self.output_at() < a.len(),
            self.next_pins(a).len() == a.len(),
            self.next_pins(a)[self.output_at()] == self.next_pins(b)[self.output_at()],
            self.next_pins(a)[self.output_at()] is Output,
            forall|i: int|
                0 <= i < a.len() && i != self.output_at() ==> #[trigger] self.next_pins(a)[i] == a[i],
            self.next_rule(a) == self,
    {
        match self {
            Rule::Not | Rule::Buffer => {
                assert(a[0].signal() == b[0].signal());
            },
            Rule::And | Rule::Nand | Rule::Or | Rule::Nor | Rule::Xor => {
                assert(a[0].signal() == b[0].signal());
                assert(a[1].signal() == b[1].signal());
            },
            _ => {
                assert(nary_inputs(a) =~= nary_inputs(b)) by {
                    assert forall|i: int| 0 <= i < a.len() - 1 implies nary_inputs(a)[i] == nary_inputs(
                        b,
                    )[i] by {
                        assert(a[i + 1].signal() == b[i + 1].signal());
                    }
                }
            },
        }
    }
}

/// A node resolves to the same signal from two sets of states that agree on the outputs
/// among its pins.
pub proof fn lemma_resolve_agree(a: Seq<PinState>, b: Seq<PinState>, pins: Seq<PinId>)
    requires
        forall|i: int|
            0 <= i < pins.len() ==> ((#[trigger] a[pins[i] as int]) is Output <==> b[pins[i] as int] is Output),
        forall|i: int|
            0 <= i < pins.len() && (#[trigger] a[pins[i] as int]) is Output ==> a[pins[i] as int]
                == b[pins[i] as int],
    ensures
        resolve(a, pins) == resolve(b, pins),
{
    lemma_drivers_agree(a, b, pins);
    crate::graph::lemma_drivers_members(a, pins);
    let d = drivers(a, pins);
    if d.len() == 1 {
        assert(pins.contains(d[0]));
        let i = choose|i: int| 0 <= i < pins.len() && pins[i] == d[0];
        assert(a[pins[i] as int] is Output);
    }
}

impl GraphView {
    /// Whether every part of the graph is a gate.
    pub open spec fn gates_only(self) -> bool {
        forall|k: int| 0 <= k < self.parts.len() ==> (#[trigger] self.parts[k]).rule.is_gate()
    }

    /// The output pin of part `k`, where that part is a gate.
    pub open spec fn output_of(self, k: int) -> int {
        self.parts[k].start + self.parts[k].rule.output_at()
    }

    /// Whether `layer` puts the node of the output of every gate above the nodes of all
    /// the other pins of that gate. A circuit that can be layered has no loop.
    pub open spec fn layered(self, layer: spec_fn(usize) -> nat) -> bool {
        forall|k: int, p: int|
            #![trigger self.owns(k, p)]
            self.owns(k, p) && p != self.output_of(k) ==> layer(self.pin_nodes[p]) < layer(
                self.pin_nodes[self.output_of(k)],
            )
    }

    /// Whether the node holds the signal that it resolves to.
    pub open spec fn node_calm(self, n: usize) -> bool {
        self.nodes[n].signal == self.resolved(n)
    }

    /// Whether the output of gate `k` is what its rule makes of its other pins.
    pub open spec fn part_calm(self, k: int) -> bool {
        self.pin_states[self.output_of(k)] == self.parts[k].rule.next_pins(self.part_pins(k))[self.parts[k].rule.output_at()]
    }

    /// Whether everything in the layers below `t` is at rest: every node there holds the
    /// signal that it resolves to, and every gate whose output lies there shows what it
    /// makes of its inputs.
    pub open spec fn calm_below(self, layer: spec_fn(usize) -> nat, t: nat) -> bool {
        &&& forall|n: usize|
            #![trigger self.nodes.contains_key(n)]
            self.nodes.contains_key(n) && layer(n) < t ==> self.node_calm(n)
        &&& forall|k: int|
            #![trigger self.parts[k]]
            0 <= k < self.parts.len() && layer(self.pin_nodes[self.output_of(k)]) < t ==> self.part_calm(k)
    }

    /// What the part phase does in a graph of gates: each gate writes its output from
    /// its pins as they were, and nothing else changes.
    pub proof fn lemma_gates_after_parts(self)
        requires
            self.wf(),
            self.gates_only(),
        ensures
            self.after_parts().wf(),
            self.after_parts().len() == self.len(),
            self.after_parts().nodes == self.nodes,
            self.after_parts().pin_nodes == self.pin_nodes,
            self.after_parts().pin_names == self.pin_names,
            self.after_parts().parts == self.parts,
            forall|p: int|
                #![trigger self.after_parts().pin_states[p]]
                0 <= p < self.len() && self.free(p) ==> self.after_parts().pin_states[p] == self.pin_states[p],
            forall|k: int, p: int|
                #![trigger self.owns(k, p)]
                self.owns(k, p) ==> self.after_parts().pin_states[p] == if p == self.output_of(k) {
                    self.parts[k].rule.next_pins(self.part_pins(k))[self.parts[k].rule.output_at()]
                } else {
                    self.pin_states[p]
                },
            forall|k: int|
                #![trigger self.parts[k]]
                0 <= k < self.parts.len() ==> self.parts[k].start <= self.output_of(k) < self.parts[k].end
                    && self.after_parts().pin_states[self.output_of(k)] is Output,
    {
        let a = self.after_parts();
        let total = self.parts.len();
        self.lemma_parts_updated_wf(total);
        assert(a.parts =~= self.parts) by {
            assert forall|k: int| 0 <= k < total implies a.parts[k] == self.parts[k] by {
                self.lemma_part_result(total, k);
                assert(self.part_wf(k));
                let pins = self.part_pins(k);
                self.parts[k].rule.lemma_gate(pins, pins);
            }
        }
        assert forall|p: int|
            #![trigger self.after_parts().pin_states[p]]
            0 <= p < self.len() && self.free(p) implies a.pin_states[p] == self.pin_states[p] by {
            self.lemma_after_parts_pin(p);
        }
        assert forall|k: int, p: int| #![trigger self.owns(k, p)] self.owns(k, p) implies a.pin_states[p]
            == if p == self.output_of(k) {
            self.parts[k].rule.next_pins(self.part_pins(k))[self.parts[k].rule.output_at()]
        } else {
            self.pin_states[p]
        } by {
            assert(self.part_wf(k));
            self.lemma_after_parts_pin(p);
            let pins = self.part_pins(k);
            self.parts[k].rule.lemma_gate(pins, pins);
            assert(pins[p - self.parts[k].start] == self.pin_states[p]);
        }
        assert forall|k: int| #![trigger self.parts[k]] 0 <= k < self.parts.len() implies self.parts[k].start
            <= self.output_of(k) < self.parts[k].end && a.pin_states[self.output_of(k)] is Output by {
            assert(self.part_wf(k));
            let pins = self.part_pins(k);
            self.parts[k].rule.lemma_gate(pins, pins);
            assert(self.owns(k, self.output_of(k)));
        }
    }

    /// A node that is at rest, with every gate that drives it, comes through a tick
    /// unchanged, and so do all its pins.
    pub proof fn lemma_node_steady(self, m: usize)
        requires
            self.wf(),
            self.gates_only(),
            self.nodes.contains_key(m),
            self.node_calm(m),
            forall|k: int|
                #![trigger self.parts[k]]
                0 <= k < self.parts.len() && self.pin_nodes[self.output_of(k)] == m ==> self.part_calm(k),
        ensures
            !self.after_parts().changed(m),
            forall|i: int|
                #![trigger self.nodes[m].pins[i]]
                0 <= i < self.nodes[m].pins.len() ==> self.after_tick().pin_states[self.nodes[m].pins[i] as int]
                    == self.pin_states[self.nodes[m].pins[i] as int],
            self.after_tick().nodes[m].signal == self.nodes[m].signal,
    {
        let a = self.after_parts();
        let pins = self.nodes[m].pins;
        self.lemma_gates_after_parts();
        assert(self.node_wf(m));
        assert forall|i: int| 0 <= i < pins.len() implies #[trigger] a.pin_states[pins[i] as int]
            == self.pin_states[pins[i] as int] by {
            let q = pins[i] as int;
            assert(self.pin_nodes[q] == m);
            if !self.free(q) {
                let k = choose|k: int| self.owns(k, q);
                assert(self.owns(k, q));
                if q == self.output_of(k) {
                    assert(self.parts[k].rule.is_gate());
                    assert(self.part_calm(k));
                }
            }
        }
        lemma_resolve_agree(a.pin_states, self.pin_states, pins);
        assert(!a.changed(m));
        assert forall|i: int|
            #![trigger self.nodes[m].pins[i]]
            0 <= i < pins.len() implies self.after_tick().pin_states[pins[i] as int] == self.pin_states[pins[i] as int] by {
            assert(a.pin_nodes[pins[i] as int] == m);
            assert(a.pin_states[pins[i] as int] == self.pin_states[pins[i] as int]);
        }
    }

    /// A tick keeps a graph of gates what it is: the same gates over the same nodes.
    pub proof fn lemma_gates_after_tick(self, layer: spec_fn(usize) -> nat)
        requires
            self.wf(),
            self.gates_only(),
            self.layered(layer),
        ensures
            self.after_tick().wf(),
            self.after_tick().gates_only(),
            self.after_tick().layered(layer),
            self.after_tick().len() == self.len(),
            self.after_tick().parts == self.parts,
            self.after_tick().pin_nodes == self.pin_nodes,
            forall|n: usize| self.after_tick().nodes.contains_key(n) <==> self.nodes.contains_key(n),
            forall|n: usize|
                self.nodes.contains_key(n) ==> (#[trigger] self.after_tick().nodes[n]).pins == self.nodes[n].pins,
    {
        self.lemma_gates_after_parts();
        self.lemma_after_tick_wf();
        let s = self.after_tick();
        assert forall|k: int, p: int| #![trigger s.owns(k, p)] s.owns(k, p) && p != s.output_of(k) implies layer(
            s.pin_nodes[p],
        ) < layer(s.pin_nodes[s.output_of(k)]) by {
            assert(self.owns(k, p));
        }
    }

    /// Settling, one layer per tick: when everything below layer `t` is at rest, then a
    /// tick later everything up to layer `t` is.
    pub proof fn lemma_calm_step(self, layer: spec_fn(usize) -> nat, t: nat)
        requires
            self.wf(),
            self.gates_only(),
            self.layered(layer),
            self.calm_below(layer, t),
        ensures
            self.after_tick().calm_below(layer, t + 1),
    {
        let a = self.after_parts();
        let s = self.after_tick();
        self.lemma_gates_after_parts();
        self.lemma_gates_after_tick(layer);
        a.lemma_after_nodes_wf();
        // Every node holds what it resolves to, right after the node phase.
        assert forall|n: usize| #![trigger s.nodes.contains_key(n)] s.nodes.contains_key(n) && layer(n)
            < t + 1 implies s.node_calm(n) by {
            let pins = a.nodes[n].pins;
            assert(a.node_wf(n));
            assert forall|i: int| 0 <= i < pins.len() implies ((#[trigger] a.pin_states[pins[i] as int]) is Output
                <==> s.pin_states[pins[i] as int] is Output) by {
                a.lemma_after_nodes_pins(pins[i] as int);
            }
            assert forall|i: int| 0 <= i < pins.len() && (#[trigger] a.pin_states[pins[i] as int]) is Output implies a.pin_states[pins[i] as int]
                == s.pin_states[pins[i] as int] by {
                a.lemma_after_nodes_pins(pins[i] as int);
            }
            lemma_resolve_agree(a.pin_states, s.pin_states, pins);
        }
        // Every gate up to layer `t` has inputs that came through the tick unchanged.
        assert forall|k: int| #![trigger s.parts[k]] 0 <= k < s.parts.len() && layer(
            s.pin_nodes[s.output_of(k)],
        ) < t + 1 implies s.part_calm(k) by {
            let rule = self.parts[k].rule;
            let start = self.parts[k].start as int;
            let out = self.output_of(k);
            assert(self.part_wf(k));
            assert(rule.is_gate());
            let before = self.part_pins(k);
            let after = s.part_pins(k);
            assert(self.owns(k, out));
            assert forall|i: int| 0 <= i < before.len() && i != rule.output_at() implies (#[trigger] before[i]).signal()
                == after[i].signal() by {
                let p = start + i;
                assert(self.owns(k, p));
                let m = self.pin_nodes[p];
                assert(layer(m) < layer(self.pin_nodes[out]));
                assert(self.nodes.contains_key(m));
                assert(self.node_calm(m));
                assert forall|j: int| #![trigger self.parts[j]] 0 <= j < self.parts.len()
                    && self.pin_nodes[self.output_of(j)] == m implies self.part_calm(j) by {}
                self.lemma_node_steady(m);
                assert(self.nodes[m].pins.contains(p as usize));
                let x = choose|x: int| 0 <= x < self.nodes[m].pins.len() && self.nodes[m].pins[x] == p as usize;
                assert(s.pin_states[self.nodes[m].pins[x] as int] == self.pin_states[self.nodes[m].pins[x] as int]);
            }
            rule.lemma_gate(before, after);
            a.lemma_after_nodes_pins(out);
        }
    }
}

impl GraphView {
    /// Whether `layer` puts no node above layer `d`.
    pub open spec fn layers_upto(self, layer: spec_fn(usize) -> nat, d: nat) -> bool {
        forall|n: usize| #![trigger self.nodes.contains_key(n)] self.nodes.contains_key(n) ==> layer(n) <= d
    }

    /// Where no node changes, the node phase counts no update.
    pub proof fn lemma_unchanged(self, k: nat)
        requires
            forall|n: usize| n < k ==> !#[trigger] self.changed(n),
        ensures
            self.changed_below(k) == 0,
        decreases k,
    {
        if k > 0 {
            self.lemma_unchanged((k - 1) as nat);
            assert(!self.changed((k - 1) as usize));
        }
    }

    /// A graph of gates in which everything is at rest is a fixed point: a tick updates
    /// no node and changes nothing.
    pub proof fn lemma_calm_is_rest(self, layer: spec_fn(usize) -> nat, d: nat)
        requires
            self.wf(),
            self.gates_only(),
            self.layered(layer),
            self.layers_upto(layer, d),
            self.calm_below(layer, d + 1),
        ensures
            self.tick_updates() == 0,
            self.after_tick() == self,
    {
        let a = self.after_parts();
        self.lemma_gates_after_parts();
        assert(a.pin_states =~= self.pin_states) by {
            assert forall|p: int| 0 <= p < self.len() implies a.pin_states[p] == self.pin_states[p] by {
                if !self.free(p) {
                    let k = choose|k: int| self.owns(k, p);
                    assert(self.owns(k, p));
                    if p == self.output_of(k) {
                        assert(self.nodes.contains_key(self.pin_nodes[p]));
                        assert(self.parts[k].rule.is_gate());
                        assert(self.part_calm(k));
                    }
                }
            }
        }
        assert(a == self);
        assert forall|n: usize| n < self.len() implies !#[trigger] self.changed(n) by {
            if self.nodes.contains_key(n) {
                assert(self.node_calm(n));
            }
        }
        self.lemma_unchanged(self.len());
        let s = self.after_nodes();
        assert(s.pin_states =~= self.pin_states) by {
            assert forall|p: int| 0 <= p < self.len() implies s.pin_states[p] == self.pin_states[p] by {
                self.lemma_node_bound(p as usize);
            }
        }
        assert(s.nodes =~= self.nodes) by {
            assert forall|n: usize| self.nodes.contains_key(n) implies s.nodes[n] == self.nodes[n] by {
                assert(self.node_calm(n));
            }
        }
    }

    /// After `t` ticks a graph of gates is the same gates over the same nodes, and
    /// everything below layer `t` is at rest.
    pub proof fn lemma_settling(self, layer: spec_fn(usize) -> nat, d: nat, t: nat)
        requires
            self.wf(),
            self.gates_only(),
            self.layered(layer),
            self.layers_upto(layer, d),
        ensures
            self.ticked(t).wf(),
            self.ticked(t).gates_only(),
            self.ticked(t).layered(layer),
            self.ticked(t).layers_upto(layer, d),
            self.ticked(t).len() == self.len(),
            self.ticked(t).calm_below(layer, t),
        decreases t,
    {
        if t > 0 {
            let before = self.ticked((t - 1) as nat);
            self.lemma_settling(layer, d, (t - 1) as nat);
            before.lemma_gates_after_tick(layer);
            before.lemma_calm_step(layer, (t - 1) as nat);
            let s = before.after_tick();
            assert forall|n: usize| #![trigger s.nodes.contains_key(n)] s.nodes.contains_key(n) implies layer(
                n,
            ) <= d by {
                assert(before.nodes.contains_key(n));
            }
        }
    }

    /// Monotone convergence, in ticks: a circuit of gates whose nodes can be layered
    /// with no node above layer `d` is at rest after `d + 1` ticks. The next tick
    /// updates no node and changes nothing.
    pub proof fn lemma_at_rest(self, layer: spec_fn(usize) -> nat, d: nat)
        requires
            self.wf(),
            self.gates_only(),
            self.layered(layer),
            self.layers_upto(layer, d),
        ensures
            self.ticked(d + 1).tick_updates() == 0,
            self.ticked(d + 1).after_tick() == self.ticked(d + 1),
    {
        self.lemma_settling(layer, d, d + 1);
        self.ticked(d + 1).lemma_calm_is_rest(layer, d);
    }

    /// The fingerprints that a run has noted after `t` ticks that each updated a node:
    /// that of the graph after tick `i`, for every `i` from 1 to `t`, noted with the
    /// tick count `i + 1`.
    pub open spec fn noted(self, t: nat) -> Map<u64, usize>
        decreases t,
    {
        if t == 0 {
            Map::empty()
        } else {
            self.noted((t - 1) as nat).insert(self.ticked(t).fingerprint(), (t + 1) as usize)
        }
    }

    /// Whether each of the first `t` ticks updates a node, so that a run counts them all.
    pub open spec fn counted(self, t: nat) -> bool {
        forall|m: nat| m < t ==> #[trigger] self.ticked(m).tick_updates() != 0
    }

    /// Whether the fingerprint tells apart the graphs that a run passes through in its
    /// first `last` ticks: no two of them that differ have the same fingerprint.
    pub open spec fn told_apart(self, last: nat) -> bool {
        forall|i: nat, j: nat|
            #![trigger self.ticked(i), self.ticked(j)]
            1 <= i < j <= last && self.counted(j) && self.ticked(i) != self.ticked(j) ==> self.ticked(
                i,
            ).fingerprint() != self.ticked(j).fingerprint()
    }

    /// Ticks add up.
    pub proof fn lemma_ticked_sum(self, a: nat, b: nat)
        ensures
            self.ticked(a + b) == self.ticked(a).ticked(b),
        decreases b,
    {
        if b > 0 {
            self.lemma_ticked_sum(a, (b - 1) as nat);
            assert(self.ticked(a + b) == self.ticked((a + b - 1) as nat).after_tick());
        }
    }

    /// Once at rest, always at rest: from tick `d + 1` on no tick updates a node.
    pub proof fn lemma_rest_lasts(self, layer: spec_fn(usize) -> nat, d: nat, t: nat)
        requires
            self.wf(),
            self.gates_only(),
            self.layered(layer),
            self.layers_upto(layer, d),
            t >= d + 1,
        ensures
            self.ticked(t).tick_updates() == 0,
    {
        self.lemma_settling(layer, d, t);
        let s = self.ticked(t);
        assert(s.calm_below(layer, d + 1)) by {
            assert forall|n: usize| #![trigger s.nodes.contains_key(n)] s.nodes.contains_key(n) && layer(n)
                < d + 1 implies s.node_calm(n) by {}
            assert forall|k: int| #![trigger s.parts[k]] 0 <= k < s.parts.len() && layer(
                s.pin_nodes[s.output_of(k)],
            ) < d + 1 implies s.part_calm(k) by {}
        }
        s.lemma_calm_is_rest(layer, d);
    }

    /// A graph that comes back after `p` ticks comes back after every multiple of `p`.
    pub proof fn lemma_period(self, p: nat, q: nat)
        requires
            self.ticked(p) == self,
        ensures
            self.ticked(q * p) == self,
        decreases q,
    {
        if q > 0 {
            let rounds = ((q - 1) * p) as nat;
            self.lemma_period(p, (q - 1) as nat);
            assert(q * p == rounds + p) by (nonlinear_arith)
                requires
                    q > 0,
                    rounds == (q - 1) * p,
            ;
            self.lemma_ticked_sum(rounds, p);
        } else {
            assert(q * p == 0) by (nonlinear_arith)
                requires
                    q == 0,
            ;
        }
    }

    /// A settling circuit passes through no graph twice: the graph after a tick that
    /// updated a node differs from the graph after every earlier tick.
    pub proof fn lemma_never_twice(self, layer: spec_fn(usize) -> nat, d: nat, i: nat, j: nat)
        requires
            self.wf(),
            self.gates_only(),
            self.layered(layer),
            self.layers_upto(layer, d),
            i < j,
            self.ticked((j - 1) as nat).tick_updates() != 0,
        ensures
            self.ticked(i) != self.ticked(j),
    {
        if self.ticked(i) == self.ticked(j) {
            let p = (j - i) as nat;
            let start = self.ticked(i);
            self.lemma_ticked_sum(i, p);
            assert(start.ticked(p) == start);
            // The graph before tick `j` comes back after every multiple of `p` ticks.
            let last = start.ticked((p - 1) as nat);
            self.lemma_ticked_sum(i, (p - 1) as nat);
            assert(last == self.ticked((j - 1) as nat));
            let q = d + 1;
            start.lemma_period(p, q);
            let rounds = q * p;
            let later = (rounds + (p - 1)) as nat;
            start.lemma_ticked_sum(rounds, (p - 1) as nat);
            assert(start.ticked(later) == last);
            self.lemma_ticked_sum(i, later);
            assert(self.ticked(i + later) == last);
            assert(rounds >= d + 1) by (nonlinear_arith)
                requires
                    rounds == q * p,
                    q == d + 1,
                    p >= 1,
            ;
            self.lemma_rest_lasts(layer, d, i + later);
        }
    }

    /// Every fingerprint that was noted is that of the graph after one of the ticks.
    pub proof fn lemma_noted(self, t: nat, hash: u64)
        requires
            self.noted(t).contains_key(hash),
        ensures
            exists|i: nat| 1 <= i <= t && #[trigger] self.ticked(i).fingerprint() == hash,
        decreases t,
    {
        if t > 0 {
            if self.ticked(t).fingerprint() != hash {
                self.lemma_noted((t - 1) as nat, hash);
                let i = choose|i: nat| 1 <= i <= t - 1 && #[trigger] self.ticked(i).fingerprint() == hash;
                assert(1 <= i <= t && self.ticked(i).fingerprint() == hash);
            }
        }
    }

    /// The rest of a run, from the graph after `t` ticks that each updated a node:
    /// it ends without a cycle, and with no more than `d + 2` ticks counted.
    pub proof fn lemma_run_settles(self, layer: spec_fn(usize) -> nat, d: nat, t: nat, updates: usize)
        requires
            self.wf(),
            self.gates_only(),
            self.layered(layer),
            self.layers_upto(layer, d),
            self.told_apart(d + 1),
            d + 2 <= RUN_LIMIT,
            (d + 1) * self.len() <= RUN_LIMIT,
            t <= d + 1,
            updates <= t * self.len(),
            self.counted(t),
        ensures
            self.ticked(t).run_from(
                RunStats { ticks: (t + 1) as usize, updates, cycle: 0 },
                self.noted(t),
            ).1.cycle == 0,
            self.ticked(t).run_from(
                RunStats { ticks: (t + 1) as usize, updates, cycle: 0 },
                self.noted(t),
            ).1.ticks <= d + 2,
        decreases d + 1 - t,
    {
        let now = self.ticked(t);
        let stats = RunStats { ticks: (t + 1) as usize, updates, cycle: 0 };
        let seen = self.noted(t);
        let n = now.tick_updates();
        self.lemma_settling(layer, d, t);
        now.lemma_after_tick_wf();
        if t == d + 1 {
            self.lemma_at_rest(layer, d);
        } else if n != 0 {
            assert((t + 1) * self.len() <= (d + 1) * self.len()) by (nonlinear_arith)
                requires
                    t + 1 <= d + 1,
            ;
            assert(updates + n <= (t + 1) * self.len()) by (nonlinear_arith)
                requires
                    updates <= t * self.len(),
                    n <= self.len(),
            ;
            let next = now.after_tick();
            assert(next == self.ticked(t + 1));
            assert(self.counted(t + 1)) by {
                assert forall|m: nat| m < t + 1 implies #[trigger] self.ticked(m).tick_updates() != 0 by {
                    if m < t {
                        assert(self.ticked(m).tick_updates() != 0);
                    }
                }
            }
            let hash = next.fingerprint();
            if seen.contains_key(hash) {
                self.lemma_noted(t, hash);
                let i = choose|i: nat| 1 <= i <= t && #[trigger] self.ticked(i).fingerprint() == hash;
                assert(self.ticked(((t + 1) - 1) as nat) == now);
                self.lemma_never_twice(layer, d, i, t + 1);
                assert(self.ticked(i).fingerprint() != self.ticked(t + 1).fingerprint());
            }
            let sum = (updates + n) as usize;
            assert(seen.insert(hash, (t + 2) as usize) == self.noted(t + 1));
            self.lemma_run_settles(layer, d, t + 1, sum);
        }
    }

    /// Monotone convergence: a run of a circuit of gates whose nodes can be layered, with
    /// no node above layer `d`, ends without a cycle after at most `d + 1` ticks that
    /// update a node, which the run counts as `d + 2` with the quiet one that ends it.
    ///
    /// This holds where the run stays within its limit and the fingerprint tells apart
    /// the graphs that the run passes through, none of which comes twice.
    pub proof fn lemma_run_converges(self, layer: spec_fn(usize) -> nat, d: nat)
        requires
            self.wf(),
            self.gates_only(),
            self.layered(layer),
            self.layers_upto(layer, d),
            self.told_apart(d + 1),
            d + 2 <= RUN_LIMIT,
            (d + 1) * self.len() <= RUN_LIMIT,
        ensures
            self.run().1.cycle == 0,
            self.run().1.ticks <= d + 2,
    {
        self.lemma_run_settles(layer, d, 0, 0);
    }
}

impl GraphView {
    /// Ticks keep a graph well formed, and its pins in number.
    pub proof fn lemma_ticked_wf(self, t: nat)
        requires
            self.wf(),
        ensures
            self.ticked(t).wf(),
            self.ticked(t).len() == self.len(),
        decreases t,
    {
        if t > 0 {
            self.lemma_ticked_wf((t - 1) as nat);
            self.ticked((t - 1) as nat).lemma_after_tick_wf();
        }
    }

    /// Where the node phase counts an update, a node has changed.
    pub proof fn lemma_some_changed(self, k: nat)
        requires
            self.changed_below(k) != 0,
        ensures
            exists|n: usize| n < k && #[trigger] self.changed(n),
        decreases k,
    {
        if k > 0 {
            if self.changed((k - 1) as usize) {
                let n = (k - 1) as usize;
                assert(n < k && self.changed(n));
            } else {
                self.lemma_some_changed((k - 1) as nat);
            }
        }
    }

    /// A tick that updates a node leaves another graph than it found.
    pub proof fn lemma_tick_moves(self)
        requires
            self.wf(),
            self.tick_updates() != 0,
        ensures
            self.after_tick() != self,
    {
        let a = self.after_parts();
        self.lemma_parts_updated_wf(self.parts.len());
        a.lemma_some_changed(a.len());
        let n = choose|n: usize| n < a.len() && #[trigger] a.changed(n);
        assert(self.after_tick().nodes[n].signal == a.resolved(n));
        assert(self.nodes[n].signal == a.nodes[n].signal);
    }

    /// Every fingerprint that was noted is noted with the tick count that the run had
    /// when it took it.
    pub proof fn lemma_noted_count(self, t: nat, hash: u64)
        requires
            self.noted(t).contains_key(hash),
        ensures
            exists|i: nat|
                1 <= i <= t && #[trigger] self.ticked(i).fingerprint() == hash && self.noted(t)[hash] == (i
                    + 1) as usize,
        decreases t,
    {
        if t > 0 {
            if self.ticked(t).fingerprint() != hash {
                self.lemma_noted_count((t - 1) as nat, hash);
                let i = choose|i: nat|
                    1 <= i <= t - 1 && #[trigger] self.ticked(i).fingerprint() == hash && self.noted(
                        (t - 1) as nat,
                    )[hash] == (i + 1) as usize;
                assert(1 <= i <= t && self.ticked(i).fingerprint() == hash && self.noted(t)[hash] == (i
                    + 1) as usize);
            } else {
                assert(1 <= t <= t && self.ticked(t).fingerprint() == hash && self.noted(t)[hash] == (t
                    + 1) as usize);
            }
        }
    }

    /// The fingerprint of the graph after each counted tick is noted.
    pub proof fn lemma_noted_has(self, t: nat, i: nat)
        requires
            1 <= i <= t,
        ensures
            self.noted(t).contains_key(self.ticked(i).fingerprint()),
        decreases t,
    {
        if i < t {
            self.lemma_noted_has((t - 1) as nat, i);
        }
    }

    /// The rest of a run of a graph that comes back after tick `j` to what it was after
    /// tick `i`, from the graph after `t` ticks on: it ends with a cycle.
    pub proof fn lemma_run_cycles(self, i: nat, j: nat, t: nat, updates: usize)
        requires
            self.wf(),
            1 <= i < j,
            self.ticked(i) == self.ticked(j),
            self.counted(j),
            self.told_apart(j),
            j + 1 <= RUN_LIMIT,
            j * self.len() <= RUN_LIMIT,
            t < j,
            updates <= t * self.len(),
        ensures
            self.ticked(t).run_from(
                RunStats { ticks: (t + 1) as usize, updates, cycle: 0 },
                self.noted(t),
            ).1.cycle > 0,
            self.ticked(t).run_from(
                RunStats { ticks: (t + 1) as usize, updates, cycle: 0 },
                self.noted(t),
            ).1.ticks <= j + 1,
        decreases j - t,
    {
        let now = self.ticked(t);
        let seen = self.noted(t);
        let n = now.tick_updates();
        self.lemma_ticked_wf(t);
        now.lemma_after_tick_wf();
        assert(n != 0);
        assert((t + 1) * self.len() <= j * self.len()) by (nonlinear_arith)
            requires
                t + 1 <= j,
        ;
        assert(updates + n <= (t + 1) * self.len()) by (nonlinear_arith)
            requires
                updates <= t * self.len(),
                n <= self.len(),
        ;
        let next = now.after_tick();
        assert(next == self.ticked(t + 1));
        assert(self.ticked(((t + 1) - 1) as nat) == now);
        let hash = next.fingerprint();
        assert(self.counted(t + 1)) by {
            assert forall|m: nat| m < t + 1 implies #[trigger] self.ticked(m).tick_updates() != 0 by {
                assert(m < j);
            }
        }
        if seen.contains_key(hash) {
            self.lemma_noted_count(t, hash);
            let k = choose|k: nat|
                1 <= k <= t && #[trigger] self.ticked(k).fingerprint() == hash && seen[hash] == (k + 1) as usize;
            assert(self.ticked(k) == self.ticked(t + 1));
            now.lemma_tick_moves();
            assert(k != t);
        } else {
            if t + 1 == j {
                self.lemma_noted_has(t, i);
            }
            let sum = (updates + n) as usize;
            assert(seen.insert(hash, (t + 2) as usize) == self.noted(t + 1));
            self.lemma_run_cycles(i, j, t + 1, sum);
        }
    }

    /// Oscillation: a run of a graph that comes back after tick `j` to what it was after
    /// an earlier tick `i`, with every tick updating a node, ends with a cycle of at
    /// least one tick, after no more than `j` ticks, which it counts as `j + 1`.
    ///
    /// This holds where the run stays within its limit and the fingerprint tells apart
    /// the graphs that the run passes through.
    pub proof fn lemma_run_detects_cycle(self, i: nat, j: nat)
        requires
            self.wf(),
            1 <= i < j,
            self.ticked(i) == self.ticked(j),
            self.counted(j),
            self.told_apart(j),
            j + 1 <= RUN_LIMIT,
            j * self.len() <= RUN_LIMIT,
        ensures
            self.run().1.cycle > 0,
            self.run().1.ticks <= j + 1,
    {
        self.lemma_run_cycles(i, j, 0, 0);
    }
}

} // verus!
