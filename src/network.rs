use vstd::prelude::*;
use vstd::set_lib::*;

use crate::connection::{Connection, ConnectionID, ConnectionKind};
use crate::data::{DataTypeValue, DataDeductor};
use crate::error::ErrorKind;
use crate::neuron::{FULL, Neuron, NeuronID, clamp, combine, combined, scale, scaled, clamp_signal};

verus! {

/// Which edges a traversal follows.
#[derive(Debug, Clone, Copy, PartialEq, Eq, Structural)]
pub enum Walk {
    /// Along edges, those of the enabled direction classes.
    Forward { horizontal: bool, vertical: bool },
    /// Against vertical edges, into active nodes only: the nodes that justify
    /// a node's activation.
    Justify,
}

/// One node reached by a traversal: the signal it took in, and, for all but
/// the first, the position in the traversal of the node that passed it on and
/// the edge it came along.
#[derive(Debug, Clone, Copy, PartialEq, Eq, Structural)]
pub struct Stimulus {
    pub neuron: usize,
    pub signal: i64,
    pub source: usize,
    pub via: usize,
}

/// The node table and the edge list of the graph. Nodes are named by their
/// position (handle); nodes are never removed.
pub struct Network {
    pub neurons: Vec<Neuron>,
    pub connections: Vec<Connection>,
}

/// The signal that an edge of `kind` and weight `w` passes on: scaled, and
/// negated along an inhibitory edge.
pub open spec fn passed(s: int, w: int, kind: ConnectionKind) -> int {
    if kind == ConnectionKind::Inhibitory {
        -scaled(s, w)
    } else {
        scaled(s, w)
    }
}

pub open spec fn covers(r: Seq<Stimulus>, t: int) -> bool {
    exists|i: int| 0 <= i < r.len() && r[i].neuron == t
}

impl Network {
    pub open spec fn wf(&self) -> bool {
        &&& forall|i: int|
            0 <= i < self.neurons@.len() ==> (#[trigger] self.neurons@[i]).activation <= FULL
                && self.neurons@[i].counter >= 1
        &&& forall|e: int|
            0 <= e < self.connections@.len() ==> {
                let c = #[trigger] self.connections@[e];
                &&& c.from < self.neurons@.len()
                &&& c.to < self.neurons@.len()
                &&& c.from != c.to
                &&& c.weight <= FULL
            }
        &&& forall|e1: int, e2: int|
            0 <= e1 < e2 < self.connections@.len() ==> {
                let a = #[trigger] self.connections@[e1];
                let b = #[trigger] self.connections@[e2];
                !(a.from == b.from && a.to == b.to && a.kind == b.kind)
            }
    }

    /// The weight of an edge: `FULL / counter(to)` for a `Defining` edge,
    /// the stored weight otherwise.
    pub open spec fn weight_of(&self, e: int) -> int {
        let c = self.connections@[e];
        if c.kind == ConnectionKind::Defining {
            FULL as int / self.neurons@[c.to as int].counter as int
        } else {
            c.weight as int
        }
    }

    pub open spec fn admits(&self, w: Walk, e: int) -> bool {
        let c = self.connections@[e];
        match w {
            Walk::Forward { horizontal, vertical } => if c.kind.horizontal() {
                horizontal
            } else {
                vertical
            },
            Walk::Justify => !c.kind.horizontal() && self.neurons@[c.from as int].activation > 0,
        }
    }

    pub open spec fn tail(&self, w: Walk, e: int) -> int {
        match w {
            Walk::Forward { .. } => self.connections@[e].from as int,
            Walk::Justify => self.connections@[e].to as int,
        }
    }

    pub open spec fn head(&self, w: Walk, e: int) -> int {
        match w {
            Walk::Forward { .. } => self.connections@[e].to as int,
            Walk::Justify => self.connections@[e].from as int,
        }
    }

    /// One step of a walk leads from `a` to `b`.
    pub open spec fn link(&self, w: Walk, a: int, b: int) -> bool {
        exists|e: int|
            0 <= e < self.connections@.len() && #[trigger] self.admits(w, e) && self.tail(w, e)
                == a && self.head(w, e) == b
    }

    pub open spec fn is_walk(&self, w: Walk, p: Seq<int>) -> bool {
        &&& p.len() >= 1
        &&& forall|i: int| 0 <= i < p.len() - 1 ==> self.link(w, #[trigger] p[i], p[i + 1])
    }

    /// `t` can be reached from `s` by steps of the walk (`s` reaches itself).
    pub open spec fn reaches(&self, w: Walk, s: int, t: int) -> bool {
        exists|p: Seq<int>| #[trigger] self.is_walk(w, p) && p[0] == s && p.last() == t
    }

    /// `r` records a traversal from `start`: distinct nodes, the first being
    /// `start`, each later one reached by an admitted edge from an earlier one.
    pub open spec fn traces(&self, w: Walk, start: int, r: Seq<Stimulus>) -> bool {
        &&& r.len() >= 1
        &&& r[0].neuron == start
        &&& forall|i: int| 0 <= i < r.len() ==> (#[trigger] r[i]).neuron < self.neurons@.len()
        &&& forall|i: int, j: int|
            0 <= i < j < r.len() ==> (#[trigger] r[i]).neuron != (#[trigger] r[j]).neuron
        &&& forall|i: int|
            0 < i < r.len() ==> {
                let x = #[trigger] r[i];
                &&& x.source < i
                &&& x.via < self.connections@.len()
                &&& self.admits(w, x.via as int)
                &&& self.tail(w, x.via as int) == r[x.source as int].neuron
                &&& self.head(w, x.via as int) == x.neuron
            }
    }

    /// Every admitted edge out of a node of `r` leads to a node of `r`.
    pub open spec fn closed(&self, w: Walk, r: Seq<Stimulus>) -> bool {
        forall|i: int, e: int|
            0 <= i < r.len() && 0 <= e < self.connections@.len() && #[trigger] self.admits(w, e)
                && self.tail(w, e) == (#[trigger] r[i]).neuron ==> covers(r, self.head(w, e))
    }

    /// The same nodes and edges, activations aside.
    pub open spec fn same_shape(&self, other: &Network) -> bool {
        &&& self.connections@ == other.connections@
        &&& self.neurons@.len() == other.neurons@.len()
        &&& forall|i: int|
            0 <= i < self.neurons@.len() ==> {
                let a = #[trigger] self.neurons@[i];
                let b = other.neurons@[i];
                &&& a.id@ == b.id@
                &&& a.counter == b.counter
                &&& a.is_sensor == b.is_sensor
                &&& a.data_type == b.data_type
                &&& a.value@ == b.value@
            }
    }

    proof fn lemma_same_nodes(a: Seq<Stimulus>, b: Seq<Stimulus>)
        requires
            a.len() == b.len(),
            forall|i: int| 0 <= i < a.len() ==> (#[trigger] a[i]).neuron == b[i].neuron,
        ensures
            forall|t: int| covers(a, t) <==> covers(b, t),
    {
        assert forall|t: int| covers(a, t) <==> covers(b, t) by {
            if covers(a, t) {
                let i = choose|i: int| 0 <= i < a.len() && a[i].neuron == t;
                assert(b[i].neuron == t);
            }
            if covers(b, t) {
                let i = choose|i: int| 0 <= i < b.len() && b[i].neuron == t;
                assert(a[i].neuron == t);
            }
        }
    }

    proof fn lemma_traced_reachable(&self, w: Walk, start: int, r: Seq<Stimulus>, i: int)
        requires
            self.traces(w, start, r),
            0 <= i < r.len(),
        ensures
            self.reaches(w, start, r[i].neuron as int),
        decreases i,
    {
        if i == 0 {
            let p = seq![start];
            assert(self.is_walk(w, p));
        } else {
            let x = r[i];
            let s = x.source as int;
            self.lemma_traced_reachable(w, start, r, s);
            let p = choose|p: Seq<int>|
                #[trigger] self.is_walk(w, p) && p[0] == start && p.last() == r[s].neuron;
            let q = p.push(x.neuron as int);
            assert(self.link(w, p.last(), x.neuron as int)) by {
                assert(self.admits(w, x.via as int));
            }
            assert forall|k: int| 0 <= k < q.len() - 1 implies self.link(w, #[trigger] q[k], q[k + 1]) by {
                if k < p.len() - 1 {
                    assert(q[k] == p[k] && q[k + 1] == p[k + 1]);
                }
            }
            assert(self.is_walk(w, q));
            assert(q[0] == start && q.last() == x.neuron);
        }
    }

    proof fn lemma_closed_complete(&self, w: Walk, r: Seq<Stimulus>, p: Seq<int>)
        requires
            self.closed(w, r),
            self.is_walk(w, p),
            covers(r, p[0]),
        ensures
            covers(r, p.last()),
        decreases p.len(),
    {
        if p.len() > 1 {
            let q = p.drop_last();
            assert forall|k: int| 0 <= k < q.len() - 1 implies self.link(w, #[trigger] q[k], q[k + 1]) by {
                assert(q[k] == p[k] && q[k + 1] == p[k + 1]);
            }
            self.lemma_closed_complete(w, r, q);
            let a = q.last();
            assert(self.link(w, p[p.len() - 2], p[p.len() - 1]));
            let e = choose|e: int|
                0 <= e < self.connections@.len() && #[trigger] self.admits(w, e) && self.tail(w, e)
                    == a && self.head(w, e) == p.last();
            let i = choose|i: int| 0 <= i < r.len() && r[i].neuron == a;
            assert(self.tail(w, e) == r[i].neuron);
        }
    }

    proof fn lemma_trace_is_reach_set(&self, w: Walk, start: int, r: Seq<Stimulus>)
        requires
            self.traces(w, start, r),
            self.closed(w, r),
        ensures
            forall|t: int| covers(r, t) <==> self.reaches(w, start, t),
    {
        assert forall|t: int| covers(r, t) <==> self.reaches(w, start, t) by {
            if covers(r, t) {
                let i = choose|i: int| 0 <= i < r.len() && r[i].neuron == t;
                self.lemma_traced_reachable(w, start, r, i);
            }
            if self.reaches(w, start, t) {
                let p = choose|p: Seq<int>| #[trigger] self.is_walk(w, p) && p[0] == start && p.last() == t;
                assert(r[0].neuron == start);
                self.lemma_closed_complete(w, r, p);
            }
        }
    }

    /// Whether edge `e` is followed by walk `w`, and its two ends in the
    /// walk's direction.
    fn step(&self, w: Walk, e: usize) -> (r: (bool, usize, usize))
        requires
            self.wf(),
            e < self.connections@.len(),
        ensures
            r.0 == self.admits(w, e as int),
            r.1 == self.tail(w, e as int),
            r.2 == self.head(w, e as int),
    {
        let c = self.connections[e];
        match w {
            Walk::Forward { horizontal, vertical } => {
                let on = if c.kind.is_horizontal() {
                    horizontal
                } else {
                    vertical
                };
                (on, c.from, c.to)
            },
            Walk::Justify => {
                let on = !c.kind.is_horizontal() && self.neurons[c.from].activation > 0;
                (on, c.to, c.from)
            },
        }
    }

    /// The bookkeeping of a traversal from `start`: `r` traces it, `seen`
    /// marks its nodes, `found` is their set.
    pub open spec fn frontier(
        &self,
        w: Walk,
        start: int,
        r: Seq<Stimulus>,
        seen: Seq<bool>,
        found: Set<int>,
    ) -> bool {
        let n = self.neurons@.len() as int;
        &&& self.wf()
        &&& 0 <= start < n
        &&& seen.len() == n
        &&& self.traces(w, start, r)
        &&& forall|i: int| 0 <= i < r.len() ==> (#[trigger] r[i]).signal == 0
        &&& forall|x: int| 0 <= x < n ==> (#[trigger] seen[x] <==> covers(r, x))
        &&& forall|x: int| #[trigger] found.contains(x) <==> covers(r, x)
        &&& found.finite()
        &&& found.len() == r.len()
        &&& found.subset_of(set_int_range(0, n))
    }

    /// The admitted edges out of the first `upto` nodes of `r` lead into `r`.
    pub open spec fn closed_upto(&self, w: Walk, r: Seq<Stimulus>, upto: int) -> bool {
        forall|i: int, e: int|
            0 <= i < upto && 0 <= e < self.connections@.len() && #[trigger] self.admits(w, e)
                && self.tail(w, e) == (#[trigger] r[i]).neuron ==> covers(r, self.head(w, e))
    }

    proof fn lemma_extend(
        &self,
        w: Walk,
        start: int,
        r: Seq<Stimulus>,
        seen: Seq<bool>,
        found: Set<int>,
        x: Stimulus,
    )
        requires
            self.frontier(w, start, r, seen, found),
            0 <= x.neuron < self.neurons@.len(),
            !seen[x.neuron as int],
            x.signal == 0,
            x.source < r.len(),
            x.via < self.connections@.len(),
            self.admits(w, x.via as int),
            self.tail(w, x.via as int) == r[x.source as int].neuron,
            self.head(w, x.via as int) == x.neuron,
        ensures
            self.frontier(w, start, r.push(x), seen.update(x.neuron as int, true), found.insert(x.neuron as int)),
            forall|t: int| covers(r, t) ==> covers(r.push(x), t),
            covers(r.push(x), x.neuron as int),
    {
        let q = r.push(x);
        let to = x.neuron as int;
        assert(q[q.len() - 1] == x);
        assert(covers(q, to));
        assert forall|t: int| covers(r, t) implies covers(q, t) by {
            let i = choose|i: int| 0 <= i < r.len() && r[i].neuron == t;
            assert(q[i] == r[i]);
        }
        assert forall|t: int| covers(q, t) implies covers(r, t) || t == to by {
            let i = choose|i: int| 0 <= i < q.len() && q[i].neuron == t;
            if i < r.len() {
                assert(q[i] == r[i]);
            }
        }
        assert(!found.contains(to));
        assert forall|i: int, j: int| 0 <= i < j < q.len() implies (#[trigger] q[i]).neuron
            != (#[trigger] q[j]).neuron by {
            if j == q.len() - 1 {
                assert(q[i] == r[i]);
                assert(covers(r, r[i].neuron as int));
            } else {
                assert(q[i] == r[i] && q[j] == r[j]);
            }
        }
        assert forall|i: int| 0 < i < q.len() implies {
            let y = #[trigger] q[i];
            &&& y.source < i
            &&& y.via < self.connections@.len()
            &&& self.admits(w, y.via as int)
            &&& self.tail(w, y.via as int) == q[y.source as int].neuron
            &&& self.head(w, y.via as int) == y.neuron
        } by {
            if i < r.len() {
                assert(q[i] == r[i]);
                assert(q[r[i].source as int] == r[r[i].source as int]);
            } else {
                assert(q[x.source as int] == r[x.source as int]);
            }
        }
        assert forall|i: int| 0 <= i < q.len() implies (#[trigger] q[i]).signal == 0 by {
            if i < r.len() {
                assert(q[i] == r[i]);
            }
        }
        assert forall|i: int| 0 <= i < q.len() implies (#[trigger] q[i]).neuron < self.neurons@.len() by {
            if i < r.len() {
                assert(q[i] == r[i]);
            }
        }
    }

    /// Follows the admitted edges out of the node at position `next` of `r`,
    /// adding each node not yet seen.
    #[verifier::rlimit(80)]
    fn scan(
        &self,
        w: Walk,
        start: usize,
        next: usize,
        r: &mut Vec<Stimulus>,
        seen: &mut Vec<bool>,
        found: Ghost<Set<int>>,
    ) -> (found2: Ghost<Set<int>>)
        requires
            self.frontier(w, start as int, old(r)@, old(seen)@, found@),
            next < old(r)@.len(),
            self.closed_upto(w, old(r)@, next as int),
        ensures
            self.frontier(w, start as int, final(r)@, final(seen)@, found2@),
            self.closed_upto(w, final(r)@, next + 1),
            final(r)@.len() >= old(r)@.len(),
    {
        let m = self.connections.len();
        let node = r[next].neuron;
        let ghost mut set = found@;
        let mut e: usize = 0;
        while e < m
            invariant
                m == self.connections@.len(),
                next < r@.len(),
                node == r@[next as int].neuron,
                r@.len() >= old(r)@.len(),
                self.frontier(w, start as int, r@, seen@, set),
                self.closed_upto(w, r@, next as int),
                e <= m,
                forall|f: int|
                    0 <= f < e && #[trigger] self.admits(w, f) && self.tail(w, f) == node
                        ==> covers(r@, self.head(w, f)),
            decreases m - e,
        {
            let (on, from, to) = self.step(w, e);
            if on && from == node && !seen[to] {
                let x = Stimulus { neuron: to, signal: 0, source: next, via: e };
                proof {
                    self.lemma_extend(w, start as int, r@, seen@, set, x);
                    set = set.insert(to as int);
                }
                seen.set(to, true);
                r.push(x);
            }
            e = e + 1;
        }
        Ghost(set)
    }

    /// Breadth-first traversal from `start`: each node reachable by the walk,
    /// once, with the edge by which it was first found. Signals are left at zero.
    fn discover(&self, w: Walk, start: usize) -> (r: Vec<Stimulus>)
        requires
            self.wf(),
            start < self.neurons@.len(),
        ensures
            self.traces(w, start as int, r@),
            forall|t: int| covers(r@, t) <==> self.reaches(w, start as int, t),
            forall|i: int| 0 <= i < r@.len() ==> (#[trigger] r@[i]).signal == 0,
    {
        let n = self.neurons.len();
        let mut seen: Vec<bool> = Vec::new();
        let mut k: usize = 0;
        while k < n
            invariant
                k <= n,
                seen@.len() == k,
                forall|x: int| 0 <= x < k ==> !(#[trigger] seen@[x]),
            decreases n - k,
        {
            seen.push(false);
            k = k + 1;
        }
        let ghost before = seen@;
        seen.set(start, true);
        let mut r: Vec<Stimulus> = Vec::new();
        r.push(Stimulus { neuron: start, signal: 0, source: 0, via: 0 });
        let ghost mut found: Set<int> = set![start as int];
        proof {
            lemma_int_range(0, n as int);
            assert(covers(r@, start as int)) by {
                assert(r@[0].neuron == start);
            }
            assert forall|x: int| 0 <= x < n implies (#[trigger] seen@[x] <==> covers(r@, x)) by {
                if x != start {
                    assert(seen@[x] == before[x]);
                }
            }
            assert(found.len() == 1) by {
                assert(found =~= Set::<int>::empty().insert(start as int));
            }
        }
        let mut next: usize = 0;
        while next < r.len()
            invariant
                n == self.neurons@.len(),
                self.frontier(w, start as int, r@, seen@, found),
                set_int_range(0, n as int).len() == n,
                set_int_range(0, n as int).finite(),
                next <= r@.len(),
                self.closed_upto(w, r@, next as int),
            decreases n - next,
        {
            proof {
                lemma_len_subset(found, set_int_range(0, n as int));
            }
            let f = self.scan(w, start, next, &mut r, &mut seen, Ghost(found));
            proof {
                found = f@;
            }
            next = next + 1;
        }
        proof {
            self.lemma_trace_is_reach_set(w, start as int, r@);
        }
        r
    }

    /// Nodes and edges alike unchanged.
    pub open spec fn unchanged(&self, other: &Network) -> bool {
        &&& self.neurons@ == other.neurons@
        &&& self.connections@ == other.connections@
    }

    /// The handles of the nodes that justify the activation of `start`: none
    /// if it is not active; else the sensor-level nodes other than `start` from
    /// which a chain of vertical edges through active nodes leads to it.
    pub open spec fn justifies(&self, start: int, t: int) -> bool {
        &&& self.neurons@[start].activation > 0
        &&& t != start
        &&& 0 <= t < self.neurons@.len()
        &&& self.neurons@[t].is_sensor
        &&& self.reaches(Walk::Justify, start, t)
    }

    /// An empty graph.
    pub fn new() -> (r: Network)
        ensures
            r.wf(),
            r.neurons@.len() == 0,
            r.connections@.len() == 0,
    {
        Network { neurons: Vec::new(), connections: Vec::new() }
    }

    /// The number of nodes.
    pub fn len(&self) -> (r: usize)
        ensures
            r == self.neurons@.len(),
    {
        self.neurons.len()
    }

    /// The current activation of a node.
    pub fn activation(&self, h: usize) -> (r: u32)
        requires
            h < self.neurons@.len(),
        ensures
            r == self.neurons@[h as int].activation,
    {
        self.neurons[h].activation
    }

    /// How many times a node's value has been inserted.
    pub fn counter(&self, h: usize) -> (r: u64)
        requires
            h < self.neurons@.len(),
        ensures
            r == self.neurons@[h as int].counter,
    {
        self.neurons[h].counter
    }

    /// Adds a dormant node with counter one for `value`; returns its handle.
    pub fn add_neuron(&mut self, id: NeuronID, is_sensor: bool, value: DataTypeValue) -> (r: usize)
        requires
            old(self).wf(),
        ensures
            final(self).wf(),
            r == old(self).neurons@.len(),
            final(self).connections@ == old(self).connections@,
            final(self).neurons@.len() == r + 1,
            forall|i: int| 0 <= i < r ==> final(self).neurons@[i] == old(self).neurons@[i],
            final(self).neurons@[r as int].id@ == id@,
            final(self).neurons@[r as int].activation == 0,
            final(self).neurons@[r as int].counter == 1,
            final(self).neurons@[r as int].is_sensor == is_sensor,
            final(self).neurons@[r as int].data_type == value@.0,
            final(self).neurons@[r as int].value@ == value@,
    {
        let data_type = value.data_type();
        let h = self.neurons.len();
        self.neurons.push(Neuron { id, activation: 0, counter: 1, is_sensor, data_type, value });
        h
    }

    /// Counts one more occurrence of a node's value (saturating).
    pub fn count_occurrence(&mut self, h: usize)
        requires
            old(self).wf(),
            h < old(self).neurons@.len(),
        ensures
            final(self).wf(),
            final(self).connections@ == old(self).connections@,
            final(self).neurons@.len() == old(self).neurons@.len(),
            final(self).neurons@[h as int].counter == if old(self).neurons@[h as int].counter
                == u64::MAX {
                u64::MAX as int
            } else {
                old(self).neurons@[h as int].counter + 1
            },
            final(self).neurons@[h as int].activation == old(self).neurons@[h as int].activation,
            final(self).neurons@[h as int].id == old(self).neurons@[h as int].id,
            final(self).neurons@[h as int].is_sensor == old(self).neurons@[h as int].is_sensor,
            final(self).neurons@[h as int].data_type == old(self).neurons@[h as int].data_type,
            final(self).neurons@[h as int].value == old(self).neurons@[h as int].value,
            forall|i: int|
                0 <= i < old(self).neurons@.len() && i != h ==> final(self).neurons@[i]
                    == old(self).neurons@[i],
    {
        let c = self.neurons[h].counter;
        if c < u64::MAX {
            self.neurons[h].counter = c + 1;
        }
    }

    /// The weight of edge `e`, in millionths.
    pub fn weight(&self, e: usize) -> (r: u32)
        requires
            self.wf(),
            e < self.connections@.len(),
        ensures
            r == self.weight_of(e as int),
            r <= FULL,
    {
        let c = self.connections[e];
        match c.kind {
            ConnectionKind::Defining => {
                let k = self.neurons[c.to].counter;
                let q = (FULL as u64) / k;
                assert(q <= FULL) by (nonlinear_arith)
                    requires
                        q == 1_000_000int / k as int,
                        k >= 1,
                ;
                q as u32
            },
            _ => c.weight,
        }
    }

    /// The identities of the two ends of edge `e`.
    pub fn connection_id(&self, e: usize) -> (r: ConnectionID)
        requires
            self.wf(),
            e < self.connections@.len(),
        ensures
            r.from@ == self.neurons@[self.connections@[e as int].from as int].id@,
            r.to@ == self.neurons@[self.connections@[e as int].to as int].id@,
    {
        let c = self.connections[e];
        ConnectionID { from: self.neurons[c.from].id.duplicate(), to: self.neurons[c.to].id.duplicate() }
    }

    /// Adds the edge `from -> to` of `kind`; `weight` is in millionths and is
    /// not used by a `Defining` edge. Fails with `NotFound` for a handle the
    /// graph does not hold, and with `InvalidConnection` for a self-loop, a
    /// weight above [`FULL`], or an edge of that kind already between the pair.
    pub fn connect(&mut self, from: usize, to: usize, kind: ConnectionKind, weight: u32) -> (r: Result<usize, ErrorKind>)
        requires
            old(self).wf(),
        ensures
            final(self).wf(),
            (r == Err::<usize, ErrorKind>(ErrorKind::NotFound)) <==> (from >= old(self).neurons@.len()
                || to >= old(self).neurons@.len()),
            (r == Err::<usize, ErrorKind>(ErrorKind::InvalidConnection)) <==> (from < old(
                self,
            ).neurons@.len() && to < old(self).neurons@.len() && (from == to || weight > FULL
                || exists|e: int|
                0 <= e < old(self).connections@.len() && #[trigger] old(self).connections@[e]
                    == (Connection { from, to, kind, weight: old(self).connections@[e].weight }))),
            r is Err ==> final(self).unchanged(old(self)),
            r is Err ==> r == Err::<usize, ErrorKind>(ErrorKind::NotFound) || r == Err::<usize, ErrorKind>(
                ErrorKind::InvalidConnection,
            ),
            r matches Ok(e) ==> {
                &&& e == old(self).connections@.len()
                &&& final(self).neurons@ == old(self).neurons@
                &&& final(self).connections@ == old(self).connections@.push(
                    Connection { from, to, kind, weight },
                )
            },
    {
        let n = self.neurons.len();
        if from >= n || to >= n {
            return Err(ErrorKind::NotFound);
        }
        if from == to || weight > FULL {
            return Err(ErrorKind::InvalidConnection);
        }
        let m = self.connections.len();
        let mut e: usize = 0;
        while e < m
            invariant
                self.unchanged(old(self)),
                old(self).wf(),
                n == self.neurons@.len(),
                from < n,
                to < n,
                m == self.connections@.len(),
                e <= m,
                forall|f: int|
                    0 <= f < e ==> !(#[trigger] self.connections@[f] == (Connection {
                        from,
                        to,
                        kind,
                        weight: self.connections@[f].weight,
                    })),
            decreases m - e,
        {
            let c = self.connections[e];
            if c.from == from && c.to == to && c.kind == kind {
                assert(self.connections@[e as int] == (Connection { from, to, kind, weight: c.weight }));
                return Err(ErrorKind::InvalidConnection);
            }
            e = e + 1;
        }
        self.connections.push(Connection { from, to, kind, weight });
        proof {
            let cs = self.connections@;
            assert forall|e1: int, e2: int| 0 <= e1 < e2 < cs.len() implies {
                let a = #[trigger] cs[e1];
                let b = #[trigger] cs[e2];
                !(a.from == b.from && a.to == b.to && a.kind == b.kind)
            } by {
                if e2 == cs.len() - 1 {
                    assert(cs[e1] == old(self).connections@[e1]);
                    if cs[e1].from == from && cs[e1].to == to && cs[e1].kind == kind {
                        assert(old(self).connections@[e1] == (Connection { from, to, kind, weight: cs[e1].weight }));
                    }
                } else {
                    assert(cs[e1] == old(self).connections@[e1]);
                    assert(cs[e2] == old(self).connections@[e2]);
                }
            }
            assert forall|f: int| 0 <= f < cs.len() implies {
                let c = #[trigger] cs[f];
                &&& c.from < self.neurons@.len()
                &&& c.to < self.neurons@.len()
                &&& c.from != c.to
                &&& c.weight <= FULL
            } by {
                if f < cs.len() - 1 {
                    assert(cs[f] == old(self).connections@[f]);
                }
            }
        }
        Ok(m)
    }


    /// What `activate` leaves: `after` differs from this graph in activations
    /// only; `r` traces the walk from `start`, holds exactly the nodes that it
    /// reaches, starts with the saturated `signal` and passes each signal on
    /// along its edge; each node of `r` has taken in its signal, and no other
    /// node has changed.
    pub open spec fn activated(&self, after: &Network, start: int, signal: int, w: Walk, r: Seq<Stimulus>) -> bool {
        &&& after.same_shape(self)
        &&& self.traces(w, start, r)
        &&& forall|t: int| covers(r, t) <==> self.reaches(w, start, t)
        &&& r[0].signal == clamp_signal(signal)
        &&& self.carries(r)
        &&& forall|i: int|
            0 <= i < r.len() ==> after.neurons@[(#[trigger] r[i]).neuron as int].activation
                == combined(self.neurons@[r[i].neuron as int].activation as int, r[i].signal as int)
        &&& forall|t: int|
            0 <= t < self.neurons@.len() && !covers(r, t) ==> after.neurons@[t].activation
                == self.neurons@[t].activation
    }

    /// What `deactivate` leaves: `after` differs from this graph in
    /// activations only; the nodes that the walk reaches from `start` are
    /// dormant, the others unchanged.
    pub open spec fn deactivated(&self, after: &Network, start: int, w: Walk) -> bool {
        &&& after.same_shape(self)
        &&& forall|t: int|
            0 <= t < self.neurons@.len() ==> after.neurons@[t].activation == if self.reaches(w, start, t) {
                0
            } else {
                self.neurons@[t].activation as int
            }
    }

    /// Each later entry of `r` carries the signal that its edge passes on from
    /// the entry it came from.
    pub open spec fn carries(&self, r: Seq<Stimulus>) -> bool {
        forall|i: int|
            0 < i < r.len() ==> (#[trigger] r[i]).signal == passed(
                r[r[i].source as int].signal as int,
                self.weight_of(r[i].via as int),
                self.connections@[r[i].via as int].kind,
            )
    }

    /// Computes the signal of each entry of a traversal from that of the
    /// entry it came from, the first taking `signal`.
    fn propagate(&self, w: Walk, start: usize, r: &mut Vec<Stimulus>, signal: i64)
        requires
            self.wf(),
            self.traces(w, start as int, old(r)@),
            -(FULL as int) <= signal <= FULL,
        ensures
            self.traces(w, start as int, final(r)@),
            final(r)@.len() == old(r)@.len(),
            forall|i: int| 0 <= i < final(r)@.len() ==> (#[trigger] final(r)@[i]).neuron == old(r)@[i].neuron,
            final(r)@[0].signal == signal,
            self.carries(final(r)@),
            forall|i: int|
                0 <= i < final(r)@.len() ==> -(FULL as int) <= (#[trigger] final(r)@[i]).signal <= FULL,
    {
        let first = r[0];
        r.set(0, Stimulus { neuron: first.neuron, signal, source: first.source, via: first.via });
        let ghost r0 = old(r)@;
        let mut i: usize = 1;
        while i < r.len()
            invariant
                self.wf(),
                1 <= i <= r@.len(),
                r@.len() == r0.len(),
                forall|j: int| 0 <= j < r@.len() ==> (#[trigger] r@[j]).neuron == r0[j].neuron
                    && r@[j].source == r0[j].source && r@[j].via == r0[j].via,
                self.traces(w, start as int, r0),
                r@[0].signal == signal,
                forall|j: int|
                    0 < j < i ==> (#[trigger] r@[j]).signal == passed(
                        r@[r@[j].source as int].signal as int,
                        self.weight_of(r@[j].via as int),
                        self.connections@[r@[j].via as int].kind,
                    ),
                forall|j: int| 0 <= j < i ==> -(FULL as int) <= (#[trigger] r@[j]).signal <= FULL,
            decreases r@.len() - i,
        {
            let x = r[i];
            assert(r0[i as int].source < i);
            let from_signal = r[x.source].signal;
            let c = self.connections[x.via];
            let scaled_signal = scale(from_signal, self.weight(x.via));
            let out = if c.kind == ConnectionKind::Inhibitory {
                -scaled_signal
            } else {
                scaled_signal
            };
            let ghost before = r@;
            r.set(i, Stimulus { neuron: x.neuron, signal: out, source: x.source, via: x.via });
            proof {
                assert forall|j: int| 0 < j < i + 1 implies (#[trigger] r@[j]).signal == passed(
                    r@[r@[j].source as int].signal as int,
                    self.weight_of(r@[j].via as int),
                    self.connections@[r@[j].via as int].kind,
                ) by {
                    assert(r0[j].source < j);
                    if j < i {
                        assert(r@[j] == before[j]);
                        assert(r@[r@[j].source as int] == before[before[j].source as int]);
                    }
                }
            }
            i = i + 1;
        }
        proof {
            assert forall|j: int| 0 <= j < r@.len() implies (#[trigger] r@[j]).neuron < self.neurons@.len() by {
                assert(r@[j].neuron == r0[j].neuron);
            }
            assert forall|a: int, b: int| 0 <= a < b < r@.len() implies (#[trigger] r@[a]).neuron
                != (#[trigger] r@[b]).neuron by {
                assert(r@[a].neuron == r0[a].neuron && r@[b].neuron == r0[b].neuron);
            }
            assert forall|j: int| 0 < j < r@.len() implies {
                let x = #[trigger] r@[j];
                &&& x.source < j
                &&& x.via < self.connections@.len()
                &&& self.admits(w, x.via as int)
                &&& self.tail(w, x.via as int) == r@[x.source as int].neuron
                &&& self.head(w, x.via as int) == x.neuron
            } by {
                assert(r@[j].neuron == r0[j].neuron);
                let y = r0[j];
                assert(r@[y.source as int].neuron == r0[y.source as int].neuron);
            }
        }
    }

    /// Sets the activation of each node of `r` to what it becomes on taking in
    /// the entry's signal.
    fn apply(&mut self, r: &Vec<Stimulus>)
        requires
            old(self).wf(),
            forall|i: int| 0 <= i < r@.len() ==> (#[trigger] r@[i]).neuron < old(self).neurons@.len(),
            forall|i: int, j: int|
                0 <= i < j < r@.len() ==> (#[trigger] r@[i]).neuron != (#[trigger] r@[j]).neuron,
            forall|i: int| 0 <= i < r@.len() ==> -(FULL as int) <= (#[trigger] r@[i]).signal <= FULL,
        ensures
            final(self).wf(),
            final(self).same_shape(old(self)),
            forall|i: int|
                0 <= i < r@.len() ==> final(self).neurons@[(#[trigger] r@[i]).neuron as int].activation
                    == combined(old(self).neurons@[r@[i].neuron as int].activation as int, r@[i].signal as int),
            forall|t: int|
                0 <= t < old(self).neurons@.len() && !covers(r@, t) ==> final(self).neurons@[t].activation
                    == old(self).neurons@[t].activation,
    {
        let mut i: usize = 0;
        while i < r.len()
            invariant
                self.wf(),
                self.same_shape(old(self)),
                i <= r@.len(),
                forall|k: int| 0 <= k < r@.len() ==> (#[trigger] r@[k]).neuron < old(self).neurons@.len(),
                forall|a: int, b: int|
                    0 <= a < b < r@.len() ==> (#[trigger] r@[a]).neuron != (#[trigger] r@[b]).neuron,
                forall|k: int| 0 <= k < r@.len() ==> -(FULL as int) <= (#[trigger] r@[k]).signal <= FULL,
                forall|k: int|
                    0 <= k < i ==> self.neurons@[(#[trigger] r@[k]).neuron as int].activation
                        == combined(old(self).neurons@[r@[k].neuron as int].activation as int, r@[k].signal as int),
                forall|t: int|
                    0 <= t < old(self).neurons@.len() && !(exists|k: int| 0 <= k < i && r@[k].neuron == t)
                        ==> #[trigger] self.neurons@[t].activation == old(self).neurons@[t].activation,
            decreases r@.len() - i,
        {
            let x = r[i];
            let k = x.neuron;
            let a = self.neurons[k].activation;
            assert(a == old(self).neurons@[k as int].activation) by {
                assert forall|j: int| 0 <= j < i implies r@[j].neuron != k by {
                    assert(r@[j].neuron != r@[i as int].neuron);
                }
            }
            let ghost before = self.neurons@;
            self.neurons[k].activation = combine(a, x.signal);
            proof {
                assert forall|j: int| 0 <= j < self.neurons@.len() && j != k implies #[trigger] self.neurons@[j]
                    == before[j] by {}
                assert forall|j: int| 0 <= j < i implies self.neurons@[(#[trigger] r@[j]).neuron as int]
                    == before[r@[j].neuron as int] by {
                    assert(r@[j].neuron != r@[i as int].neuron);
                }
            }
            i = i + 1;
        }
        proof {
            assert forall|t: int| 0 <= t < old(self).neurons@.len() && !covers(r@, t) implies
                final(self).neurons@[t].activation == old(self).neurons@[t].activation by {
                assert(!(exists|k: int| 0 <= k < i && r@[k].neuron == t));
            }
        }
    }

    /// Stimulates node `start` with `signal` (in millionths; beyond full strength
    /// either way it counts as full strength) and spreads it along the edges
    /// of the enabled direction classes, each node reached once. Returns every
    /// node touched, `start` first, with the signal it took in.
    pub fn activate(&mut self, start: usize, signal: i64, propagate_horizontal: bool, propagate_vertical: bool) -> (r: Result<Vec<Stimulus>, ErrorKind>)
        requires
            old(self).wf(),
        ensures
            final(self).wf(),
            r is Err <==> start >= old(self).neurons@.len(),
            r is Err ==> r == Err::<Vec<Stimulus>, ErrorKind>(ErrorKind::NotFound) && final(self).unchanged(old(self)),
            r matches Ok(r) ==> old(self).activated(
                final(self),
                start as int,
                signal as int,
                Walk::Forward { horizontal: propagate_horizontal, vertical: propagate_vertical },
                r@,
            ),
    {
        if start >= self.neurons.len() {
            return Err(ErrorKind::NotFound);
        }
        let w = Walk::Forward { horizontal: propagate_horizontal, vertical: propagate_vertical };
        let mut r = self.discover(w, start);
        let ghost found = r@;
        self.propagate(w, start, &mut r, clamp(signal));
        proof {
            Self::lemma_same_nodes(r@, found);
        }
        self.apply(&r);
        Ok(r)
    }


    /// Sets to zero the activation of each node of `r`.
    fn silence(&mut self, r: &Vec<Stimulus>)
        requires
            old(self).wf(),
            forall|i: int| 0 <= i < r@.len() ==> (#[trigger] r@[i]).neuron < old(self).neurons@.len(),
        ensures
            final(self).wf(),
            final(self).same_shape(old(self)),
            forall|t: int|
                0 <= t < old(self).neurons@.len() ==> final(self).neurons@[t].activation == if covers(r@, t) {
                    0
                } else {
                    old(self).neurons@[t].activation as int
                },
    {
        let mut i: usize = 0;
        while i < r.len()
            invariant
                self.wf(),
                self.same_shape(old(self)),
                i <= r@.len(),
                forall|k: int| 0 <= k < r@.len() ==> (#[trigger] r@[k]).neuron < old(self).neurons@.len(),
                forall|t: int|
                    0 <= t < old(self).neurons@.len() ==> #[trigger] self.neurons@[t].activation == if (exists|k: int| 0 <= k < i && r@[k].neuron == t) {
                        0
                    } else {
                        old(self).neurons@[t].activation as int
                    },
            decreases r@.len() - i,
        {
            let k = r[i].neuron;
            let ghost before = self.neurons@;
            self.neurons[k].activation = 0;
            proof {
                assert forall|t: int| 0 <= t < old(self).neurons@.len() implies #[trigger] self.neurons@[t].activation == if (exists|j: int| 0 <= j < i + 1 && r@[j].neuron == t) {
                    0
                } else {
                    old(self).neurons@[t].activation as int
                } by {
                    if t != k {
                        assert(self.neurons@[t] == before[t]);
                        if exists|j: int| 0 <= j < i + 1 && r@[j].neuron == t {
                            let j = choose|j: int| 0 <= j < i + 1 && r@[j].neuron == t;
                            assert(j != i);
                        }
                    } else {
                        assert(r@[i as int].neuron == t);
                    }
                }
            }
            i = i + 1;
        }
    }

    /// Sets to zero the activation of node `start` and of every node that the
    /// edges of the enabled direction classes lead to from it; no other node
    /// changes.
    pub fn deactivate(&mut self, start: usize, propagate_horizontal: bool, propagate_vertical: bool) -> (r: Result<(), ErrorKind>)
        requires
            old(self).wf(),
        ensures
            final(self).wf(),
            r is Err <==> start >= old(self).neurons@.len(),
            r is Err ==> r == Err::<(), ErrorKind>(ErrorKind::NotFound) && final(self).unchanged(old(self)),
            r is Ok ==> old(self).deactivated(
                final(self),
                start as int,
                Walk::Forward { horizontal: propagate_horizontal, vertical: propagate_vertical },
            ),
    {
        if start >= self.neurons.len() {
            return Err(ErrorKind::NotFound);
        }
        let w = Walk::Forward { horizontal: propagate_horizontal, vertical: propagate_vertical };
        let r = self.discover(w, start);
        self.silence(&r);
        proof {
            assert forall|t: int| 0 <= t < old(self).neurons@.len() implies final(self).neurons@[t].activation
                == if old(self).reaches(w, start as int, t) {
                0
            } else {
                old(self).neurons@[t].activation as int
            } by {
                assert(covers(r@, t) <==> old(self).reaches(w, start as int, t));
            }
        }
        Ok(())
    }

    /// The sensor-level nodes that justify the current activation of node
    /// `start` (see [`Network::justifies`]), each once; empty for a dormant node.
    pub fn explain(&self, start: usize) -> (r: Result<Vec<usize>, ErrorKind>)
        requires
            self.wf(),
        ensures
            r is Err <==> start >= self.neurons@.len(),
            r is Err ==> r == Err::<Vec<usize>, ErrorKind>(ErrorKind::NotFound),
            r matches Ok(v) ==> {
                &&& forall|t: usize| v@.contains(t) <==> self.justifies(start as int, t as int)
                &&& v@.no_duplicates()
            },
    {
        if start >= self.neurons.len() {
            return Err(ErrorKind::NotFound);
        }
        let mut out: Vec<usize> = Vec::new();
        if self.neurons[start].activation == 0 {
            proof {
                assert forall|t: usize| out@.contains(t) <==> self.justifies(start as int, t as int) by {}
            }
            return Ok(out);
        }
        let r = self.discover(Walk::Justify, start);
        let mut i: usize = 1;
        while i < r.len()
            invariant
                self.wf(),
                start < self.neurons@.len(),
                self.neurons@[start as int].activation > 0,
                self.traces(Walk::Justify, start as int, r@),
                forall|t: int| covers(r@, t) <==> self.reaches(Walk::Justify, start as int, t),
                1 <= i <= r@.len(),
                out@.no_duplicates(),
                forall|t: usize|
                    #[trigger] out@.contains(t) <==> (exists|k: int|
                        1 <= k < i && r@[k].neuron == t && self.neurons@[t as int].is_sensor),
            decreases r@.len() - i,
        {
            let k = r[i].neuron;
            if self.neurons[k].is_sensor {
                proof {
                    if out@.contains(k) {
                        let j = choose|j: int| 1 <= j < i && r@[j].neuron == k && self.neurons@[k as int].is_sensor;
                        assert(r@[j].neuron != r@[i as int].neuron);
                    }
                }
                let ghost before = out@;
                out.push(k);
                proof {
                    assert forall|t: usize| #[trigger] out@.contains(t) <==> (exists|j: int|
                        1 <= j < i + 1 && r@[j].neuron == t && self.neurons@[t as int].is_sensor) by {
                        if out@.contains(t) && t != k {
                            let x = choose|x: int| 0 <= x < out@.len() && out@[x] == t;
                            assert(before[x] == t);
                            assert(before.contains(t));
                            let j = choose|j: int| 1 <= j < i && r@[j].neuron == t && self.neurons@[t as int].is_sensor;
                            assert(1 <= j < i + 1);
                        }
                        if t == k {
                            assert(out@[out@.len() - 1] == k);
                            assert(1 <= i < i + 1 && r@[i as int].neuron == t && self.neurons@[t as int].is_sensor);
                        } else if exists|j: int| 1 <= j < i + 1 && r@[j].neuron == t && self.neurons@[t as int].is_sensor {
                            let j = choose|j: int| 1 <= j < i + 1 && r@[j].neuron == t && self.neurons@[t as int].is_sensor;
                            assert(before.contains(t));
                            let x = choose|x: int| 0 <= x < before.len() && before[x] == t;
                            assert(out@[x] == t);
                        }
                    }
                }
            } else {
                proof {
                    assert forall|t: usize| #[trigger] out@.contains(t) <==> (exists|j: int|
                        1 <= j < i + 1 && r@[j].neuron == t && self.neurons@[t as int].is_sensor) by {
                        if exists|j: int| 1 <= j < i + 1 && r@[j].neuron == t && self.neurons@[t as int].is_sensor {
                            let j = choose|j: int| 1 <= j < i + 1 && r@[j].neuron == t && self.neurons@[t as int].is_sensor;
                            assert(j != i);
                        }
                    }
                }
            }
            i = i + 1;
        }
        proof {
            assert forall|t: usize| out@.contains(t) <==> self.justifies(start as int, t as int) by {
                if self.justifies(start as int, t as int) {
                    assert(covers(r@, t as int));
                    let k = choose|k: int| 0 <= k < r@.len() && r@[k].neuron == t;
                    assert(k != 0);
                }
                if out@.contains(t) {
                    let k = choose|k: int| 1 <= k < i && r@[k].neuron == t && self.neurons@[t as int].is_sensor;
                    assert(covers(r@, t as int));
                }
            }
        }
        Ok(out)
    }

    /// The raw value that node `h` stands for, where the node belongs to the
    /// scope named `parent`; `None` otherwise or for a handle the graph does not hold.
    pub fn explain_one(&self, h: usize, parent: &str) -> (r: Option<DataTypeValue>)
        ensures
            r is Some <==> h < self.neurons@.len() && self.neurons@[h as int].id.parent_id@ == parent@,
            r matches Some(v) ==> v@ == self.neurons@[h as int].value@,
    {
        if h >= self.neurons.len() {
            return None;
        }
        let scope = String::from_str(parent);
        if self.neurons[h].id.parent_id == scope {
            Some(self.neurons[h].value.duplicate())
        } else {
            None
        }
    }

}

} // verus!
