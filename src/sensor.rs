use vstd::prelude::*;

use crate::connection::{Connection, ConnectionKind};
use crate::data::{DataCategory, DataDeductor, DataType, DataTypeValue, distance_of, text_of};
use crate::error::ErrorKind;
use crate::network::{Network, Stimulus, Walk};
use crate::neuron::{FULL, NeuronID};

verus! {

/// The weight of a similarity edge between values at distance `d`, for a
/// sensor whose threshold is `t`: full strength shrinking linearly with the
/// distance, to `1 / (t + 1)` of it at the threshold.
pub open spec fn similarity_weight(d: int, t: int) -> int {
    (FULL as int) * (t + 1 - d) / (t + 1)
}

/// A named, typed entry point that interns values into nodes of a network:
/// one node per distinct value.
pub struct Sensor {
    pub name: String,
    pub data_type: DataType,
    pub data_category: DataCategory,
    /// Values of a numerical or ordinal sensor at most this far apart get
    /// similarity edges between their nodes; zero (the default) makes none.
    pub similarity_threshold: u64,
    /// The handles of this sensor's nodes, in order of insertion.
    pub neurons: Vec<usize>,
}

impl Sensor {
    /// The sensor's nodes lie in `net`, are sensor-level nodes of its kind
    /// scoped by its name, and hold distinct values.
    pub open spec fn wf(&self, net: &Network) -> bool {
        &&& net.wf()
        &&& forall|i: int|
            0 <= i < self.neurons@.len() ==> {
                let h = #[trigger] self.neurons@[i];
                &&& h < net.neurons@.len()
                &&& net.neurons@[h as int].is_sensor
                &&& net.neurons@[h as int].value@.0 == self.data_type
                &&& net.neurons@[h as int].id.parent_id@ == self.name@
            }
        &&& forall|i: int, j: int|
            0 <= i < j < self.neurons@.len() ==> net.neurons@[(#[trigger] self.neurons@[i]) as int].value@
                != net.neurons@[(#[trigger] self.neurons@[j]) as int].value@
    }

    /// Name, kind, category and threshold are those of `other`.
    pub open spec fn same_setup(&self, other: &Sensor) -> bool {
        &&& self.name@ == other.name@
        &&& self.data_type == other.data_type
        &&& self.data_category == other.data_category
        &&& self.similarity_threshold == other.similarity_threshold
    }

    /// The value of the sensor's `i`-th node.
    pub open spec fn value_at(&self, net: &Network, i: int) -> (DataType, int, Seq<char>) {
        net.neurons@[self.neurons@[i] as int].value@
    }

    /// The sensor has a node for `v`.
    pub open spec fn holds(&self, net: &Network, v: (DataType, int, Seq<char>)) -> bool {
        exists|i: int| 0 <= i < self.neurons@.len() && #[trigger] self.value_at(net, i) == v
    }

    /// The similarity edges that a new node `h` for `v` gets, both ways, with
    /// the first `k` nodes of the sensor: one pair for each node whose value is
    /// at a distance from one to the threshold; none for a categorical sensor.
    pub open spec fn links(&self, net: &Network, v: (DataType, int, Seq<char>), h: usize, k: int) -> Seq<Connection>
        decreases k,
    {
        if k <= 0 || self.data_category == DataCategory::Categorical {
            Seq::empty()
        } else {
            let prev = self.links(net, v, h, k - 1);
            let g = self.neurons@[k - 1];
            match distance_of(v, net.neurons@[g as int].value@) {
                Some(d) => if 0 < d <= self.similarity_threshold {
                    let w = similarity_weight(d, self.similarity_threshold as int) as u32;
                    prev + seq![
                        Connection { from: h, to: g, kind: ConnectionKind::Similarity, weight: w },
                        Connection { from: g, to: h, kind: ConnectionKind::Similarity, weight: w },
                    ]
                } else {
                    prev
                },
                None => prev,
            }
        }
    }

    /// What `insert` of a value `v` does, from this sensor and `net` to
    /// `after` and `after_net`, returning `r`: a value of another kind is
    /// refused; a value the sensor holds has its node's counter raised (up to
    /// `u64::MAX`); a new value gets a dormant sensor-level node with counter
    /// one, its text as identity in the sensor's scope, and its similarity edges.
    pub open spec fn inserted(
        &self,
        net: &Network,
        after: &Sensor,
        after_net: &Network,
        v: (DataType, int, Seq<char>),
        r: Result<usize, ErrorKind>,
    ) -> bool {
        &&& after.same_setup(self)
        &&& if v.0 != self.data_type {
            &&& r == Err::<usize, ErrorKind>(ErrorKind::TypeMismatch)
            &&& after.neurons@ == self.neurons@
            &&& after_net.unchanged(net)
        } else if self.holds(net, v) {
            &&& r is Ok
            &&& after.neurons@ == self.neurons@
            &&& after_net.connections@ == net.connections@
            &&& after_net.neurons@.len() == net.neurons@.len()
            &&& exists|i: int|
                0 <= i < self.neurons@.len() && #[trigger] self.neurons@[i] == r->Ok_0 && self.value_at(net, i) == v
            &&& {
                let h = r->Ok_0 as int;
                let a = after_net.neurons@[h];
                let b = net.neurons@[h];
                &&& a.counter == if b.counter == u64::MAX {
                    u64::MAX as int
                } else {
                    b.counter + 1
                }
                &&& a.activation == b.activation
                &&& a.id@ == b.id@
                &&& a.is_sensor == b.is_sensor
                &&& a.data_type == b.data_type
                &&& a.value@ == b.value@
                &&& forall|t: int| 0 <= t < net.neurons@.len() && t != h ==> after_net.neurons@[t] == net.neurons@[t]
            }
        } else {
            let h = r->Ok_0;
            &&& r is Ok
            &&& h == net.neurons@.len()
            &&& after.neurons@ == self.neurons@.push(h)
            &&& after_net.neurons@.len() == h + 1
            &&& forall|t: int| 0 <= t < h ==> after_net.neurons@[t] == net.neurons@[t]
            &&& after_net.neurons@[h as int].id@ == (text_of(v), self.name@)
            &&& after_net.neurons@[h as int].activation == 0
            &&& after_net.neurons@[h as int].counter == 1
            &&& after_net.neurons@[h as int].is_sensor
            &&& after_net.neurons@[h as int].data_type == v.0
            &&& after_net.neurons@[h as int].value@ == v
            &&& after_net.connections@ == net.connections@ + self.links(
                net,
                v,
                h,
                self.neurons@.len() as int,
            )
        }
    }

    /// A sensor named `name` for values of kind `data_type`, treated as
    /// `data_category`; it holds no values yet and makes no similarity edges.
    pub fn new(name: &str, data_type: DataType, data_category: DataCategory) -> (r: Sensor)
        ensures
            r.name@ == name@,
            r.data_type == data_type,
            r.data_category == data_category,
            r.similarity_threshold == 0,
            r.neurons@.len() == 0,
    {
        Sensor {
            name: String::from_str(name),
            data_type,
            data_category,
            similarity_threshold: 0,
            neurons: Vec::new(),
        }
    }

    /// The same sensor with the given similarity threshold.
    pub fn with_similarity_threshold(self, threshold: u64) -> (r: Sensor)
        ensures
            r.name == self.name,
            r.data_type == self.data_type,
            r.data_category == self.data_category,
            r.similarity_threshold == threshold,
            r.neurons == self.neurons,
    {
        Sensor { similarity_threshold: threshold, ..self }
    }

    /// The sensor's name.
    pub fn id(&self) -> (r: String)
        ensures
            r@ == self.name@,
    {
        self.name.clone()
    }

    /// The kind of value the sensor takes.
    pub fn data_type(&self) -> (r: DataType)
        ensures
            r == self.data_type,
    {
        self.data_type
    }

    /// The category the sensor treats its values as.
    pub fn data_category(&self) -> (r: DataCategory)
        ensures
            r == self.data_category,
    {
        self.data_category
    }

    /// The node that holds `value`, if the sensor has one; changes nothing.
    pub fn search(&self, net: &Network, value: &DataTypeValue) -> (r: Option<usize>)
        requires
            self.wf(net),
        ensures
            r is Some <==> self.holds(net, value@),
            r matches Some(h) ==> exists|i: int|
                0 <= i < self.neurons@.len() && #[trigger] self.neurons@[i] == h && self.value_at(net, i) == value@,
    {
        let mut i: usize = 0;
        while i < self.neurons.len()
            invariant
                self.wf(net),
                i <= self.neurons@.len(),
                forall|j: int| 0 <= j < i ==> #[trigger] self.value_at(net, j) != value@,
            decreases self.neurons@.len() - i,
        {
            let h = self.neurons[i];
            if let Ok(true) = value.equals(&net.neurons[h].value) {
                assert(self.value_at(net, i as int) == value@);
                return Some(h);
            }
            i = i + 1;
        }
        None
    }

    fn similarity(&self, d: u128) -> (r: u32)
        requires
            d <= self.similarity_threshold,
        ensures
            r == similarity_weight(d as int, self.similarity_threshold as int),
            r <= FULL,
    {
        let t: u128 = self.similarity_threshold as u128 + 1;
        let span: u128 = t - d;
        assert((FULL as u128) * span <= 1_000_000 * 0x1_0000_0000_0000_0000u128) by (nonlinear_arith)
            requires
                span <= 0x1_0000_0000_0000_0000u128,
        ;
        let q = (FULL as u128) * span / t;
        assert(q <= FULL) by (nonlinear_arith)
            requires
                q == 1_000_000 * (span as int) / (t as int),
                span <= t,
                t >= 1,
        ;
        q as u32
    }

    /// Adds the similarity edges of a new node `h` for `value` (see [`Sensor::links`]).
    fn link_similar(&self, net: &mut Network, h: usize, value: &DataTypeValue)
        requires
            self.wf(old(net)),
            h == old(net).neurons@.len() - 1,
            value@.0 == self.data_type,
            !self.holds(old(net), value@),
            forall|i: int| 0 <= i < self.neurons@.len() ==> #[trigger] self.neurons@[i] < h,
            forall|e: int|
                0 <= e < old(net).connections@.len() ==> (#[trigger] old(net).connections@[e]).from < h
                    && old(net).connections@[e].to < h,
        ensures
            final(net).wf(),
            final(net).neurons@ == old(net).neurons@,
            final(net).connections@ == old(net).connections@ + self.links(
                old(net),
                value@,
                h,
                self.neurons@.len() as int,
            ),
    {
        let ghost net0 = *old(net);
        let ghost base = old(net).connections@;
        let mut i: usize = 0;
        while i < self.neurons.len()
            invariant
                self.wf(&net0),
                net.wf(),
                h == net0.neurons@.len() - 1,
                value@.0 == self.data_type,
                !self.holds(&net0, value@),
                forall|j: int| 0 <= j < self.neurons@.len() ==> #[trigger] self.neurons@[j] < h,
                net.neurons@ == net0.neurons@,
                base == net0.connections@,
                i <= self.neurons@.len(),
                forall|e: int| 0 <= e < base.len() ==> (#[trigger] base[e]).from < h && base[e].to < h,
                net.connections@ == base + self.links(&net0, value@, h, i as int),
                forall|e: int|
                    base.len() <= e < net.connections@.len() ==> {
                        let c = #[trigger] net.connections@[e];
                        (c.from == h && exists|j: int| 0 <= j < i && self.neurons@[j] == c.to) || (c.to == h
                            && exists|j: int| 0 <= j < i && self.neurons@[j] == c.from)
                    },
            decreases self.neurons@.len() - i,
        {
            proof {
                self.lemma_links_step(&net0, value@, h, i as int + 1);
            }
            let g = self.neurons[i];
            if self.data_category != DataCategory::Categorical {
                if let Some(d) = value.distance(&net.neurons[g].value) {
                    if 0 < d && d <= self.similarity_threshold as u128 {
                        let w = self.similarity(d);
                        let ghost before = net.connections@;
                        proof {
                            self.lemma_no_edge(&net0, net, base, h, g, i as int);
                        }
                        let first = net.connect(h, g, ConnectionKind::Similarity, w);
                        let ghost middle = net.connections@;
                        proof {
                            assert(middle == before.push(Connection { from: h, to: g, kind: ConnectionKind::Similarity, weight: w }));
                            assert forall|e: int| 0 <= e < middle.len() implies !((#[trigger] middle[e]).from == g && middle[e].to == h) by {
                                if e < before.len() {
                                    assert(middle[e] == before[e]);
                                }
                            }
                        }
                        let second = net.connect(g, h, ConnectionKind::Similarity, w);
                        proof {
                            let pair = seq![
                                Connection { from: h, to: g, kind: ConnectionKind::Similarity, weight: w },
                                Connection { from: g, to: h, kind: ConnectionKind::Similarity, weight: w },
                            ];
                            assert(net.connections@ =~= before + pair);
                            assert(net.connections@ =~= base + (self.links(&net0, value@, h, i as int) + pair));
                            assert forall|e: int| base.len() <= e < net.connections@.len() implies {
                                let c = #[trigger] net.connections@[e];
                                (c.from == h && exists|j: int| 0 <= j < i + 1 && self.neurons@[j] == c.to) || (c.to
                                    == h && exists|j: int| 0 <= j < i + 1 && self.neurons@[j] == c.from)
                            } by {
                                if e < before.len() {
                                    assert(net.connections@[e] == before[e]);
                                } else {
                                    assert(self.neurons@[i as int] == g);
                                }
                            }
                        }
                        i = i + 1;
                        continue;
                    }
                }
            }
            proof {
                assert forall|e: int| base.len() <= e < net.connections@.len() implies {
                    let c = #[trigger] net.connections@[e];
                    (c.from == h && exists|j: int| 0 <= j < i + 1 && self.neurons@[j] == c.to) || (c.to == h
                        && exists|j: int| 0 <= j < i + 1 && self.neurons@[j] == c.from)
                } by {}
            }
            i = i + 1;
        }
    }

    proof fn lemma_links_step(&self, net: &Network, v: (DataType, int, Seq<char>), h: usize, k: int)
        requires
            k >= 1,
        ensures
            self.links(net, v, h, k) == if self.data_category == DataCategory::Categorical {
                Seq::<Connection>::empty()
            } else {
                let prev = self.links(net, v, h, k - 1);
                let g = self.neurons@[k - 1];
                match distance_of(v, net.neurons@[g as int].value@) {
                    Some(d) => if 0 < d <= self.similarity_threshold {
                        let w = similarity_weight(d, self.similarity_threshold as int) as u32;
                        prev + seq![
                            Connection { from: h, to: g, kind: ConnectionKind::Similarity, weight: w },
                            Connection { from: g, to: h, kind: ConnectionKind::Similarity, weight: w },
                        ]
                    } else {
                        prev
                    },
                    None => prev,
                }
            },
    {
    }

    /// While the edges of the sensor's first `i` nodes are being added, no
    /// similarity edge joins `h` and the `i`-th node.
    proof fn lemma_no_edge(&self, net0: &Network, net: &Network, base: Seq<Connection>, h: usize, g: usize, i: int)
        requires
            self.wf(net0),
            0 <= i < self.neurons@.len(),
            g == self.neurons@[i],
            h == net0.neurons@.len() - 1,
            forall|e: int| 0 <= e < base.len() ==> (#[trigger] base[e]).from < h && base[e].to < h,
            net.connections@.len() >= base.len(),
            forall|e: int| 0 <= e < base.len() ==> net.connections@[e] == base[e],
            forall|e: int|
                base.len() <= e < net.connections@.len() ==> {
                    let c = #[trigger] net.connections@[e];
                    (c.from == h && exists|j: int| 0 <= j < i && self.neurons@[j] == c.to) || (c.to == h
                        && exists|j: int| 0 <= j < i && self.neurons@[j] == c.from)
                },
        ensures
            forall|e: int|
                0 <= e < net.connections@.len() ==> !((#[trigger] net.connections@[e]).from == h
                    && net.connections@[e].to == g) && !(net.connections@[e].from == g
                    && net.connections@[e].to == h),
    {
        assert forall|e: int| 0 <= e < net.connections@.len() implies !((#[trigger] net.connections@[e]).from == h
            && net.connections@[e].to == g) && !(net.connections@[e].from == g && net.connections@[e].to == h) by {
            let c = net.connections@[e];
            if e < base.len() {
                assert(c == base[e]);
            } else {
                if c.from == h && c.to == g {
                    let j = choose|j: int| 0 <= j < i && self.neurons@[j] == c.to;
                    assert(net0.neurons@[self.neurons@[j] as int].value@ != net0.neurons@[self.neurons@[i] as int].value@);
                }
                if c.to == h && c.from == g {
                    let j = choose|j: int| 0 <= j < i && self.neurons@[j] == c.from;
                    assert(net0.neurons@[self.neurons@[j] as int].value@ != net0.neurons@[self.neurons@[i] as int].value@);
                }
            }
        }
    }

    /// Interns `value`: the node that holds it, its counter raised, or a new
    /// node with its similarity edges (see [`Sensor::inserted`]). A value of
    /// another kind than the sensor's is refused with `TypeMismatch`.
    pub fn insert(&mut self, net: &mut Network, value: &DataTypeValue) -> (r: Result<usize, ErrorKind>)
        requires
            old(self).wf(old(net)),
        ensures
            final(self).wf(final(net)),
            old(self).inserted(old(net), final(self), final(net), value@, r),
    {
        if value.data_type() != self.data_type {
            return Err(ErrorKind::TypeMismatch);
        }
        match self.search(net, value) {
            Some(h) => {
                net.count_occurrence(h);
                proof {
                    assert forall|i: int| 0 <= i < self.neurons@.len() implies net.neurons@[(#[trigger] self.neurons@[i]) as int].value@
                        == old(net).neurons@[self.neurons@[i] as int].value@ by {
                        if self.neurons@[i] != h {
                            assert(net.neurons@[self.neurons@[i] as int] == old(net).neurons@[self.neurons@[i] as int]);
                        }
                    }
                }
                Ok(h)
            },
            None => {
                let id = NeuronID { id: value.to_text(), parent_id: self.name.clone() };
                let ghost net_before = *net;
                let h = net.add_neuron(id, true, value.duplicate());
                proof {
                    assert forall|i: int| 0 <= i < self.neurons@.len() implies #[trigger] self.neurons@[i] < h by {}
                    assert forall|i: int| 0 <= i < self.neurons@.len() implies #[trigger] self.value_at(net, i)
                        == self.value_at(&net_before, i) by {}
                    assert(!self.holds(net, value@));
                    self.lemma_links_frame(&net_before, net, value@, h, self.neurons@.len() as int);
                }
                self.link_similar(net, h, value);
                let ghost old_neurons = self.neurons@;
                self.neurons.push(h);
                proof {
                    assert forall|i: int, j: int| 0 <= i < j < self.neurons@.len() implies net.neurons@[(#[trigger] self.neurons@[i]) as int].value@
                        != net.neurons@[(#[trigger] self.neurons@[j]) as int].value@ by {
                        if j == self.neurons@.len() - 1 {
                            assert(self.neurons@[i] == old_neurons[i]);
                            assert(old(self).value_at(&net_before, i) != value@);
                        } else {
                            assert(self.neurons@[i] == old_neurons[i] && self.neurons@[j] == old_neurons[j]);
                        }
                    }
                    assert forall|i: int| 0 <= i < self.neurons@.len() implies {
                        let g = #[trigger] self.neurons@[i];
                        &&& g < net.neurons@.len()
                        &&& net.neurons@[g as int].is_sensor
                        &&& net.neurons@[g as int].value@.0 == self.data_type
                        &&& net.neurons@[g as int].id.parent_id@ == self.name@
                    } by {
                        if i < old_neurons.len() {
                            assert(self.neurons@[i] == old_neurons[i]);
                        }
                    }
                }
                Ok(h)
            },
        }
    }

    /// The similarity edges depend only on the values of the sensor's nodes.
    proof fn lemma_links_frame(&self, a: &Network, b: &Network, v: (DataType, int, Seq<char>), h: usize, k: int)
        requires
            0 <= k <= self.neurons@.len(),
            forall|i: int| 0 <= i < self.neurons@.len() ==> #[trigger] self.value_at(b, i) == self.value_at(a, i),
        ensures
            self.links(a, v, h, k) == self.links(b, v, h, k),
        decreases k,
    {
        if k > 0 {
            self.lemma_links_frame(a, b, v, h, k - 1);
            assert(self.value_at(b, k - 1) == self.value_at(a, k - 1));
        }
    }

    /// Interns `value` as `insert` does, then activates its node with
    /// `signal` as [`Network::activate`] does. A value of another kind than the
    /// sensor's is refused with `TypeMismatch`, and nothing changes.
    pub fn activate(
        &mut self,
        net: &mut Network,
        value: &DataTypeValue,
        signal: i64,
        propagate_horizontal: bool,
        propagate_vertical: bool,
    ) -> (r: Result<Vec<Stimulus>, ErrorKind>)
        requires
            old(self).wf(old(net)),
        ensures
            final(self).wf(final(net)),
            r is Err <==> value@.0 != old(self).data_type,
            r is Err ==> r == Err::<Vec<Stimulus>, ErrorKind>(ErrorKind::TypeMismatch)
                && final(net).unchanged(old(net)) && final(self).neurons@ == old(self).neurons@,
            r matches Ok(r) ==> exists|mid: Network, h: usize|
                old(self).inserted(old(net), final(self), &mid, value@, Ok::<usize, ErrorKind>(h))
                    && #[trigger] mid.activated(
                    final(net),
                    h as int,
                    signal as int,
                    Walk::Forward { horizontal: propagate_horizontal, vertical: propagate_vertical },
                    r@,
                ),
    {
        let h = match self.insert(net, value) {
            Ok(h) => h,
            Err(e) => {
                return Err(e);
            },
        };
        let ghost mid = *net;
        proof {
            assert(h < net.neurons@.len()) by {
                if old(self).holds(old(net), value@) {
                    let i = choose|i: int|
                        0 <= i < old(self).neurons@.len() && #[trigger] old(self).neurons@[i] == h
                            && old(self).value_at(old(net), i) == value@;
                    assert(self.neurons@[i] == h);
                }
            }
        }
        match net.activate(h, signal, propagate_horizontal, propagate_vertical) {
            Ok(r) => {
                proof {
                    self.lemma_frame(&mid, net);
                    assert(mid.activated(
                        net,
                        h as int,
                        signal as int,
                        Walk::Forward { horizontal: propagate_horizontal, vertical: propagate_vertical },
                        r@,
                    ));
                }
                Ok(r)
            },
            Err(e) => {
                proof {
                    assert(false);
                }
                Err(e)
            },
        }
    }

    /// A change of activations alone keeps the sensor well formed.
    proof fn lemma_frame(&self, a: &Network, b: &Network)
        requires
            self.wf(a),
            b.wf(),
            b.same_shape(a),
        ensures
            self.wf(b),
    {
        assert forall|i: int, j: int| 0 <= i < j < self.neurons@.len() implies b.neurons@[(#[trigger] self.neurons@[i]) as int].value@
            != b.neurons@[(#[trigger] self.neurons@[j]) as int].value@ by {
            assert(a.neurons@[self.neurons@[i] as int].value@ != a.neurons@[self.neurons@[j] as int].value@);
        }
    }

    /// Deactivates the node that holds `value` as [`Network::deactivate`]
    /// does. Fails with `TypeMismatch` for a value of another kind than the
    /// sensor's and with `NotFound` for one the sensor does not hold; then
    /// nothing changes.
    pub fn deactivate(
        &self,
        net: &mut Network,
        value: &DataTypeValue,
        propagate_horizontal: bool,
        propagate_vertical: bool,
    ) -> (r: Result<(), ErrorKind>)
        requires
            self.wf(old(net)),
        ensures
            self.wf(final(net)),
            r == Err::<(), ErrorKind>(ErrorKind::TypeMismatch) <==> value@.0 != self.data_type,
            r == Err::<(), ErrorKind>(ErrorKind::NotFound) <==> value@.0 == self.data_type && !self.holds(old(net), value@),
            r is Err ==> final(net).unchanged(old(net)),
            r is Ok ==> exists|i: int|
                0 <= i < self.neurons@.len() && self.value_at(old(net), i) == value@ && #[trigger] old(net).deactivated(
                    final(net),
                    self.neurons@[i] as int,
                    Walk::Forward { horizontal: propagate_horizontal, vertical: propagate_vertical },
                ),
    {
        if value.data_type() != self.data_type {
            return Err(ErrorKind::TypeMismatch);
        }
        match self.search(net, value) {
            None => Err(ErrorKind::NotFound),
            Some(h) => {
                let ghost i = choose|i: int|
                    0 <= i < self.neurons@.len() && #[trigger] self.neurons@[i] == h && self.value_at(net, i) == value@;
                let ghost before = *net;
                match net.deactivate(h, propagate_horizontal, propagate_vertical) {
                    Ok(()) => {
                        proof {
                            self.lemma_frame(&before, net);
                            assert(old(net).deactivated(
                                final(net),
                                self.neurons@[i] as int,
                                Walk::Forward { horizontal: propagate_horizontal, vertical: propagate_vertical },
                            ));
                        }
                        Ok(())
                    },
                    Err(e) => {
                        proof {
                            assert(false);
                        }
                        Err(e)
                    },
                }
            },
        }
    }

    /// Sets every node of this sensor dormant, with no propagation.
    pub fn deactivate_sensor(&self, net: &mut Network)
        requires
            self.wf(old(net)),
        ensures
            self.wf(final(net)),
            final(net).same_shape(old(net)),
            forall|t: usize|
                t < old(net).neurons@.len() ==> final(net).neurons@[t as int].activation == if self.neurons@.contains(
                    t,
                ) {
                    0
                } else {
                    old(net).neurons@[t as int].activation as int
                },
    {
        let mut i: usize = 0;
        while i < self.neurons.len()
            invariant
                self.wf(net),
                net.same_shape(old(net)),
                i <= self.neurons@.len(),
                forall|t: usize|
                    t < old(net).neurons@.len() ==> #[trigger] net.neurons@[t as int].activation == if self.neurons@.subrange(
                        0,
                        i as int,
                    ).contains(t) {
                        0
                    } else {
                        old(net).neurons@[t as int].activation as int
                    },
            decreases self.neurons@.len() - i,
        {
            let h = self.neurons[i];
            let ghost before = *net;
            net.neurons[h].activation = 0;
            proof {
                assert(net.same_shape(&before)) by {
                    assert forall|t: int| 0 <= t < net.neurons@.len() && t != h implies #[trigger] net.neurons@[t]
                        == before.neurons@[t] by {}
                }
                self.lemma_frame(&before, net);
                let pre = self.neurons@.subrange(0, i as int);
                let post = self.neurons@.subrange(0, i + 1);
                assert(post =~= pre.push(h));
                assert forall|t: usize| t < old(net).neurons@.len() implies #[trigger] net.neurons@[t as int].activation
                    == if post.contains(t) {
                    0
                } else {
                    old(net).neurons@[t as int].activation as int
                } by {
                    if t != h {
                        assert(net.neurons@[t as int] == before.neurons@[t as int]);
                        if post.contains(t) {
                            let x = choose|x: int| 0 <= x < post.len() && post[x] == t;
                            assert(post[i as int] == h);
                            assert(x != i);
                            assert(pre[x] == t as usize);
                        }
                    } else {
                        assert(post[i as int] == h);
                    }
                }
            }
            i = i + 1;
        }
        assert(self.neurons@.subrange(0, i as int) =~= self.neurons@);
    }

}

} // verus!
