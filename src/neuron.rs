use vstd::prelude::*;

use crate::data::{DataType, DataTypeValue, decimal_text, write_decimal};

verus! {

/// Activation, signals and weights are fixed-point numbers in millionths: this
/// value stands for full strength (1.0).
pub const FULL: u32 = 1_000_000;

/// The identity of a node within a named scope (its sensor or hierarchy level).
pub struct NeuronID {
    pub id: String,
    pub parent_id: String,
}

impl View for NeuronID {
    type V = (Seq<char>, Seq<char>);

    open spec fn view(&self) -> (Seq<char>, Seq<char>) {
        (self.id@, self.parent_id@)
    }
}

impl NeuronID {
    pub fn new(id: &str, parent_id: &str) -> (r: NeuronID)
        ensures
            r.id@ == id@,
            r.parent_id@ == parent_id@,
    {
        NeuronID { id: String::from_str(id), parent_id: String::from_str(parent_id) }
    }

    /// The identity written as `parent_id_id`.
    pub fn to_string(&self) -> (r: String)
        ensures
            r@ == self.parent_id@ + "_"@ + self.id@,
    {
        let mut text = self.parent_id.clone();
        text.append("_");
        text.append(self.id.as_str());
        text
    }

    /// Structural equality of two identities.
    pub fn same_as(&self, other: &NeuronID) -> (r: bool)
        ensures
            r == (self@ == other@),
    {
        self.id == other.id && self.parent_id == other.parent_id
    }

    /// A copy of this identity.
    pub fn duplicate(&self) -> (r: NeuronID)
        ensures
            r@ == self@,
    {
        NeuronID { id: self.id.clone(), parent_id: self.parent_id.clone() }
    }
}

/// One canonical value instance: a node of the graph.
pub struct Neuron {
    pub id: NeuronID,
    /// Current stimulation, from `0` to [`FULL`].
    pub activation: u32,
    /// How many times an equal value has been inserted; at least one.
    pub counter: u64,
    /// Whether the node is a sensor-level leaf.
    pub is_sensor: bool,
    pub data_type: DataType,
    /// The raw value that the node stands for.
    pub value: DataTypeValue,
}

impl Neuron {
    /// The node written as `[parent_id_id|c:counter|a:activation]`, the
    /// activation in millionths.
    pub fn to_string(&self) -> (r: String)
        ensures
            r@ == "["@ + self.id.parent_id@ + "_"@ + self.id.id@ + "|c:"@ + decimal_text(self.counter as nat) + "|a:"@
                + decimal_text(self.activation as nat) + "]"@,
    {
        let mut text = String::from_str("[");
        let id = self.id.to_string();
        text.append(id.as_str());
        text.append("|c:");
        let counter = write_decimal(self.counter as u128);
        text.append(counter.as_str());
        text.append("|a:");
        let activation = write_decimal(self.activation as u128);
        text.append(activation.as_str());
        text.append("]");
        proof {
            assert(text@ =~= "["@ + self.id.parent_id@ + "_"@ + self.id.id@ + "|c:"@ + decimal_text(self.counter as nat) + "|a:"@
                + decimal_text(self.activation as nat) + "]"@);
        }
        text
    }
}

/// A signal saturated to full strength either way.
pub open spec fn clamp_signal(s: int) -> int {
    if s > FULL {
        FULL as int
    } else if s < -(FULL as int) {
        -(FULL as int)
    } else {
        s
    }
}

/// A signal scaled by a weight in millionths, rounded toward zero.
pub open spec fn scaled(s: int, w: int) -> int {
    if s >= 0 {
        s * w / (FULL as int)
    } else {
        -((-s) * w / (FULL as int))
    }
}

/// How an activation takes in a signal: a positive signal raises it to the
/// signal's strength if that is higher; a negative signal lowers it, not below
/// zero.
pub open spec fn combined(a: int, s: int) -> int {
    if s >= 0 {
        if a >= s {
            a
        } else {
            s
        }
    } else if a + s < 0 {
        0
    } else {
        a + s
    }
}

pub fn clamp(s: i64) -> (r: i64)
    ensures
        r == clamp_signal(s as int),
{
    if s > FULL as i64 {
        FULL as i64
    } else if s < -(FULL as i64) {
        -(FULL as i64)
    } else {
        s
    }
}

pub fn scale(s: i64, w: u32) -> (r: i64)
    requires
        -(FULL as int) <= s <= FULL,
        w <= FULL,
    ensures
        r == scaled(s as int, w as int),
        -(FULL as int) <= r <= FULL,
        s >= 0 ==> 0 <= r <= s,
        s < 0 ==> s <= r <= 0,
{
    let negative = s < 0;
    let m: u64 = if negative { (-s) as u64 } else { s as u64 };
    assert(m * (w as u64) <= 1_000_000_000_000) by (nonlinear_arith)
        requires
            m <= 1_000_000,
            w <= 1_000_000,
    ;
    let p: u64 = m * (w as u64) / (FULL as u64);
    assert(p <= m) by (nonlinear_arith)
        requires
            p == m * w / 1_000_000,
            w <= 1_000_000,
    ;
    if negative {
        -(p as i64)
    } else {
        p as i64
    }
}

pub fn combine(a: u32, s: i64) -> (r: u32)
    requires
        a <= FULL,
        -(FULL as int) <= s <= FULL,
    ensures
        r == combined(a as int, s as int),
        r <= FULL,
{
    if s >= 0 {
        if (a as i64) >= s {
            a
        } else {
            s as u32
        }
    } else if (a as i64) + s < 0 {
        0
    } else {
        ((a as i64) + s) as u32
    }
}

} // verus!
