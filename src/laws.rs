use vstd::prelude::*;

use crate::connection::ConnectionKind;
use crate::data::{DataCategory, DataType, category_of, distance_of};
use crate::error::ErrorKind;
use crate::network::{Network, Stimulus, Walk, covers};
use crate::neuron::FULL;
use crate::sensor::Sensor;

verus! {

/// Inserting a new value into a sensor, then the same value again, gives the
/// same node both times; its counter is then two, and every `Defining` edge
/// into it weighs one half.
pub proof fn lemma_insert_twice(
    s0: Sensor,
    n0: Network,
    s1: Sensor,
    n1: Network,
    s2: Sensor,
    n2: Network,
    v: (DataType, int, Seq<char>),
    r1: Result<usize, ErrorKind>,
    r2: Result<usize, ErrorKind>,
)
    requires
        s0.wf(&n0),
        v.0 == s0.data_type,
        !s0.holds(&n0, v),
        s0.inserted(&n0, &s1, &n1, v, r1),
        s1.wf(&n1),
        s1.inserted(&n1, &s2, &n2, v, r2),
    ensures
        r1 is Ok,
        r2 == r1,
        n2.neurons@[r1->Ok_0 as int].counter == 2,
        forall|e: int|
            0 <= e < n2.connections@.len() && (#[trigger] n2.connections@[e]).to == r1->Ok_0
                && n2.connections@[e].kind == ConnectionKind::Defining ==> n2.weight_of(e) == FULL / 2,
{
    let h = r1->Ok_0;
    let last = s0.neurons@.len() as int;
    assert(s1.neurons@[last] == h);
    assert(s1.value_at(&n1, last) == v);
    assert(s1.holds(&n1, v));
    let i = choose|i: int|
        0 <= i < s1.neurons@.len() && #[trigger] s1.neurons@[i] == r2->Ok_0 && s1.value_at(&n1, i) == v;
    if i != last {
        assert(n1.neurons@[s1.neurons@[i] as int].value@ != n1.neurons@[s1.neurons@[last] as int].value@);
    }
}

/// A dormant node is justified by nothing: `explain` on it gives no node.
pub proof fn lemma_dormant_unexplained(net: Network, h: int, t: int)
    requires
        0 <= h < net.neurons@.len(),
        net.neurons@[h].activation == 0,
    ensures
        !net.justifies(h, t),
{
}

/// For categorical values of a kind that compares (all but unknown values),
/// a value is at distance zero from itself and at distance one from any other.
pub proof fn lemma_categorical_distance(a: (DataType, int, Seq<char>), b: (DataType, int, Seq<char>))
    requires
        a.0 == b.0,
        category_of(a.0) == DataCategory::Categorical,
        a.0 != DataType::Unknown,
    ensures
        distance_of(a, a) == Some(0int),
        a != b ==> distance_of(a, b) == Some(1int),
{
}

/// Distance is symmetric.
pub proof fn lemma_distance_symmetric(a: (DataType, int, Seq<char>), b: (DataType, int, Seq<char>))
    ensures
        distance_of(a, b) == distance_of(b, a),
{
}

/// Graphs with the same edges have the same forward walks.
pub proof fn lemma_reach_frame(a: Network, b: Network, horizontal: bool, vertical: bool, s: int, t: int)
    requires
        a.connections@ == b.connections@,
    ensures
        a.reaches(Walk::Forward { horizontal, vertical }, s, t) == b.reaches(
            Walk::Forward { horizontal, vertical },
            s,
            t,
        ),
{
    let w = Walk::Forward { horizontal, vertical };
    assert forall|e: int| 0 <= e < a.connections@.len() implies a.admits(w, e) == b.admits(w, e)
        && a.tail(w, e) == b.tail(w, e) && a.head(w, e) == b.head(w, e) by {}
    assert forall|x: int, y: int| a.link(w, x, y) == b.link(w, x, y) by {
        if a.link(w, x, y) {
            let e = choose|e: int|
                0 <= e < a.connections@.len() && #[trigger] a.admits(w, e) && a.tail(w, e) == x && a.head(w, e)
                    == y;
            assert(b.admits(w, e));
        }
        if b.link(w, x, y) {
            let e = choose|e: int|
                0 <= e < b.connections@.len() && #[trigger] b.admits(w, e) && b.tail(w, e) == x && b.head(w, e)
                    == y;
            assert(a.admits(w, e));
        }
    }
    assert forall|p: Seq<int>| a.is_walk(w, p) == b.is_walk(w, p) by {
        if a.is_walk(w, p) {
            assert forall|i: int| 0 <= i < p.len() - 1 implies b.link(w, #[trigger] p[i], p[i + 1]) by {
                assert(a.link(w, p[i], p[i + 1]));
            }
        }
        if b.is_walk(w, p) {
            assert forall|i: int| 0 <= i < p.len() - 1 implies a.link(w, #[trigger] p[i], p[i + 1]) by {
                assert(b.link(w, p[i], p[i + 1]));
            }
        }
    }
    if a.reaches(w, s, t) {
        let p = choose|p: Seq<int>| #[trigger] a.is_walk(w, p) && p[0] == s && p.last() == t;
        assert(b.is_walk(w, p));
    }
    if b.reaches(w, s, t) {
        let p = choose|p: Seq<int>| #[trigger] b.is_walk(w, p) && p[0] == s && p.last() == t;
        assert(a.is_walk(w, p));
    }
}

/// Activating a node and then deactivating it with the same flags makes
/// dormant exactly the nodes that the activation reached; every other node
/// keeps the activation it had.
pub proof fn lemma_deactivate_undoes_reach(
    n0: Network,
    n1: Network,
    n2: Network,
    start: int,
    signal: int,
    horizontal: bool,
    vertical: bool,
    r: Seq<Stimulus>,
)
    requires
        n0.activated(&n1, start, signal, Walk::Forward { horizontal, vertical }, r),
        n1.deactivated(&n2, start, Walk::Forward { horizontal, vertical }),
    ensures
        forall|t: int|
            0 <= t < n1.neurons@.len() ==> n2.neurons@[t].activation == if covers(r, t) {
                0
            } else {
                n1.neurons@[t].activation as int
            },
{
    let w = Walk::Forward { horizontal, vertical };
    assert forall|t: int| 0 <= t < n1.neurons@.len() implies n2.neurons@[t].activation == if covers(r, t) {
        0
    } else {
        n1.neurons@[t].activation as int
    } by {
        lemma_reach_frame(n0, n1, horizontal, vertical, start, t);
        assert(covers(r, t) == n0.reaches(w, start, t));
    }
}

} // verus!
