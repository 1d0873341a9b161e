use associative_graph::connection::ConnectionKind;
use associative_graph::data::{DataCategory, DataType, DataTypeValue};
use associative_graph::error::ErrorKind;
use associative_graph::network::{Network, Stimulus};
use associative_graph::neuron::{NeuronID, FULL};
use associative_graph::sensor::Sensor;

fn text(s: &str) -> DataTypeValue {
    DataTypeValue::String(s.to_string())
}

fn node(net: &mut Network, name: &str, is_sensor: bool) -> usize {
    net.add_neuron(NeuronID::new(name, "level"), is_sensor, text(name))
}

fn touched(r: &[Stimulus]) -> Vec<usize> {
    let mut v: Vec<usize> = r.iter().map(|s| s.neuron).collect();
    v.sort();
    v
}

#[test]
fn neuron_id_is_written_scope_first() {
    let id = NeuronID::new("red", "colour");
    assert_eq!(id.to_string(), "colour_red");
    assert!(id.same_as(&NeuronID::new("red", "colour")));
    assert!(!id.same_as(&NeuronID::new("colour", "red")));
}

#[test]
fn inserting_twice_gives_one_node() {
    let mut net = Network::new();
    let mut s = Sensor::new("colour", DataType::String, DataCategory::Categorical);
    let a = s.insert(&mut net, &text("red")).unwrap();
    assert_eq!(net.counter(a), 1);
    let b = s.insert(&mut net, &text("red")).unwrap();
    assert_eq!(a, b);
    assert_eq!(net.counter(a), 2);
    assert_eq!(net.len(), 1);
    let concept = net.add_neuron(NeuronID::new("warm", "idea"), false, text("warm"));
    let e = net.connect(concept, a, ConnectionKind::Defining, 0).unwrap();
    assert_eq!(net.weight(e), FULL / 2);
    assert_eq!(net.neurons[a].id.to_string(), "colour_red");
    assert_eq!(net.neurons[a].to_string(), "[colour_red|c:2|a:0]");
}

#[test]
fn insert_refuses_other_kinds() {
    let mut net = Network::new();
    let mut s = Sensor::new("age", DataType::U8, DataCategory::Numerical);
    assert_eq!(s.insert(&mut net, &DataTypeValue::U16(3)), Err(ErrorKind::TypeMismatch));
    assert_eq!(net.len(), 0);
    assert!(s.activate(&mut net, &text("x"), FULL as i64, true, true).is_err());
}

#[test]
fn numerical_sensor_links_close_values() {
    let mut net = Network::new();
    let mut s = Sensor::new("size", DataType::I32, DataCategory::Numerical).with_similarity_threshold(2);
    let ten = s.insert(&mut net, &DataTypeValue::I32(10)).unwrap();
    let eleven = s.insert(&mut net, &DataTypeValue::I32(11)).unwrap();
    let thirteen = s.insert(&mut net, &DataTypeValue::I32(13)).unwrap();
    let edges: Vec<(usize, usize, u32)> = net.connections.iter().map(|c| (c.from, c.to, c.weight)).collect();
    assert_eq!(
        edges,
        vec![(eleven, ten, 666_666), (ten, eleven, 666_666), (thirteen, eleven, 333_333), (eleven, thirteen, 333_333)]
    );
    assert!(net.connections.iter().all(|c| c.kind == ConnectionKind::Similarity));
}

#[test]
fn categorical_sensor_makes_no_similarity_edges() {
    let mut net = Network::new();
    let mut s = Sensor::new("colour", DataType::String, DataCategory::Categorical).with_similarity_threshold(5);
    s.insert(&mut net, &text("red")).unwrap();
    s.insert(&mut net, &text("blue")).unwrap();
    assert_eq!(net.connections.len(), 0);
}

#[test]
fn connect_refuses_bad_edges() {
    let mut net = Network::new();
    let a = node(&mut net, "a", true);
    let b = node(&mut net, "b", true);
    assert_eq!(net.connect(a, a, ConnectionKind::Sequential, 10), Err(ErrorKind::InvalidConnection));
    assert_eq!(net.connect(a, b, ConnectionKind::Sequential, FULL + 1), Err(ErrorKind::InvalidConnection));
    assert_eq!(net.connect(a, 7, ConnectionKind::Sequential, 10), Err(ErrorKind::NotFound));
    assert_eq!(net.connect(a, b, ConnectionKind::Sequential, 10), Ok(0));
    assert_eq!(net.connect(a, b, ConnectionKind::Sequential, 20), Err(ErrorKind::InvalidConnection));
    assert_eq!(net.connect(a, b, ConnectionKind::Similarity, 20), Ok(1));
    assert_eq!(net.connect(b, a, ConnectionKind::Sequential, 10), Ok(2));
    let id = net.connection_id(0);
    assert_eq!(id.from.to_string(), "level_a");
    assert_eq!(id.to.to_string(), "level_b");
}

#[test]
fn cycle_visits_each_node_once() {
    let mut net = Network::new();
    let a = node(&mut net, "a", true);
    let b = node(&mut net, "b", true);
    let c = node(&mut net, "c", true);
    net.connect(a, b, ConnectionKind::Similarity, FULL).unwrap();
    net.connect(b, c, ConnectionKind::Similarity, FULL).unwrap();
    net.connect(c, a, ConnectionKind::Similarity, FULL).unwrap();
    let r = net.activate(a, FULL as i64, true, false).unwrap();
    assert_eq!(r.len(), 3);
    assert_eq!(touched(&r), vec![a, b, c]);
    assert_eq!(r[0].neuron, a);
    for h in [a, b, c] {
        assert_eq!(net.activation(h), FULL);
    }
}

#[test]
fn signals_scale_along_edges() {
    let mut net = Network::new();
    let a = node(&mut net, "a", true);
    let b = node(&mut net, "b", true);
    let c = node(&mut net, "c", true);
    net.connect(a, b, ConnectionKind::Sequential, 500_000).unwrap();
    net.connect(b, c, ConnectionKind::Explanatory, 500_000).unwrap();
    let r = net.activate(a, 800_000, true, false).unwrap();
    assert_eq!(touched(&r), vec![a, b]);
    assert_eq!(net.activation(a), 800_000);
    assert_eq!(net.activation(b), 400_000);
    assert_eq!(net.activation(c), 0);
    let r = net.activate(a, 800_000, true, true).unwrap();
    assert_eq!(touched(&r), vec![a, b, c]);
    assert_eq!(net.activation(c), 200_000);
}

#[test]
fn inhibition_lowers_activation() {
    let mut net = Network::new();
    let a = node(&mut net, "a", true);
    let b = node(&mut net, "b", true);
    net.connect(b, a, ConnectionKind::Sequential, FULL).unwrap();
    net.connect(a, b, ConnectionKind::Inhibitory, 500_000).unwrap();
    net.activate(b, 800_000, false, false).unwrap();
    assert_eq!(net.activation(b), 800_000);
    let r = net.activate(a, FULL as i64, true, false).unwrap();
    assert_eq!(r[1].signal, -500_000);
    assert_eq!(net.activation(b), 300_000);
    net.activate(a, FULL as i64, true, false).unwrap();
    assert_eq!(net.activation(b), 0);
}

#[test]
fn activation_stays_in_range() {
    let mut net = Network::new();
    let a = node(&mut net, "a", true);
    let b = node(&mut net, "b", true);
    net.connect(a, b, ConnectionKind::Similarity, FULL).unwrap();
    net.connect(b, a, ConnectionKind::Inhibitory, FULL).unwrap();
    for signal in [5_000_000i64, -5_000_000, 300_000, i64::MAX, i64::MIN, 0] {
        net.activate(a, signal, true, true).unwrap();
        for h in [a, b] {
            assert!(net.activation(h) <= FULL);
        }
    }
    net.activate(a, i64::MAX, false, false).unwrap();
    assert_eq!(net.activation(a), FULL);
}

#[test]
fn deactivate_zeroes_what_activate_reached() {
    let mut net = Network::new();
    let a = node(&mut net, "a", true);
    let b = node(&mut net, "b", true);
    let c = node(&mut net, "c", true);
    let d = node(&mut net, "d", true);
    net.connect(a, b, ConnectionKind::Sequential, FULL).unwrap();
    net.connect(b, c, ConnectionKind::Defining, 0).unwrap();
    net.connect(d, a, ConnectionKind::Sequential, FULL).unwrap();
    net.activate(d, 600_000, false, false).unwrap();
    let r = net.activate(a, FULL as i64, true, false).unwrap();
    let reached = touched(&r);
    assert_eq!(reached, vec![a, b]);
    net.deactivate(a, true, false).unwrap();
    for h in 0..net.len() {
        if reached.contains(&h) {
            assert_eq!(net.activation(h), 0);
        }
    }
    assert_eq!(net.activation(d), 600_000);
    assert_eq!(net.activation(c), 0);
    assert_eq!(net.deactivate(9, true, true), Err(ErrorKind::NotFound));
    assert!(net.activate(9, 1, true, true).is_err());
}

#[test]
fn explain_finds_justifying_sensors() {
    let mut net = Network::new();
    let s1 = node(&mut net, "s1", true);
    let s2 = node(&mut net, "s2", true);
    let mid = node(&mut net, "mid", false);
    let top = node(&mut net, "top", false);
    net.connect(s1, mid, ConnectionKind::Defining, 0).unwrap();
    net.connect(mid, top, ConnectionKind::Explanatory, FULL).unwrap();
    net.connect(s2, top, ConnectionKind::Defining, 0).unwrap();
    assert_eq!(net.explain(top), Ok(vec![]));
    net.activate(s1, FULL as i64, false, true).unwrap();
    assert_eq!(net.activation(top), FULL);
    assert_eq!(net.explain(top), Ok(vec![s1]));
    net.activate(s2, FULL as i64, false, true).unwrap();
    let mut why = net.explain(top).unwrap();
    why.sort();
    assert_eq!(why, vec![s1, s2]);
    assert_eq!(net.explain(42), Err(ErrorKind::NotFound));
}

#[test]
fn explain_of_dormant_node_is_empty() {
    let mut net = Network::new();
    let mut s = Sensor::new("colour", DataType::String, DataCategory::Categorical);
    let red = s.insert(&mut net, &text("red")).unwrap();
    assert_eq!(net.explain(red), Ok(vec![]));
}

#[test]
fn explain_one_checks_scope() {
    let mut net = Network::new();
    let mut s = Sensor::new("colour", DataType::String, DataCategory::Categorical);
    let red = s.insert(&mut net, &text("red")).unwrap();
    assert_eq!(net.explain_one(red, "colour"), Some(text("red")));
    assert_eq!(net.explain_one(red, "shape"), None);
    assert_eq!(net.explain_one(5, "colour"), None);
}

#[test]
fn sensor_scenario_red_red_blue() {
    let mut net = Network::new();
    let mut s = Sensor::new("S", DataType::String, DataCategory::Categorical);
    let red1 = s.insert(&mut net, &text("red")).unwrap();
    let red2 = s.insert(&mut net, &text("red")).unwrap();
    let blue = s.insert(&mut net, &text("blue")).unwrap();
    assert_eq!(red1, red2);
    assert_ne!(red1, blue);
    assert_eq!(s.search(&net, &text("red")), Some(red1));
    assert_eq!(s.search(&net, &text("red")), Some(red1));
    assert_eq!(s.search(&net, &text("green")), None);
    let up = net.add_neuron(NeuronID::new("colour", "concepts"), false, text("colour"));
    let side = net.add_neuron(NeuronID::new("warm", "concepts"), false, text("warm"));
    net.connect(red1, up, ConnectionKind::Defining, 0).unwrap();
    net.connect(red1, side, ConnectionKind::Sequential, FULL).unwrap();
    let r = s.activate(&mut net, &text("red"), 800_000, false, true).unwrap();
    assert_eq!(touched(&r), vec![red1, up]);
    assert_eq!(net.activation(red1), 800_000);
    assert_eq!(net.activation(up), 800_000);
    assert_eq!(net.activation(side), 0);
    assert_eq!(net.counter(red1), 3);
}

#[test]
fn sensor_deactivation() {
    let mut net = Network::new();
    let mut s = Sensor::new("S", DataType::String, DataCategory::Categorical);
    s.activate(&mut net, &text("red"), FULL as i64, true, true).unwrap();
    s.activate(&mut net, &text("blue"), 400_000, true, true).unwrap();
    let other = node(&mut net, "other", true);
    net.activate(other, FULL as i64, true, true).unwrap();
    assert_eq!(s.deactivate(&mut net, &text("green"), true, true), Err(ErrorKind::NotFound));
    assert_eq!(s.deactivate(&mut net, &DataTypeValue::U8(1), true, true), Err(ErrorKind::TypeMismatch));
    s.deactivate(&mut net, &text("red"), true, true).unwrap();
    let red = s.search(&net, &text("red")).unwrap();
    let blue = s.search(&net, &text("blue")).unwrap();
    assert_eq!(net.activation(red), 0);
    assert_eq!(net.activation(blue), 400_000);
    s.deactivate_sensor(&mut net);
    assert_eq!(net.activation(blue), 0);
    assert_eq!(net.activation(other), FULL);
    assert_eq!(s.id(), "S");
    assert_eq!(s.data_type(), DataType::String);
    assert_eq!(s.data_category(), DataCategory::Categorical);
}
