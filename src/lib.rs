pub mod error;
pub mod data;
pub mod parse;
pub mod neuron;
pub mod connection;
pub mod network;
pub mod sensor;
pub mod laws;
