pub mod client_view;
pub mod consume;
pub mod dice;
pub mod drain;
pub mod fixed;
pub mod generation;
pub mod grid;
pub mod growth;
pub mod id;
pub mod laws;
pub mod message;
pub mod model;
pub mod noise;
pub mod root;
pub mod rules;
pub mod soundness;
pub mod table;
pub mod tile;
pub mod vector;
pub mod world;
