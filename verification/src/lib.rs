//! Centrality measures on small undirected graphs, together with a handful of
//! container utilities (frequency counting, list editing, a fruit priority order).

pub mod centrality;
pub mod fighter;
pub mod frequency;
pub mod fruit;
pub mod fruit_list;
pub mod graph;
pub mod key_val;
pub mod languages;
pub mod model;
pub mod paths;
pub mod random;
pub mod salad;
pub mod shape;
pub mod store;
pub mod table;
pub mod tally;
pub mod text;
