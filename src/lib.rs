//! A property graph layer over a transactional cell store: schema-typed
//! vertex and edge cells, per-vertex adjacency id-lists, and graph
//! operations whose effects on cells and lists are stated and proved.
pub mod types;
pub mod fields;
pub mod schema;
pub mod store;
pub mod graph;
pub mod laws;
