//! A render-graph execution engine: a directed graph of processing nodes that
//! produce and consume GPU resources across a frame.  The graph resolves a
//! deterministic dependency order, nodes allocate resources lazily through an
//! abstract resource-context capability, and texture contents can be read back
//! into host memory through a user-supplied sink.

pub mod context;
pub mod graph;
pub mod node;
pub mod resource;
pub mod scene;
pub mod slot;
