//! Dependency graph of the objects of an FBX scene, and the filter engine
//! that selects, restyles and hides its nodes and edges before the graph is
//! written out in the Graphviz `dot` language.
pub mod graph;
pub mod text;
pub mod fbx;
pub mod pattern;
