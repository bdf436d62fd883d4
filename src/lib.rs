//! Turns a flake lock document into a directed dependency graph, resolving
//! direct and "follows" inputs, and renders that graph as Graphviz text.

pub mod lock;
pub mod graph;
pub mod digraph;
pub mod text;
pub mod similarity;
pub mod render;
