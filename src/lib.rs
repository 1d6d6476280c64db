//! Leaf silhouettes grown by a parametric L-system and outlined by a turtle.
//!
//! - `fixed`: the fixed-point quantities that the grammar computes with.
//! - `leaf`: the letters of the leaf grammar, its parameters and its rule.
//! - `l_system`: the engine that rewrites a whole sentence at each step.
//! - `turtle`: the turtle that reads a sentence and closes polygons.
//! - `text`: the classic L-system notation of letters and sentences.
//! - `growth` and `balance`: what rewriting guarantees, proved.
//! - `drawing`: what the turtle draws of the first generations, proved.
//! - `graph` and `permutation`: a breadth-first graph and permutation
//!   helpers used to lay out and order the drawings.
pub mod fixed;
pub mod leaf;
pub mod l_system;
pub mod turtle;
pub mod text;
pub mod growth;
pub mod balance;
pub mod drawing;
pub mod graph;
pub mod permutation;
