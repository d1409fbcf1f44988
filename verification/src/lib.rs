//! A netlist intermediate representation for hardware synthesis, with its
//! optimization pipeline.
//!
//! The core is the mutable multi-module graph ([`module`], [`graph`],
//! [`netlist`]), the closed node-kind set with its width rules ([`node`]),
//! the width-masked constant engine ([`const_val`], with a deliberate 128-bit
//! container ceiling: values wider than the container are never folded), the
//! composite-value flattening ([`item`]), and the three passes that run once,
//! in order: [`transform`] (constant folding and inlining), [`reachability`]
//! (dead-code marking; it only clears flags, never deletes), and
//! [`set_names`] (deterministic naming). [`dump`] renders a netlist as text.
//!
//! Around the core stand the source-level value types the front end lowers
//! from: [`bit`], [`prim_ty`], [`index`], [`signal`] and [`array`]; [`tree`] flattens
//! grouped values depth first, as the lowering walks them.

pub mod const_val;
pub mod graph;
pub mod node;
pub mod module;
pub mod netlist;
pub mod transform;
pub mod reachability;
pub mod set_names;
pub mod bit;
pub mod prim_ty;
pub mod index;
pub mod signal;
pub mod array;
pub mod item;
pub mod dump;
pub mod tree;
