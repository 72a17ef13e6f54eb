//! Conversion of syntax trees into tagged dynamic values, driven by a schema
//! of node shapes.
//!
//! - `schema`: the catalog of nodes, tokens and type shapes.
//! - `loader`: reads the catalog from a structured document.
//! - `generator`: derives one conversion routine per node and token.
//! - `routine`: applies a routine to a node's converted parts.
//! - `interpret`: converts a whole tree, dispatching on its shape.
//! - `value`, `convert`, `tokens`: dynamic values, and the conversion of
//!   scalars, containers, positions and token sequences.
//! - `entry`: parsing and printing source text through its canonical form.

pub mod schema;
pub mod loader;
pub mod generator;
pub mod routine;
pub mod interpret;
pub mod value;
pub mod convert;
pub mod tokens;
pub mod entry;
