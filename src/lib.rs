//! A virtual-DOM diff engine: immutable node trees, attributes merged by name,
//! and a positional tree diff that yields patches addressed by pre-order index,
//! together with a model of how a live tree applies them.
pub mod node;
pub mod patch;
pub mod apply;
pub mod diff;
pub mod laws;
pub mod attr_map_laws;
pub mod converge;
pub mod applier;
pub mod program;
