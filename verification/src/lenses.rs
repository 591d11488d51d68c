//! The four review lenses.
pub mod eight_layer;
pub mod uip_check;
pub mod ecocentric;
pub mod resonance;
