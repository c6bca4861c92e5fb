//! The second title: its weapons and mech loadouts.
pub mod cockpit;
pub mod mech;
pub mod wep;
