//! The drones: what each one publishes about itself, and the rules by
//! which it answers incidents, flies, and recharges.

pub mod dron;
pub mod dron_current_info;
pub mod dron_flying_info;
pub mod dron_state;
pub mod sist_dron_properties;
