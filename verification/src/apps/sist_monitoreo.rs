//! The monitoring station: it keeps track of open incidents and declares
//! one resolved once two drones have reached it.

pub mod sistema_monitoreo_logic;
pub mod sistema_monitoreo;
