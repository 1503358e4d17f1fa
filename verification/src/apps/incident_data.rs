//! Incidents and how they are told apart.

pub mod incident;
pub mod incident_info;
pub mod incident_source;
