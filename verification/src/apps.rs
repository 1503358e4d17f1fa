//! The agents that talk over the broker: cameras, drones and the monitoring
//! station, with the payloads they exchange.

pub mod apps_mqtt_topics;
pub mod incident_data;
pub mod payload_error;
pub mod sist_camaras;
pub mod sist_dron;
pub mod sist_monitoreo;
