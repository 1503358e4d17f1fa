//! The camera system: cameras that wake up when an incident happens within
//! their range or within the range of a bordering camera.

pub mod camera;
pub mod camera_state;
pub mod sistema_camaras_logic;
