//! Host-side logic of a fingerprint daemon for an R503 sensor behind a paired
//! microcontroller.

pub mod assoc;
pub mod auth;
pub mod bytes;
pub mod channel;
pub mod crypto;
pub mod dbus_iface;
pub mod error;
pub mod files;
pub mod framing;
pub mod keystore;
pub mod pairing;
pub mod sensor;
pub mod sensor_actor;
pub mod state;
pub mod storage;
pub mod text;
pub mod token;
pub mod tpm;
