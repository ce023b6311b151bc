//! A signaling relay: connections join named rooms, and a message from one
//! member is fanned out to every other member of the same room.

pub mod connection;
pub mod credentials;
pub mod model;
pub mod registry;
pub mod session;

pub use connection::{Action, Connection, ConnectionState, Event};
pub use credentials::{
    development_config, load_credentials, select_credentials, signaling_config, ConfigError,
    CredentialError, Credentials,
};
pub use registry::{ConnectionHandle, Delivery, Registry};
