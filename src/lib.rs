//! A key-value record store: records are schema-less mappings from field
//! names to JSON values, kept under keys that the store generates.

pub mod config;
pub mod json;
pub mod laws;
pub mod record;
pub mod store;

pub use json::{Fields, field_map, names_distinct};
pub use record::Record;
pub use config::{
    DATA_ENDPOINT_KEY_PATTERN, DATA_ENDPOINT_PATTERN, DEFAULT_HOST, DEFAULT_PORT, HOST_VAR_NAME,
    HostPort, PORT_VAR_NAME, host_port_from,
};
pub use store::{DataStore, InMemoryStore, Key, StoreProvider, StoreProviderFeatures};
