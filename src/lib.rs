//! Federated event ingestion: canonical event identity, power-level
//! authorization, failure backoff, provisional event storage and auth-chain
//! resolution.

pub mod backoff;
pub mod event;
pub mod ids;
pub mod json;
pub mod membership;
pub mod outlier;
pub mod power_levels;
pub mod proxy;
pub mod resolver;
pub mod room_version;
pub mod table;
pub mod text;
pub mod verify;
