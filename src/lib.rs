//! Resolves a `kubernetes://service.namespace:port` locator into a live set of
//! `ip:port` addresses and the insert/remove changes that keep a load-balanced
//! channel in step with the cluster's endpoint records.
pub mod error;
pub mod text;
pub mod target;
pub mod ports;
pub mod addresses;
pub mod reconcile;
pub mod consistency;
