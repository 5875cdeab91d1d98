//! Addresses of Electrum servers, and the decisions made while connecting to one.
//!
//! [`addr::ServerAddr`] keeps the hostname unresolved, so that TLS server name indication and
//! certificate validation can use the original name.

pub mod addr;
pub mod attempts;
pub mod connect;
pub mod connection;
pub mod deadline;
pub mod error;
pub mod io;
pub mod output;
pub mod server_name;
pub mod tls;
