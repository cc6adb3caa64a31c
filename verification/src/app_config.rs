//! Application configuration, as plain data. The application loads these
//! values from its configuration files at startup and hands the broker
//! address to the pool; only the shape of the data lives here.

use vstd::prelude::*;

verus! {

/// The HTTP server section.
#[derive(Debug, Clone, PartialEq, Eq)]
pub struct Server {
    pub name: String,
    pub port: i32,
}

/// A MySQL connection string.
#[derive(Debug, Clone, PartialEq, Eq)]
pub struct Mysql {
    pub uri: String,
}

/// An MSSQL connection string.
#[derive(Debug, Clone, PartialEq, Eq)]
pub struct Mssql {
    pub uri: String,
}

/// A MongoDB connection string.
#[derive(Debug, Clone, PartialEq, Eq)]
pub struct Mongodb {
    pub uri: String,
}

/// The key-value store section.
#[derive(Debug, Clone, PartialEq, Eq)]
pub struct Redis {
    pub host: String,
    pub port: i32,
    pub password: String,
    /// Timeout in milliseconds.
    pub timeout: i32,
}

/// The message broker section: a single address string.
#[derive(Debug, Clone, PartialEq, Eq)]
pub struct RabbitMQ {
    pub address: String,
}

/// The service registry section.
#[derive(Debug, Clone, PartialEq, Eq)]
pub struct Consul {
    pub host: String,
    pub port: i32,
    pub secure: bool,
    pub health_check: String,
    /// Health check interval in seconds.
    pub health_check_interval: i32,
    /// Health check timeout in seconds.
    pub health_check_timeout: i32,
    /// Deregistration delay in seconds.
    pub deregister_critical_service_after: i32,
}

/// The logging section.
#[derive(Debug, Clone, PartialEq, Eq)]
pub struct Logger {
    pub default: String,
}

/// The development section.
#[derive(Debug, Clone, PartialEq, Eq)]
pub struct Dev {
    pub developer: String,
}

/// The whole application configuration.
#[derive(Debug, Clone, PartialEq, Eq)]
pub struct AppConfig {
    pub profile: String,
    pub server: Server,
    pub mysql: Option<Mysql>,
    pub mssql: Option<Mssql>,
    pub mongodb: Option<Mongodb>,
    pub redis: Option<Redis>,
    pub rabbitmq: Option<RabbitMQ>,
    pub consul: Option<Consul>,
    pub logger: Logger,
    pub dev: Option<Dev>,
}

} // verus!
