//! The rules of a Prometheus exporter for Tapo temperature and humidity sensors.

pub mod address;
pub mod address_forms;
pub mod address_laws;
pub mod clock;
pub mod config;
pub mod http;
pub mod http_laws;
pub mod log_filter;
pub mod log_filter_laws;
pub mod metrics;
pub mod numeral;
pub mod record;
pub mod recorder;
pub mod sensor;
pub mod shutdown;
pub mod supervisor;
pub mod text;
