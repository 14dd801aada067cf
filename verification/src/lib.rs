pub mod language;
pub mod cesium;
pub mod utils;
pub mod commands;
pub mod service;
pub mod plugins;
pub mod service_watch;
pub mod laws;
