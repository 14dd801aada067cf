pub mod sdk;
pub mod check;
pub mod message;
pub mod watchdog;
pub mod vm;
pub mod worker;
pub mod context;
pub mod filling;
pub mod iterator;
