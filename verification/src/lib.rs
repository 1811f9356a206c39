pub mod text;
pub mod table;
pub mod doc;
pub mod hooks;
pub mod config;
pub mod model;
pub mod agent;
pub mod protocol;
pub mod system;
pub mod repos;
pub mod memory;
pub mod harness;
pub mod bridge;
pub mod runtime;
pub mod storage;
pub mod service;
pub mod testing;
