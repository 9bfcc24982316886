pub mod config;
pub mod db;
pub mod domain;
pub mod match_manager;
pub mod matchmaker;
pub mod ranking;
pub mod store;
pub mod term;
pub mod worker;
