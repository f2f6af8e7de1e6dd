//! A declarative HTTP mock gateway: a configuration of services and their mock rules is
//! compiled into a route table, and each request is resolved to the rule of its
//! (method, path) and answered with that rule's status, content type and body file.
pub mod cmd;
pub mod config;
pub mod dispatch;
pub mod endpoint;
pub mod route;
