//! A client library for tuber, a fast work queue server that speaks the
//! beanstalkd protocol: the protocol's commands and replies, the YAML
//! statistics the server reports, and the state and text of a dashboard
//! over them.

pub mod address;
pub mod dashboard;
pub mod display;
pub mod model;
pub mod number;
pub mod order;
pub mod outline;
pub mod parse;
pub mod poll;
pub mod protocol;
pub mod text;

pub use address::resolve_addr;
