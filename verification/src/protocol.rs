//! The messages between the build server and its clients: requests, and
//! the answers to them.
pub mod answer;
pub mod request;
