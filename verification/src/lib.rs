//! The heart of a library that collects metrics inside an application.
//!
//! Values of metrics lie in a store. From them a ping is put together: a JSON tree of what
//! tells of the ping, what tells of the client, and the values that go to the ping. A ping as
//! text is stored in a file that appears whole or not at all. A metric that is used wrongly
//! does not fail its caller: the error is counted in a metric of its own.

pub mod assoc;
pub mod database;
pub mod encode;
pub mod error_recording;
pub mod json;
pub mod metrics;
pub mod ping;
pub mod ping_store;
