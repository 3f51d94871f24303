//! What the operations promise, said of their inputs and their results: each
//! law is stated over bytes, characters and numbers themselves, so that it
//! says what an operation is for and not how it goes about it.

pub mod clients;
pub mod framing;
pub mod inserts;
pub mod literals;
pub mod logins;
pub mod models;
pub mod numbers;
pub mod sessions;
pub mod streams;
pub mod targets;
pub mod texts;
pub mod tokens;
pub mod values;
