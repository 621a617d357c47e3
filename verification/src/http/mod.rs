//! The HTTP probe: response framing, header parsing, authentication
//! challenges and the fetch decisions.
pub mod message;
pub mod head;
pub mod classify;
pub mod fetch;
pub mod probe;
