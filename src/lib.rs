//! Storage adaptor, cleanup coordination and listener configuration of a
//! scheduling service backend.

pub mod adaptor;
pub mod governor;
pub mod laws;
pub mod memory;
pub mod tasks;
pub mod transport;
