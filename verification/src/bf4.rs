//! Values of the Battlefield 4 dialect of the protocol.

pub mod event;
pub mod visibility;
