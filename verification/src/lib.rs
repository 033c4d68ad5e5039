//! A small stateful creature-simulation library.
//!
//! A single `Tamo` entity carries decaying stats, is mutated by short
//! single-letter commands, advances through discrete time ticks, and is
//! serialized to a one-line comma-separated record. Stats are held as
//! fixed-point integers in hundredths ("centi" units), so `10.00` is stored
//! as `1000`.

pub mod arith;
pub mod codec;
pub mod laws;
pub mod protocol;
pub mod tamo;

pub use codec::load_tamo;
pub use codec::LoadError;
pub use protocol::handle_request_line;
pub use protocol::process_request_string;
pub use protocol::ticker_step;
pub use protocol::Command;
pub use tamo::Tamo;
pub use tamo::TamoRoom;
