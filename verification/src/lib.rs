//! Symbolic tag access for S7-family programmable logic controllers.
//!
//! The crate resolves short symbolic address strings such as `DB2W2` or
//! `MX10.5` into low-level area descriptors, converts raw byte buffers to and
//! from typed tag values, and packs many independent tag reads or writes into
//! bounded-size grouped transport calls.  Boolean writes that land in the same
//! underlying byte are coalesced into a single read-modify-write so they do
//! not clobber one another.
//!
//! The wire transport itself (connecting to a controller and carrying the
//! area read/write operations) is outside this crate: it is reached through
//! the [`transport::Transport`] trait, and [`sim::SimTransport`] provides an
//! in-memory stand-in for testing.

pub mod codec;
pub mod engine;
pub mod resolver;
pub mod sim;
pub mod transport;
pub mod types;

pub use engine::read_list;
pub use engine::read_tag;
pub use engine::write_list;
pub use engine::write_tag;
pub use resolver::conv_address;
pub use sim::SimTransport;
pub use transport::CHUNK_SIZE;
pub use transport::S7Item;
pub use transport::Transport;
pub use types::AddressError;
pub use types::BatchError;
pub use types::CodecError;
pub use types::ETag;
pub use types::ETagValue;
pub use types::ETagtype;
pub use types::S7Address;
pub use types::S7Area;
pub use types::S7WL;
pub use types::TagError;
pub use types::TransportError;
