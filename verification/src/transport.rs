//! The transport boundary: the five operations this crate consumes from the
//! low-level PLC communication layer.
//!
//! The engines never talk to a controller themselves; they hand fully
//! resolved area descriptors and owned buffers to an implementation of
//! [`Transport`] and interpret its status codes.  A real implementation
//! wraps the native communication library; [`crate::sim::SimTransport`]
//! simulates area memory in this crate for testing.  Nothing here promises
//! that a call succeeds: the contracts only fix the shape of whatever comes
//! back, and the engines state what they return for every outcome.

use vstd::prelude::*;

use crate::types::S7Area;

verus! {

/// Most items one grouped transport call may carry.
pub const CHUNK_SIZE: usize = 20;

/// One item of a grouped call: a resolved area location and the byte count
/// to transfer.  Buffers travel beside the descriptors, correlated by
/// index, never by pointer.
#[derive(Copy, Clone, Debug, PartialEq, Eq, Structural)]
pub struct S7Item {
    pub area: S7Area,
    pub dbnb: u8,
    pub start: u8,
    pub size: u8,
}

/// The operations the engines consume.  Status codes are the transport's
/// native ones, with 0 meaning success; `Err` of a call carries the
/// call-level status, and a grouped call additionally reports one status
/// per item.
pub trait Transport {
    /// Reads `size` bytes from one area location.
    fn read_area(&mut self, area: S7Area, dbnb: u8, start: u8, size: u8) -> (r: Result<
        Vec<u8>,
        i32,
    >)
        requires
            size >= 1,
        ensures
            r matches Ok(buf) ==> buf@.len() == size as nat,
    ;

    /// Writes the buffer's bytes to one area location.
    fn write_area(&mut self, area: S7Area, dbnb: u8, start: u8, buf: &Vec<u8>) -> (r: Result<
        (),
        i32,
    >)
        requires
            buf@.len() >= 1,
    ;

    /// One grouped read round trip: on call-level success, one status and
    /// one buffer of the requested size per item, in item order.
    fn read_multi(&mut self, items: &Vec<S7Item>) -> (r: Result<Vec<(i32, Vec<u8>)>, i32>)
        requires
            1 <= items@.len() <= CHUNK_SIZE,
            forall|k: int| 0 <= k < items@.len() ==> (#[trigger] items@[k]).size >= 1,
        ensures
            r matches Ok(per) ==> per@.len() == items@.len() && forall|k: int|
                0 <= k < per@.len() ==> (#[trigger] per@[k]).1@.len() == items@[k].size as nat,
    ;

    /// One grouped write round trip: on call-level success, one status per
    /// item, in item order.
    fn write_multi(&mut self, items: &Vec<S7Item>, bufs: &Vec<Vec<u8>>) -> (r: Result<
        Vec<i32>,
        i32,
    >)
        requires
            items@.len() == bufs@.len(),
            1 <= items@.len() <= CHUNK_SIZE,
            forall|k: int| 0 <= k < items@.len() ==> (#[trigger] bufs@[k])@.len()
                == items@[k].size as nat,
        ensures
            r matches Ok(st) ==> st@.len() == items@.len(),
    ;

    /// Human-readable text for a native status code.
    fn error_text(&self, code: i32) -> String;
}

} // verus!
