//! An in-memory transport: simulates controller area memory, counts round
//! trips, and injects call-level and item-level failures on demand, so the
//! engines can be exercised without a controller.

use vstd::prelude::*;

use crate::transport::S7Item;
use crate::transport::Transport;
use crate::types::S7Area;

verus! {

/// Packs an area location into one integer key: area code, block number and
/// starting byte in separate digit groups, with room above the byte offset
/// so that the consecutive bytes of one transfer get consecutive keys.
pub open spec fn spec_loc_key(area: S7Area, dbnb: u8, start: u8) -> u32 {
    (area.spec_code() * 0x10_0000 + dbnb * 0x1000 + start) as u32
}

/// Packs an area location into one integer key.
pub fn loc_key(area: S7Area, dbnb: u8, start: u8) -> (k: u32)
    ensures
        k == spec_loc_key(area, dbnb, start),
        k <= 0x8500_0000,
{
    (area.code() as u32) * 0x10_0000 + (dbnb as u32) * 0x1000 + (start as u32)
}

/// The byte stored under a key: the latest entry wins, absent keys read 0.
pub open spec fn lookup(mem: Seq<(u32, u8)>, k: u32) -> u8
    decreases mem.len(),
{
    if mem.len() == 0 {
        0
    } else if mem.last().0 == k {
        mem.last().1
    } else {
        lookup(mem.drop_last(), k)
    }
}

/// A transport stand-in holding simulated area memory.
///
/// `mem` is an association list from packed location keys to bytes; writes
/// append, the latest entry wins, and locations never written read 0.
/// `grouped_calls` and `area_calls` count round trips.  Setting
/// `fail_grouped_at` (or `fail_area_at`) to a nonzero `n` makes the `n`-th
/// grouped (or single-area) call fail with `fail_code`; a key listed in
/// `bad_items` makes grouped calls report `item_code` for the matching item
/// while its siblings keep status 0.
pub struct SimTransport {
    pub mem: Vec<(u32, u8)>,
    pub grouped_calls: u64,
    pub area_calls: u64,
    pub fail_grouped_at: u64,
    pub fail_area_at: u64,
    pub fail_code: i32,
    pub bad_items: Vec<u32>,
    pub item_code: i32,
}

/// Reads the byte stored under a key.
fn mem_get(mem: &Vec<(u32, u8)>, k: u32) -> (r: u8)
    ensures
        r == lookup(mem@, k),
{
    let mut i: usize = mem.len();
    proof {
        assert(mem@.subrange(0, mem@.len() as int) =~= mem@);
    }
    loop
        invariant
            i <= mem@.len(),
            lookup(mem@, k) == lookup(mem@.subrange(0, i as int), k),
        decreases i,
    {
        if i == 0 {
            proof {
                assert(mem@.subrange(0, 0).len() == 0);
            }
            return 0;
        }
        i = i - 1;
        let entry = mem[i];
        proof {
            assert(mem@.subrange(0, i + 1).last() == mem@[i as int]);
            assert(mem@.subrange(0, i + 1).drop_last() =~= mem@.subrange(0, i as int));
        }
        if entry.0 == k {
            return entry.1;
        }
    }
}

impl SimTransport {
    /// A fresh simulator: empty memory, zero counters, no injected faults.
    pub fn new() -> (s: SimTransport)
        ensures
            s.mem@.len() == 0,
            s.grouped_calls == 0,
            s.area_calls == 0,
            s.fail_grouped_at == 0,
            s.fail_area_at == 0,
            s.bad_items@.len() == 0,
    {
        SimTransport {
            mem: Vec::new(),
            grouped_calls: 0,
            area_calls: 0,
            fail_grouped_at: 0,
            fail_area_at: 0,
            fail_code: -1,
            bad_items: Vec::new(),
            item_code: 0,
        }
    }

    /// Seeds one byte of simulated memory.
    pub fn preset(&mut self, area: S7Area, dbnb: u8, start: u8, value: u8)
        ensures
            final(self).mem@ == old(self).mem@.push((spec_loc_key(area, dbnb, start), value)),
            final(self).grouped_calls == old(self).grouped_calls,
            final(self).area_calls == old(self).area_calls,
    {
        let k = loc_key(area, dbnb, start);
        self.mem.push((k, value));
    }

    /// Reads one byte of simulated memory without counting a round trip.
    pub fn peek(&self, area: S7Area, dbnb: u8, start: u8) -> (r: u8)
        ensures
            r == lookup(self.mem@, spec_loc_key(area, dbnb, start)),
    {
        let k = loc_key(area, dbnb, start);
        mem_get(&self.mem, k)
    }

    /// Whether a key is on the bad-item list.
    fn is_bad(&self, k: u32) -> (r: bool)
        ensures
            r == self.bad_items@.contains(k),
    {
        let mut i: usize = 0;
        while i < self.bad_items.len()
            invariant
                i <= self.bad_items@.len(),
                forall|j: int| 0 <= j < i ==> self.bad_items@[j] != k,
            decreases self.bad_items@.len() - i,
        {
            if self.bad_items[i] == k {
                return true;
            }
            i = i + 1;
        }
        false
    }

    /// Counts one single-area round trip; true when it must fail.
    fn bump_area(&mut self) -> (fail: bool)
    {
        if self.area_calls < u64::MAX {
            self.area_calls = self.area_calls + 1;
        }
        self.fail_area_at != 0 && self.area_calls == self.fail_area_at
    }

    /// Counts one grouped round trip; true when it must fail.
    fn bump_grouped(&mut self) -> (fail: bool)
    {
        if self.grouped_calls < u64::MAX {
            self.grouped_calls = self.grouped_calls + 1;
        }
        self.fail_grouped_at != 0 && self.grouped_calls == self.fail_grouped_at
    }

    /// Reads `size` consecutive bytes starting at a key.
    fn read_bytes(&self, k: u32, size: u8) -> (r: Vec<u8>)
        requires
            k <= 0x8500_0000,
        ensures
            r@.len() == size as nat,
    {
        let mut out: Vec<u8> = Vec::new();
        let mut i: usize = 0;
        while i < size as usize
            invariant
                k <= 0x8500_0000,
                i <= size as usize,
                out@.len() == i,
            decreases size as usize - i,
        {
            out.push(mem_get(&self.mem, k + i as u32));
            i = i + 1;
        }
        out
    }

    /// Stores the buffer's bytes under consecutive keys.
    fn write_bytes(&mut self, k: u32, buf: &Vec<u8>)
        requires
            k <= 0x8500_0000,
            buf@.len() <= 255,
    {
        let mut i: usize = 0;
        while i < buf.len()
            invariant
                k <= 0x8500_0000,
                buf@.len() <= 255,
                i <= buf@.len(),
        decreases buf@.len() - i,
        {
            let b = buf[i];
            self.mem.push((k + i as u32, b));
            i = i + 1;
        }
    }
}

impl Transport for SimTransport {
    fn read_area(&mut self, area: S7Area, dbnb: u8, start: u8, size: u8) -> (r: Result<
        Vec<u8>,
        i32,
    >) {
        if self.bump_area() {
            return Err(self.fail_code);
        }
        let k = loc_key(area, dbnb, start);
        Ok(self.read_bytes(k, size))
    }

    fn write_area(&mut self, area: S7Area, dbnb: u8, start: u8, buf: &Vec<u8>) -> (r: Result<
        (),
        i32,
    >) {
        if self.bump_area() {
            return Err(self.fail_code);
        }
        let k = loc_key(area, dbnb, start);
        if buf.len() <= 255 {
            self.write_bytes(k, buf);
        }
        Ok(())
    }

    fn read_multi(&mut self, items: &Vec<S7Item>) -> (r: Result<Vec<(i32, Vec<u8>)>, i32>) {
        if self.bump_grouped() {
            return Err(self.fail_code);
        }
        let mut out: Vec<(i32, Vec<u8>)> = Vec::new();
        let mut i: usize = 0;
        while i < items.len()
            invariant
                i <= items@.len(),
                out@.len() == i,
                forall|j: int| 0 <= j < items@.len() ==> (#[trigger] items@[j]).size >= 1,
                forall|j: int| 0 <= j < i ==> (#[trigger] out@[j]).1@.len() == items@[j].size as nat,
            decreases items@.len() - i,
        {
            let it = items[i];
            let k = loc_key(it.area, it.dbnb, it.start);
            let status: i32 = if self.is_bad(k) {
                self.item_code
            } else {
                0
            };
            let data = self.read_bytes(k, it.size);
            out.push((status, data));
            i = i + 1;
        }
        Ok(out)
    }

    fn write_multi(&mut self, items: &Vec<S7Item>, bufs: &Vec<Vec<u8>>) -> (r: Result<
        Vec<i32>,
        i32,
    >) {
        if self.bump_grouped() {
            return Err(self.fail_code);
        }
        let mut out: Vec<i32> = Vec::new();
        let mut i: usize = 0;
        while i < items.len()
            invariant
                i <= items@.len(),
                items@.len() == bufs@.len(),
                out@.len() == i,
            decreases items@.len() - i,
        {
            let it = items[i];
            let k = loc_key(it.area, it.dbnb, it.start);
            if self.is_bad(k) {
                out.push(self.item_code);
            } else {
                if bufs[i].len() <= 255 {
                    let buf = &bufs[i];
                    self.write_bytes(k, buf);
                }
                out.push(0);
            }
            i = i + 1;
        }
        Ok(out)
    }

    fn error_text(&self, code: i32) -> (r: String) {
        if code == 0 {
            "OK".to_owned()
        } else {
            "simulated transport failure".to_owned()
        }
    }
}

} // verus!
