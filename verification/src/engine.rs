//! The read/write engines: single-tag operations, and batched operations
//! that resolve every tag up front, chunk the work into bounded grouped
//! transport calls, coalesce boolean writes that share a byte, and hand
//! results back in input order.

use vstd::prelude::*;

use crate::codec::conv_buf;
use crate::codec::conv_buf_spec;
use crate::codec::conv_value;
use crate::codec::conv_value_spec;
use crate::codec::set_bit;
use crate::resolver::conv_address;
use crate::resolver::resolve_spec;
use crate::transport::CHUNK_SIZE;
use crate::transport::S7Item;
use crate::transport::Transport;
use crate::types::AddressError;
use crate::types::BatchError;
use crate::types::CodecError;
use crate::types::ETag;
use crate::types::ETagValue;
use crate::types::ETagtype;
use crate::types::S7Address;
use crate::types::TagError;
use crate::types::TransportError;
use crate::types::value_matches;

verus! {

/// What resolving a tag's address against its declared type yields.
pub open spec fn tag_resolve(tag: ETag) -> Result<S7Address, AddressError> {
    resolve_spec(tag.address@, tag.datatype)
}

/// The first resolution error at or after position `i`, if any.
pub open spec fn first_addr_err_from(tags: Seq<ETag>, i: int) -> Option<AddressError>
    decreases tags.len() - i
        when 0 <= i <= tags.len()
{
    if i >= tags.len() {
        None
    } else {
        match tag_resolve(tags[i]) {
            Err(e) => Some(e),
            Ok(_) => first_addr_err_from(tags, i + 1),
        }
    }
}

/// The first resolution error in a batch, if any: a batch aborts on it
/// before any transport activity.
pub open spec fn first_addr_err(tags: Seq<ETag>) -> Option<AddressError> {
    first_addr_err_from(tags, 0)
}

/// The tags of a write batch's (tag, value) pairs.
pub open spec fn pair_tags(tags: Seq<(ETag, ETagValue)>) -> Seq<ETag> {
    tags.map_values(|p: (ETag, ETagValue)| p.0)
}

/// The values of a write batch's (tag, value) pairs.
pub open spec fn pair_vals(tags: Seq<(ETag, ETagValue)>) -> Seq<ETagValue> {
    tags.map_values(|p: (ETag, ETagValue)| p.1)
}

/// The grouped-call descriptor of a resolved address: its location and
/// size; transfers are whole bytes, so the bit offset plays no part.
pub open spec fn spec_data_item(a: S7Address) -> S7Item {
    S7Item { area: a.area, dbnb: a.dbnb, start: a.start, size: a.size }
}

/// Builds the grouped-call descriptor of a resolved address.
pub fn get_s7data_item(addr: &S7Address) -> (r: S7Item)
    ensures
        r == spec_data_item(*addr),
{
    S7Item { area: addr.area, dbnb: addr.dbnb, start: addr.start, size: addr.size }
}

/// How many grouped calls a batch of `n` items needs under a chunk bound of
/// `c`: the division rounded up.
pub open spec fn num_chunks(n: int, c: int) -> int
    recommends
        n >= 0,
        c >= 1,
{
    (n + c - 1) / c
}

/// Splits `0..n` into consecutive chunks of at most `CHUNK_SIZE` items:
/// exactly `num_chunks(n, CHUNK_SIZE)` of them, in order, gapless, each
/// nonempty, all but the last full.
#[verifier::rlimit(60)]
pub fn chunk_bounds(n: usize) -> (r: Vec<(usize, usize)>)
    ensures
        r@.len() == num_chunks(n as int, CHUNK_SIZE as int),
        r@.len() > 0 <==> n > 0,
        forall|k: int| 0 <= k < r@.len() ==> (#[trigger] r@[k]).0 < r@[k].1 <= n,
        forall|k: int| 0 <= k < r@.len() ==> (#[trigger] r@[k]).1 - r@[k].0 <= CHUNK_SIZE,
        forall|k: int| 0 <= k < r@.len() - 1 ==> (#[trigger] r@[k]).1 - r@[k].0 == CHUNK_SIZE,
        forall|k: int| 0 < k < r@.len() ==> (#[trigger] r@[k]).0 == r@[k - 1].1,
        r@.len() > 0 ==> r@[0].0 == 0 && r@[r@.len() - 1].1 == n,
{
    let mut bounds: Vec<(usize, usize)> = Vec::new();
    let mut start: usize = 0;
    while start < n
        invariant
            start <= n,
            bounds@.len() == 0 ==> start == 0,
            forall|k: int| 0 <= k < bounds@.len() ==> (#[trigger] bounds@[k]).0 < bounds@[k].1
                <= n,
            forall|k: int| 0 <= k < bounds@.len() ==> (#[trigger] bounds@[k]).1 - bounds@[k].0
                <= CHUNK_SIZE,
            forall|k: int| 0 <= k < bounds@.len() - 1 ==> (#[trigger] bounds@[k]).1
                - bounds@[k].0 == CHUNK_SIZE,
            forall|k: int| 0 < k < bounds@.len() ==> (#[trigger] bounds@[k]).0 == bounds@[k
                - 1].1,
            bounds@.len() > 0 ==> bounds@[0].0 == 0 && bounds@[bounds@.len() - 1].1 == start,
            bounds@.len() > 0 ==> bounds@[bounds@.len() - 1].0 == (bounds@.len() - 1) * (
            CHUNK_SIZE as int),
            start < n ==> start == bounds@.len() * (CHUNK_SIZE as int),
            start == bounds@.len() * (CHUNK_SIZE as int) || (start == n && start > (bounds@.len()
                - 1) * (CHUNK_SIZE as int)),
            bounds@.len() * (CHUNK_SIZE as int) >= start,
        decreases n - start,
    {
        let csize: usize = if n - start < CHUNK_SIZE {
            n - start
        } else {
            CHUNK_SIZE
        };
        bounds.push((start, start + csize));
        start = start + csize;
    }
    proof {
        let len = bounds@.len() as int;
        let c = CHUNK_SIZE as int;
        if len == 0 {
            assert(n == 0);
            vstd::arithmetic::div_mod::lemma_fundamental_div_mod_converse(c - 1, c, 0, c - 1);
        } else {
            assert(n > 0);
            assert((len - 1) * c < n <= len * c);
            vstd::arithmetic::div_mod::lemma_fundamental_div_mod_converse(
                n as int + c - 1,
                c,
                len,
                n + c - 1 - len * c,
            );
        }
    }
    bounds
}

/// Whether a value's variant agrees with a declared tag type.
fn value_ok(write: &ETagValue, t: &ETagtype) -> (r: bool)
    ensures
        r == value_matches(*write, *t),
{
    match t {
        ETagtype::BOOL => matches!(write, ETagValue::Bool(_)),
        ETagtype::INT => matches!(write, ETagValue::Int(_)),
        ETagtype::DINT => matches!(write, ETagValue::Int(_)),
        ETagtype::REAL => matches!(write, ETagValue::Real(_)),
    }
}

/// Reads one tag: resolve, one area read sized to the resolved address,
/// decode.  Resolution failures surface before any transport activity, a
/// transport failure carries the native status code and its text, and a
/// returned value is the decoding of some buffer of the resolved size — in
/// particular its variant agrees with the declared type.  A read never
/// returns a codec error: resolution already bounds the bit offset.
pub fn read_tag<T: Transport>(t: &mut T, tag: &ETag) -> (r: Result<ETagValue, TagError>)
    ensures
        tag_resolve(*tag) matches Err(e) ==> r == Err::<ETagValue, TagError>(TagError::Address(e))
            && *final(t) == *old(t),
        r matches Err(e) ==> match e {
            TagError::Address(ae) => tag_resolve(*tag) == Err::<S7Address, AddressError>(ae),
            TagError::Codec(_) => false,
            TagError::Transport(_) => tag_resolve(*tag) is Ok,
        },
        r matches Ok(v) ==> {
            &&& tag_resolve(*tag) is Ok
            &&& value_matches(v, tag.datatype)
            &&& exists|b: Seq<u8>|
                Ok::<ETagValue, CodecError>(v) == conv_value_spec(
                    b,
                    tag.datatype,
                    tag_resolve(*tag).unwrap().bit,
                )
        },
{
    let addr = match conv_address(tag.address.as_str(), tag.datatype) {
        Ok(a) => a,
        Err(e) => {
            return Err(TagError::Address(e));
        },
    };
    let buf = match t.read_area(addr.area, addr.dbnb, addr.start, addr.size) {
        Ok(b) => b,
        Err(code) => {
            let text = t.error_text(code);
            return Err(TagError::Transport(TransportError { code, text }));
        },
    };
    // resolution bounds the bit offset, so decoding cannot fail
    let v = conv_value(&buf, &tag.datatype, addr.bit).unwrap();
    proof {
        assert(Ok::<ETagValue, CodecError>(v) == conv_value_spec(buf@, tag.datatype, addr.bit));
    }
    Ok(v)
}

/// Writes one tag: resolve, encode, one area write.  A boolean first
/// fetches the byte already in controller memory with one extra area read,
/// so the other seven bits are preserved.  Resolution failures and
/// value/type disagreements surface before any transport write; a
/// disagreement is reported exactly as an invalid-value codec error.
pub fn write_tag<T: Transport>(t: &mut T, tag: &ETag, write: ETagValue) -> (r: Result<
    bool,
    TagError,
>)
    ensures
        tag_resolve(*tag) matches Err(e) ==> r == Err::<bool, TagError>(TagError::Address(e))
            && *final(t) == *old(t),
        tag_resolve(*tag) is Ok && !value_matches(write, tag.datatype) ==> r == Err::<
            bool,
            TagError,
        >(TagError::Codec(CodecError::InvalidValueForType)) && *final(t) == *old(t),
        r matches Err(e) ==> match e {
            TagError::Address(ae) => tag_resolve(*tag) == Err::<S7Address, AddressError>(ae),
            TagError::Codec(ce) => tag_resolve(*tag) is Ok && !value_matches(write, tag.datatype)
                && ce == CodecError::InvalidValueForType,
            TagError::Transport(_) => tag_resolve(*tag) is Ok && value_matches(
                write,
                tag.datatype,
            ),
        },
        r matches Ok(b) ==> b == true && tag_resolve(*tag) is Ok && value_matches(
            write,
            tag.datatype,
        ),
{
    let addr = match conv_address(tag.address.as_str(), tag.datatype) {
        Ok(a) => a,
        Err(e) => {
            return Err(TagError::Address(e));
        },
    };
    if !value_ok(&write, &tag.datatype) {
        return Err(TagError::Codec(CodecError::InvalidValueForType));
    }
    let buf: Vec<u8>;
    if addr.datatype.is_bool() {
        let cur = match t.read_area(addr.area, addr.dbnb, addr.start, 1) {
            Ok(c) => c,
            Err(code) => {
                let text = t.error_text(code);
                return Err(TagError::Transport(TransportError { code, text }));
            },
        };
        // the value's variant was checked, so encoding cannot fail
        buf = conv_buf(write, &addr, Some(cur[0])).unwrap();
    } else {
        buf = conv_buf(write, &addr, None).unwrap();
    }
    match t.write_area(addr.area, addr.dbnb, addr.start, &buf) {
        Ok(_) => Ok(true),
        Err(code) => {
            let text = t.error_text(code);
            Err(TagError::Transport(TransportError { code, text }))
        },
    }
}

/// Resolves every tag of a batch, in order, stopping at the first failure:
/// the resolve-all-or-abort step shared by both batch engines.
fn resolve_all(tags: &Vec<ETag>) -> (r: Result<Vec<S7Address>, AddressError>)
    ensures
        match r {
            Ok(addrs) => {
                &&& addrs@.len() == tags@.len()
                &&& forall|i: int|
                    0 <= i < tags@.len() ==> Ok::<S7Address, AddressError>(#[trigger] addrs@[i])
                        == tag_resolve(tags@[i])
                &&& forall|i: int|
                    0 <= i < tags@.len() ==> (#[trigger] addrs@[i]).wf() && addrs@[i].datatype
                        == tags@[i].datatype
                &&& first_addr_err(tags@) is None
            },
            Err(e) => first_addr_err(tags@) == Some(e),
        },
{
    let mut addrs: Vec<S7Address> = Vec::new();
    let mut i: usize = 0;
    while i < tags.len()
        invariant
            i <= tags@.len(),
            addrs@.len() == i,
            forall|k: int|
                0 <= k < i ==> Ok::<S7Address, AddressError>(#[trigger] addrs@[k]) == tag_resolve(
                    tags@[k],
                ),
            forall|k: int|
                0 <= k < i ==> (#[trigger] addrs@[k]).wf() && addrs@[k].datatype
                    == tags@[k].datatype,
            first_addr_err(tags@) == first_addr_err_from(tags@, i as int),
        decreases tags@.len() - i,
    {
        match conv_address(tags[i].address.as_str(), tags[i].datatype) {
            Ok(a) => {
                addrs.push(a);
            },
            Err(e) => {
                return Err(e);
            },
        }
        i = i + 1;
    }
    Ok(addrs)
}

/// Resolves every tag of a write batch, in order, stopping at the first
/// failure.
fn resolve_all_pairs(tags: &Vec<(ETag, ETagValue)>) -> (r: Result<Vec<S7Address>, AddressError>)
    ensures
        match r {
            Ok(addrs) => {
                &&& addrs@.len() == tags@.len()
                &&& forall|i: int|
                    0 <= i < tags@.len() ==> Ok::<S7Address, AddressError>(#[trigger] addrs@[i])
                        == tag_resolve(tags@[i].0)
                &&& forall|i: int|
                    0 <= i < tags@.len() ==> (#[trigger] addrs@[i]).wf() && addrs@[i].datatype
                        == tags@[i].0.datatype
                &&& first_addr_err(pair_tags(tags@)) is None
            },
            Err(e) => first_addr_err(pair_tags(tags@)) == Some(e),
        },
{
    let mut addrs: Vec<S7Address> = Vec::new();
    let mut i: usize = 0;
    proof {
        assert(pair_tags(tags@).len() == tags@.len());
    }
    while i < tags.len()
        invariant
            i <= tags@.len(),
            addrs@.len() == i,
            forall|k: int|
                0 <= k < i ==> Ok::<S7Address, AddressError>(#[trigger] addrs@[k]) == tag_resolve(
                    tags@[k].0,
                ),
            forall|k: int|
                0 <= k < i ==> (#[trigger] addrs@[k]).wf() && addrs@[k].datatype
                    == tags@[k].0.datatype,
            first_addr_err(pair_tags(tags@)) == first_addr_err_from(pair_tags(tags@), i as int),
        decreases tags@.len() - i,
    {
        proof {
            assert(pair_tags(tags@)[i as int] == tags@[i as int].0);
        }
        match conv_address(tags[i].0.address.as_str(), tags[i].0.datatype) {
            Ok(a) => {
                addrs.push(a);
            },
            Err(e) => {
                return Err(e);
            },
        }
        i = i + 1;
    }
    Ok(addrs)
}

/// What one slot of a batch read's result sequence may hold: a decoded
/// value of some buffer under the tag's own type and bit offset (so the
/// variant agrees with the declared type), or that item's own transport
/// status — never an address or codec error.
pub open spec fn item_read_ok(res: Result<ETagValue, TagError>, tag: ETag) -> bool {
    match res {
        Ok(v) => value_matches(v, tag.datatype) && (exists|b: Seq<u8>|
            Ok::<ETagValue, CodecError>(v) == conv_value_spec(
                b,
                tag.datatype,
                tag_resolve(tag).unwrap().bit,
            )),
        Err(e) => e is Transport,
    }
}

/// Reads a batch of tags in one pass: resolve all (or abort with the first
/// address error, before any transport activity), one read descriptor and
/// buffer per tag in input order, grouped calls of at most `CHUNK_SIZE`
/// items, abort the whole batch on the first chunk-level failure, and
/// otherwise decode per item under its own status.  The result sequence
/// matches the input 1:1 in length and order.
#[verifier::loop_isolation(false)]
#[verifier::rlimit(100)]
pub fn read_list<T: Transport>(t: &mut T, tags: &Vec<ETag>) -> (r: Result<
    Vec<Result<ETagValue, TagError>>,
    BatchError,
>)
    ensures
        first_addr_err(tags@) matches Some(e) ==> r == Err::<
            Vec<Result<ETagValue, TagError>>,
            BatchError,
        >(BatchError::Address(e)) && *final(t) == *old(t),
        tags@.len() == 0 ==> (r matches Ok(rs) && rs@.len() == 0) && *final(t) == *old(t),
        r matches Err(e) ==> match e {
            BatchError::Address(ae) => first_addr_err(tags@) == Some(ae),
            BatchError::Transport(_) => first_addr_err(tags@) is None,
        },
        r matches Ok(rs) ==> {
            &&& first_addr_err(tags@) is None
            &&& rs@.len() == tags@.len()
            &&& forall|i: int| 0 <= i < rs@.len() ==> item_read_ok(#[trigger] rs@[i], tags@[i])
        },
{
    let addrs = match resolve_all(tags) {
        Ok(a) => a,
        Err(e) => {
            return Err(BatchError::Address(e));
        },
    };
    let n = tags.len();
    if n == 0 {
        return Ok(Vec::new());
    }
    let bounds = chunk_bounds(n);
    let mut results: Vec<Result<ETagValue, TagError>> = Vec::new();
    let mut ci: usize = 0;
    while ci < bounds.len()
        invariant
            ci <= bounds@.len(),
            results@.len() == if ci == 0 {
                0int
            } else {
                bounds@[ci as int - 1].1 as int
            },
            forall|i: int| 0 <= i < results@.len() ==> item_read_ok(
                #[trigger] results@[i],
                tags@[i],
            ),
        decreases bounds@.len() - ci,
    {
        let cstart = bounds[ci].0;
        let cend = bounds[ci].1;
        let mut items: Vec<S7Item> = Vec::new();
        let mut k: usize = cstart;
        while k < cend
            invariant
                cstart <= k <= cend,
                items@.len() == k - cstart,
                forall|j: int| 0 <= j < items@.len() ==> #[trigger] items@[j] == spec_data_item(
                    addrs@[cstart + j],
                ),
            decreases cend - k,
        {
            items.push(get_s7data_item(&addrs[k]));
            k = k + 1;
        }
        let per = match t.read_multi(&items) {
            Ok(p) => p,
            Err(code) => {
                let text = t.error_text(code);
                return Err(BatchError::Transport(TransportError { code, text }));
            },
        };
        let mut k: usize = 0;
        while k < per.len()
            invariant
                k <= per@.len(),
                results@.len() == cstart + k,
                forall|i: int| 0 <= i < results@.len() ==> item_read_ok(
                    #[trigger] results@[i],
                    tags@[i],
                ),
            decreases per@.len() - k,
        {
            let status = per[k].0;
            let g = cstart + k;
            if status == 0 {
                // resolution bounds the bit offset, so decoding cannot fail
                let v = conv_value(&per[k].1, &tags[g].datatype, addrs[g].bit).unwrap();
                proof {
                    assert(Ok::<ETagValue, CodecError>(v) == conv_value_spec(
                        per@[k as int].1@,
                        tags@[g as int].datatype,
                        addrs@[g as int].bit,
                    ));
                }
                results.push(Ok(v));
            } else {
                let text = t.error_text(status);
                results.push(Err(TagError::Transport(TransportError { code: status, text })));
            }
            k = k + 1;
        }
        ci = ci + 1;
    }
    Ok(results)
}

/// The buffer a write batch first allocates for one entry: the encoding of
/// the value against the resolved address (without a current byte — a
/// boolean gets its placeholder).  An entry whose value variant disagrees
/// with the declared type gets a zero buffer of the wire size as a
/// placeholder; such an entry is never sent — its slot reports the
/// invalid-value error instead.
pub open spec fn initial_buf(v: ETagValue, a: S7Address) -> Seq<u8> {
    match conv_buf_spec(v, a, None) {
        Ok(b) => b,
        Err(_) => Seq::new(a.size as nat, |i: int| 0u8),
    }
}

/// A zero buffer of the given size.
fn zero_buf(size: u8) -> (r: Vec<u8>)
    ensures
        r@ =~= Seq::new(size as nat, |i: int| 0u8),
{
    let mut out: Vec<u8> = Vec::new();
    let mut i: usize = 0;
    while i < size as usize
        invariant
            i <= size as usize,
            out@.len() == i,
            forall|j: int| 0 <= j < i ==> out@[j] == 0u8,
        decreases size as usize - i,
    {
        out.push(0);
        i = i + 1;
    }
    out
}

/// An exact copy of a byte buffer.
fn copy_bytes(src: &Vec<u8>) -> (r: Vec<u8>)
    ensures
        r@ == src@,
{
    let mut out: Vec<u8> = Vec::new();
    let mut i: usize = 0;
    while i < src.len()
        invariant
            i <= src@.len(),
            out@.len() == i,
            forall|j: int| 0 <= j < i ==> out@[j] == src@[j],
        decreases src@.len() - i,
    {
        out.push(src[i]);
        i = i + 1;
    }
    proof {
        assert(out@ =~= src@);
    }
    out
}

/// Builds the initial write buffer of every entry, in input order.
fn build_write_bufs(tags: &Vec<(ETag, ETagValue)>, addrs: &Vec<S7Address>) -> (r: Vec<Vec<u8>>)
    requires
        addrs@.len() == tags@.len(),
        forall|i: int| 0 <= i < addrs@.len() ==> (#[trigger] addrs@[i]).wf(),
    ensures
        r@.len() == tags@.len(),
        forall|i: int| 0 <= i < r@.len() ==> (#[trigger] r@[i])@ == initial_buf(
            tags@[i].1,
            addrs@[i],
        ),
        forall|i: int| 0 <= i < r@.len() ==> (#[trigger] r@[i])@.len() == addrs@[i].size as nat,
{
    let mut out: Vec<Vec<u8>> = Vec::new();
    let mut i: usize = 0;
    while i < tags.len()
        invariant
            i <= tags@.len(),
            out@.len() == i,
            addrs@.len() == tags@.len(),
            forall|k: int| 0 <= k < addrs@.len() ==> (#[trigger] addrs@[k]).wf(),
            forall|k: int| 0 <= k < i ==> (#[trigger] out@[k])@ == initial_buf(
                tags@[k].1,
                addrs@[k],
            ),
            forall|k: int| 0 <= k < i ==> (#[trigger] out@[k])@.len() == addrs@[k].size as nat,
        decreases tags@.len() - i,
    {
        match conv_buf(tags[i].1, &addrs[i], None) {
            Ok(b) => {
                out.push(b);
            },
            Err(_) => {
                out.push(zero_buf(addrs[i].size));
            },
        }
        i = i + 1;
    }
    out
}

/// Two resolved addresses land in the same underlying byte of boolean
/// memory: both boolean, same area, same block, same starting byte.
pub open spec fn same_group(a: S7Address, b: S7Address) -> bool {
    &&& a.datatype is BOOL
    &&& b.datatype is BOOL
    &&& a.area == b.area
    &&& a.dbnb == b.dbnb
    &&& a.start == b.start
}

/// Whether two resolved addresses land in the same boolean byte.
fn same_group_exec(a: &S7Address, b: &S7Address) -> (r: bool)
    ensures
        r == same_group(*a, *b),
{
    a.datatype.is_bool() && b.datatype.is_bool() && a.area == b.area && a.dbnb == b.dbnb
        && a.start == b.start
}

/// The byte a coalesced group writes: starting from the byte fetched from
/// controller memory, every entry of the batch that is boolean, lands in
/// `g`'s byte and carries a boolean value forces its own bit, in input
/// order, considering the first `upto` entries.
pub open spec fn merged_byte(
    base: u8,
    addrs: Seq<S7Address>,
    vals: Seq<ETagValue>,
    g: S7Address,
    upto: int,
) -> u8
    recommends
        vals.len() == addrs.len(),
        upto <= addrs.len(),
    decreases upto,
        when upto <= addrs.len()
{
    if upto <= 0 {
        base
    } else {
        let prev = merged_byte(base, addrs, vals, g, upto - 1);
        if same_group(addrs[upto - 1], g) {
            match vals[upto - 1] {
                ETagValue::Bool(b) => set_bit(prev, addrs[upto - 1].bit, b),
                _ => prev,
            }
        } else {
            prev
        }
    }
}

/// Folds the whole batch's pending bits of `g`'s byte over the fetched
/// base byte.
fn compute_merged(
    tags: &Vec<(ETag, ETagValue)>,
    addrs: &Vec<S7Address>,
    g: S7Address,
    base: u8,
) -> (r: u8)
    requires
        addrs@.len() == tags@.len(),
        forall|i: int| 0 <= i < addrs@.len() ==> (#[trigger] addrs@[i]).wf(),
    ensures
        r == merged_byte(base, addrs@, pair_vals(tags@), g, addrs@.len() as int),
{
    let mut acc: u8 = base;
    let mut j: usize = 0;
    while j < tags.len()
        invariant
            j <= tags@.len(),
            addrs@.len() == tags@.len(),
            forall|i: int| 0 <= i < addrs@.len() ==> (#[trigger] addrs@[i]).wf(),
            acc == merged_byte(base, addrs@, pair_vals(tags@), g, j as int),
        decreases tags@.len() - j,
    {
        proof {
            assert(pair_vals(tags@)[j as int] == tags@[j as int].1);
        }
        if same_group_exec(&addrs[j], &g) {
            if let ETagValue::Bool(b) = tags[j].1 {
                let mask: u8 = 1u8 << (7 - addrs[j].bit);
                acc = if b {
                    acc | mask
                } else {
                    acc & !mask
                };
            }
        }
        j = j + 1;
    }
    acc
}

/// Replaces the buffer of every entry landing in `g`'s byte with the one
/// merged byte; every other buffer is kept.  All members of the group carry
/// the identical byte into the grouped write, which is what makes their
/// simultaneous write safe: they all target the same physical byte.
fn set_group_bufs(bufs: &mut Vec<Vec<u8>>, addrs: &Vec<S7Address>, g: S7Address, merged: u8)
    requires
        old(bufs)@.len() == addrs@.len(),
    ensures
        final(bufs)@.len() == addrs@.len(),
        forall|j: int|
            0 <= j < addrs@.len() ==> (#[trigger] final(bufs)@[j])@ == if same_group(
                addrs@[j],
                g,
            ) {
                seq![merged]
            } else {
                old(bufs)@[j]@
            },
{
    let n = addrs.len();
    let mut j: usize = 0;
    while j < n
        invariant
            j <= n,
            n == addrs@.len(),
            bufs@.len() == addrs@.len(),
            forall|k: int|
                0 <= k < j ==> (#[trigger] bufs@[k])@ == if same_group(addrs@[k], g) {
                    seq![merged]
                } else {
                    old(bufs)@[k]@
                },
            forall|k: int| j <= k < n ==> (#[trigger] bufs@[k])@ == old(bufs)@[k]@,
        decreases n - j,
    {
        if same_group_exec(&addrs[j], &g) {
            let mut nb: Vec<u8> = Vec::new();
            nb.push(merged);
            proof {
                assert(nb@ =~= seq![merged]);
            }
            bufs.set(j, nb);
        }
        j = j + 1;
    }
}

/// A batch entry whose value variant agrees with its tag's declared type.
/// Only these are encoded and written; any other entry gets its own
/// per-item invalid-value error and never reaches the transport.
pub open spec fn entry_valid(p: (ETag, ETagValue)) -> bool {
    value_matches(p.1, p.0.datatype)
}

/// How many of the first `i` entries of a write batch are valid.
pub open spec fn valid_upto(tags: Seq<(ETag, ETagValue)>, i: int) -> int
    decreases i,
        when i >= 0
{
    if i <= 0 {
        0
    } else {
        valid_upto(tags, i - 1) + if entry_valid(tags[i - 1]) {
            1int
        } else {
            0int
        }
    }
}

/// The count of valid entries is nonnegative and at most the prefix length.
proof fn lemma_valid_upto_bounds(tags: Seq<(ETag, ETagValue)>, i: int)
    requires
        0 <= i,
    ensures
        0 <= valid_upto(tags, i) <= i,
    decreases i,
{
    if i > 0 {
        lemma_valid_upto_bounds(tags, i - 1);
    }
}

/// The count of valid entries grows with the prefix.
proof fn lemma_valid_upto_mono(tags: Seq<(ETag, ETagValue)>, i: int, j: int)
    requires
        0 <= i <= j,
    ensures
        valid_upto(tags, i) <= valid_upto(tags, j),
    decreases j - i,
{
    if i < j {
        lemma_valid_upto_mono(tags, i, j - 1);
    }
}

/// A batch entry that takes part in bit coalescing: a boolean tag carrying
/// a boolean value.
pub open spec fn bool_member(tags: Seq<(ETag, ETagValue)>, addrs: Seq<S7Address>, j: int) -> bool {
    &&& 0 <= j < addrs.len()
    &&& addrs[j].datatype is BOOL
    &&& tags[j].1 is Bool
}

/// The first coalescing member of its byte: the entry at which the group's
/// one prefetch of the live byte happens.
pub open spec fn is_lead(tags: Seq<(ETag, ETagValue)>, addrs: Seq<S7Address>, i: int) -> bool {
    &&& bool_member(tags, addrs, i)
    &&& forall|j: int|
        0 <= j < i ==> !(#[trigger] bool_member(tags, addrs, j) && same_group(addrs[j], addrs[i]))
}

/// The group leads of a write batch, in input order: exactly one per
/// distinct boolean byte that some coalescing member writes, each the first
/// member of its byte, their bytes pairwise distinct, and every coalescing
/// member covered by one of them.
#[verifier::loop_isolation(false)]
fn find_leads(tags: &Vec<(ETag, ETagValue)>, addrs: &Vec<S7Address>) -> (r: Vec<usize>)
    requires
        addrs@.len() == tags@.len(),
    ensures
        forall|k: int| 0 <= k < r@.len() ==> (#[trigger] r@[k]) < addrs@.len() && is_lead(
            tags@,
            addrs@,
            r@[k] as int,
        ),
        forall|k1: int, k2: int|
            0 <= k1 < r@.len() && 0 <= k2 < r@.len() && k1 != k2 ==> !same_group(
                addrs@[#[trigger] r@[k1] as int],
                addrs@[#[trigger] r@[k2] as int],
            ),
        forall|j: int| #[trigger] bool_member(tags@, addrs@, j) ==> exists|k: int|
            0 <= k < r@.len() && same_group(addrs@[j], addrs@[r@[k] as int]),
{
    let n = tags.len();
    let mut leads: Vec<usize> = Vec::new();
    let mut i: usize = 0;
    while i < n
        invariant
            i <= n,
            forall|k: int| 0 <= k < leads@.len() ==> (#[trigger] leads@[k]) < i && is_lead(
                tags@,
                addrs@,
                leads@[k] as int,
            ),
            forall|k1: int, k2: int|
                0 <= k1 < leads@.len() && 0 <= k2 < leads@.len() && k1 != k2 ==> !same_group(
                    addrs@[#[trigger] leads@[k1] as int],
                    addrs@[#[trigger] leads@[k2] as int],
                ),
            forall|j: int|
                0 <= j < i && #[trigger] bool_member(tags@, addrs@, j) ==> exists|k: int|
                    0 <= k < leads@.len() && same_group(addrs@[j], addrs@[leads@[k] as int]),
        decreases n - i,
    {
        let member = addrs[i].datatype.is_bool() && matches!(tags[i].1, ETagValue::Bool(_));
        if member {
            let mut lead = true;
            let ghost mut wit: int = 0;
            let mut j: usize = 0;
            while j < i
                invariant
                    j <= i < n,
                    lead ==> forall|q: int|
                        0 <= q < j ==> !(#[trigger] bool_member(tags@, addrs@, q) && same_group(
                            addrs@[q],
                            addrs@[i as int],
                        )),
                    !lead ==> bool_member(tags@, addrs@, wit) && wit < i && same_group(
                        addrs@[wit],
                        addrs@[i as int],
                    ),
                decreases i - j,
            {
                if matches!(tags[j].1, ETagValue::Bool(_)) && same_group_exec(&addrs[j], &addrs[i])
                {
                    lead = false;
                    proof {
                        wit = j as int;
                    }
                }
                j = j + 1;
            }
            if lead {
                proof {
                    assert(is_lead(tags@, addrs@, i as int));
                    // the new lead's byte is distinct from every earlier
                    // lead's: an earlier lead of the same byte would be an
                    // earlier member of it
                    assert forall|k: int| 0 <= k < leads@.len() implies !same_group(
                        addrs@[#[trigger] leads@[k] as int],
                        addrs@[i as int],
                    ) by {
                        assert(bool_member(tags@, addrs@, leads@[k] as int));
                    }
                }
                let ghost prior = leads@;
                leads.push(i);
                proof {
                    // every member covered before keeps its lead at the
                    // same position; the new lead covers itself
                    assert forall|j: int|
                        0 <= j <= i as int && #[trigger] bool_member(
                            tags@,
                            addrs@,
                            j,
                        ) implies exists|k: int|
                        0 <= k < leads@.len() && same_group(
                            addrs@[j],
                            addrs@[leads@[k] as int],
                        ) by {
                        if j == i as int {
                            assert(leads@[leads@.len() - 1] == i);
                            assert(same_group(addrs@[j], addrs@[leads@[leads@.len() - 1] as int]));
                        } else {
                            let k1 = choose|k: int|
                                0 <= k < prior.len() && same_group(
                                    addrs@[j],
                                    addrs@[prior[k] as int],
                                );
                            assert(leads@[k1] == prior[k1]);
                            assert(same_group(addrs@[j], addrs@[leads@[k1] as int]));
                        }
                    }
                }
            } else {
                proof {
                    // the earlier member of this byte already has a lead,
                    // and the same lead covers this entry
                    assert(bool_member(tags@, addrs@, wit));
                    let k0 = choose|k: int|
                        0 <= k < leads@.len() && same_group(addrs@[wit], addrs@[leads@[k] as int]);
                    assert(same_group(addrs@[i as int], addrs@[leads@[k0] as int]));
                }
            }
        }
        i = i + 1;
    }
    leads
}

/// The buffers a write batch hands to its grouped writes, as an exact
/// function of the batch and of the bytes fetched for the group leads:
/// every entry landing in a lead's byte carries that group's one merged
/// byte — identical for all members, which is what makes their simultaneous
/// write safe — and every other entry keeps its initial encoding.
#[verifier::loop_isolation(false)]
pub fn coalesce_write_bufs(
    tags: &Vec<(ETag, ETagValue)>,
    addrs: &Vec<S7Address>,
    leads: &Vec<usize>,
    bases: &Vec<u8>,
) -> (r: Vec<Vec<u8>>)
    requires
        addrs@.len() == tags@.len(),
        forall|i: int| 0 <= i < addrs@.len() ==> (#[trigger] addrs@[i]).wf(),
        bases@.len() == leads@.len(),
        forall|k: int| 0 <= k < leads@.len() ==> (#[trigger] leads@[k]) < addrs@.len(),
        forall|k1: int, k2: int|
            0 <= k1 < leads@.len() && 0 <= k2 < leads@.len() && k1 != k2 ==> !same_group(
                addrs@[#[trigger] leads@[k1] as int],
                addrs@[#[trigger] leads@[k2] as int],
            ),
    ensures
        r@.len() == tags@.len(),
        forall|j: int, k: int|
            0 <= j < addrs@.len() && 0 <= k < leads@.len() && #[trigger] same_group(
                addrs@[j],
                addrs@[leads@[k] as int],
            ) ==> r@[j]@ == seq![
                merged_byte(
                    bases@[k],
                    addrs@,
                    pair_vals(tags@),
                    addrs@[leads@[k] as int],
                    addrs@.len() as int,
                ),
            ],
        forall|j: int|
            0 <= j < addrs@.len() && (forall|k: int|
                0 <= k < leads@.len() ==> !(#[trigger] same_group(
                    addrs@[j],
                    addrs@[leads@[k] as int],
                ))) ==> (#[trigger] r@[j])@ == initial_buf(tags@[j].1, addrs@[j]),
        forall|j: int| 0 <= j < r@.len() ==> (#[trigger] r@[j])@.len() == addrs@[j].size as nat,
{
    let mut bufs = build_write_bufs(tags, addrs);
    let mut k: usize = 0;
    while k < leads.len()
        invariant
            k <= leads@.len(),
            bufs@.len() == addrs@.len(),
            forall|j: int, k2: int|
                0 <= j < addrs@.len() && 0 <= k2 < k && #[trigger] same_group(
                    addrs@[j],
                    addrs@[leads@[k2] as int],
                ) ==> bufs@[j]@ == seq![
                    merged_byte(
                        bases@[k2],
                        addrs@,
                        pair_vals(tags@),
                        addrs@[leads@[k2] as int],
                        addrs@.len() as int,
                    ),
                ],
            forall|j: int|
                0 <= j < addrs@.len() && (forall|k2: int|
                    0 <= k2 < k ==> !(#[trigger] same_group(
                        addrs@[j],
                        addrs@[leads@[k2] as int],
                    ))) ==> (#[trigger] bufs@[j])@ == initial_buf(tags@[j].1, addrs@[j]),
            forall|j: int| 0 <= j < bufs@.len() ==> (#[trigger] bufs@[j])@.len()
                == addrs@[j].size as nat,
        decreases leads@.len() - k,
    {
        let g = addrs[leads[k]];
        let merged = compute_merged(tags, addrs, g, bases[k]);
        set_group_bufs(&mut bufs, addrs, g, merged);
        proof {
            // a buffer replaced now belongs to no earlier lead's byte, and
            // the merged single byte is exactly one boolean entry wide
            assert forall|j: int| 0 <= j < bufs@.len() implies (#[trigger] bufs@[j])@.len()
                == addrs@[j].size as nat by {
                if same_group(addrs@[j], g) {
                    assert(addrs@[j].datatype is BOOL);
                }
            }
        }
        k = k + 1;
    }
    bufs
}

/// The indices of the entries a write batch actually sends: the valid
/// ones, in input order; the `k`-th send is the `k`-th valid entry.
#[verifier::loop_isolation(false)]
fn find_sends(tags: &Vec<(ETag, ETagValue)>) -> (r: Vec<usize>)
    ensures
        r@.len() == valid_upto(tags@, tags@.len() as int),
        forall|k: int| 0 <= k < r@.len() ==> (#[trigger] r@[k]) < tags@.len() && entry_valid(
            tags@[r@[k] as int],
        ),
{
    let mut out: Vec<usize> = Vec::new();
    let mut i: usize = 0;
    while i < tags.len()
        invariant
            i <= tags@.len(),
            out@.len() == valid_upto(tags@, i as int),
            forall|k: int| 0 <= k < out@.len() ==> (#[trigger] out@[k]) < i && entry_valid(
                tags@[out@[k] as int],
            ),
        decreases tags@.len() - i,
    {
        if value_ok(&tags[i].1, &tags[i].0.datatype) {
            out.push(i);
        }
        i = i + 1;
    }
    out
}

/// What one slot of a batch write's result sequence holds.  An entry whose
/// value variant disagrees with its declared type gets exactly the
/// invalid-value codec error and is never written.  A valid entry's slot is
/// plain success or that item's own transport status; an address error
/// never appears per item.
pub open spec fn item_write_ok(res: Result<bool, TagError>, p: (ETag, ETagValue)) -> bool {
    if entry_valid(p) {
        match res {
            Ok(b) => b == true,
            Err(e) => e is Transport,
        }
    } else {
        res == Err::<bool, TagError>(TagError::Codec(CodecError::InvalidValueForType))
    }
}

/// Fetches the one live byte of each coalescing group, at its lead.
fn fetch_group_bases<T: Transport>(t: &mut T, addrs: &Vec<S7Address>, leads: &Vec<usize>) -> (r:
    Result<Vec<u8>, TransportError>)
    requires
        forall|k: int| 0 <= k < leads@.len() ==> (#[trigger] leads@[k]) < addrs@.len(),
    ensures
        r matches Ok(b) ==> b@.len() == leads@.len(),
{
    let mut bases: Vec<u8> = Vec::new();
    let mut k: usize = 0;
    while k < leads.len()
        invariant
            k <= leads@.len(),
            bases@.len() == k,
            forall|q: int| 0 <= q < leads@.len() ==> (#[trigger] leads@[q]) < addrs@.len(),
        decreases leads@.len() - k,
    {
        let a = addrs[leads[k]];
        match t.read_area(a.area, a.dbnb, a.start, 1) {
            Ok(cur) => {
                bases.push(cur[0]);
            },
            Err(code) => {
                let text = t.error_text(code);
                return Err(TransportError { code, text });
            },
        }
        k = k + 1;
    }
    Ok(bases)
}

/// Sends the listed entries' buffers in grouped chunks of at most
/// `CHUNK_SIZE` items, in order, aborting on the first chunk-level
/// failure; on success, one status per sent entry.
#[verifier::loop_isolation(false)]
#[verifier::rlimit(100)]
fn run_write_chunks<T: Transport>(
    t: &mut T,
    addrs: &Vec<S7Address>,
    bufs: &Vec<Vec<u8>>,
    sends: &Vec<usize>,
) -> (r: Result<Vec<i32>, TransportError>)
    requires
        bufs@.len() == addrs@.len(),
        forall|i: int| 0 <= i < addrs@.len() ==> (#[trigger] addrs@[i]).wf(),
        forall|j: int| 0 <= j < bufs@.len() ==> (#[trigger] bufs@[j])@.len()
            == addrs@[j].size as nat,
        forall|k: int| 0 <= k < sends@.len() ==> (#[trigger] sends@[k]) < addrs@.len(),
    ensures
        r matches Ok(st) ==> st@.len() == sends@.len(),
{
    let bounds = chunk_bounds(sends.len());
    let mut statuses: Vec<i32> = Vec::new();
    let mut ci: usize = 0;
    while ci < bounds.len()
        invariant
            ci <= bounds@.len(),
            statuses@.len() == if ci == 0 {
                0int
            } else {
                bounds@[ci as int - 1].1 as int
            },
        decreases bounds@.len() - ci,
    {
        let cstart = bounds[ci].0;
        let cend = bounds[ci].1;
        let mut items: Vec<S7Item> = Vec::new();
        let mut cbufs: Vec<Vec<u8>> = Vec::new();
        let mut k: usize = cstart;
        while k < cend
            invariant
                cstart <= k <= cend,
                items@.len() == k - cstart,
                cbufs@.len() == k - cstart,
                forall|j: int| 0 <= j < items@.len() ==> #[trigger] items@[j] == spec_data_item(
                    addrs@[sends@[cstart + j] as int],
                ),
                forall|j: int| 0 <= j < cbufs@.len() ==> (#[trigger] cbufs@[j])@
                    == bufs@[sends@[cstart + j] as int]@,
            decreases cend - k,
        {
            let g = sends[k];
            items.push(get_s7data_item(&addrs[g]));
            cbufs.push(copy_bytes(&bufs[g]));
            k = k + 1;
        }
        let st = match t.write_multi(&items, &cbufs) {
            Ok(s) => s,
            Err(code) => {
                let text = t.error_text(code);
                return Err(TransportError { code, text });
            },
        };
        let mut k: usize = 0;
        while k < st.len()
            invariant
                k <= st@.len(),
                statuses@.len() == cstart + k,
            decreases st@.len() - k,
        {
            statuses.push(st[k]);
            k = k + 1;
        }
        ci = ci + 1;
    }
    Ok(statuses)
}

/// Builds a write batch's result sequence in input order: a mismatched
/// entry's slot holds its own invalid-value error, a valid entry's slot the
/// status of its own grouped-write item.
#[verifier::loop_isolation(false)]
fn assemble_write_results<T: Transport>(
    t: &T,
    tags: &Vec<(ETag, ETagValue)>,
    statuses: &Vec<i32>,
) -> (r: Vec<Result<bool, TagError>>)
    requires
        statuses@.len() == valid_upto(tags@, tags@.len() as int),
    ensures
        r@.len() == tags@.len(),
        forall|i: int| 0 <= i < r@.len() ==> item_write_ok(#[trigger] r@[i], tags@[i]),
{
    let n = tags.len();
    let mut results: Vec<Result<bool, TagError>> = Vec::new();
    let mut p: usize = 0;
    let mut i: usize = 0;
    while i < n
        invariant
            i <= n,
            results@.len() == i,
            p == valid_upto(tags@, i as int),
            forall|j: int| 0 <= j < i ==> item_write_ok(#[trigger] results@[j], tags@[j]),
        decreases n - i,
    {
        if value_ok(&tags[i].1, &tags[i].0.datatype) {
            proof {
                lemma_valid_upto_bounds(tags@, i as int);
                lemma_valid_upto_mono(tags@, i as int + 1, n as int);
            }
            let status = statuses[p];
            if status == 0 {
                results.push(Ok(true));
            } else {
                let text = t.error_text(status);
                results.push(Err(TagError::Transport(TransportError { code: status, text })));
            }
            p = p + 1;
        } else {
            results.push(Err(TagError::Codec(CodecError::InvalidValueForType)));
        }
        i = i + 1;
    }
    results
}

/// Writes a batch of (tag, value) pairs in one pass: resolve all (or abort
/// with the first address error, before any transport activity), then for
/// each entry whose value agrees with its declared type encode one buffer
/// in input order; boolean entries sharing a byte are coalesced — one
/// single-byte read per distinct byte at its first member, every pending
/// bit folded into it, the merged byte placed in every member's buffer via
/// `coalesce_write_bufs` — and the valid entries go out in grouped writes
/// of at most `CHUNK_SIZE` items, aborting the whole batch on the first
/// chunk-level failure.  The result sequence matches the input 1:1: a
/// mismatched entry's slot holds its own invalid-value error, a valid
/// entry's slot its own write status.
///
/// The read-modify-write window of a coalesced byte is not atomic with
/// respect to writers outside this batch; that is a documented limitation
/// of the protocol's byte-granular writes, not something this crate can
/// close.
pub fn write_list<T: Transport>(t: &mut T, tags: &Vec<(ETag, ETagValue)>) -> (r: Result<
    Vec<Result<bool, TagError>>,
    BatchError,
>)
    ensures
        first_addr_err(pair_tags(tags@)) matches Some(e) ==> r == Err::<
            Vec<Result<bool, TagError>>,
            BatchError,
        >(BatchError::Address(e)) && *final(t) == *old(t),
        tags@.len() == 0 ==> (r matches Ok(rs) && rs@.len() == 0) && *final(t) == *old(t),
        r matches Err(e) ==> match e {
            BatchError::Address(ae) => first_addr_err(pair_tags(tags@)) == Some(ae),
            BatchError::Transport(_) => first_addr_err(pair_tags(tags@)) is None,
        },
        r matches Ok(rs) ==> {
            &&& first_addr_err(pair_tags(tags@)) is None
            &&& rs@.len() == tags@.len()
            &&& forall|i: int| 0 <= i < rs@.len() ==> item_write_ok(#[trigger] rs@[i], tags@[i])
        },
{
    let addrs = match resolve_all_pairs(tags) {
        Ok(a) => a,
        Err(e) => {
            return Err(BatchError::Address(e));
        },
    };
    if tags.len() == 0 {
        return Ok(Vec::new());
    }
    // one live byte per distinct boolean byte, fetched at its first member
    let leads = find_leads(tags, &addrs);
    let bases = match fetch_group_bases(t, &addrs, &leads) {
        Ok(b) => b,
        Err(te) => {
            return Err(BatchError::Transport(te));
        },
    };
    // the buffers, an exact function of the batch and the fetched bytes
    let bufs = coalesce_write_bufs(tags, &addrs, &leads, &bases);
    // grouped writes over the valid entries, chunked
    let sends = find_sends(tags);
    let statuses = match run_write_chunks(t, &addrs, &bufs, &sends) {
        Ok(s) => s,
        Err(te) => {
            return Err(BatchError::Transport(te));
        },
    };
    Ok(assemble_write_results(t, tags, &statuses))
}

/// Batch entry `j` forces bit `b` of group `g`'s byte: it is boolean, lands
/// in that byte, addresses that bit, and carries a boolean value.
pub open spec fn group_writes_bit(
    addrs: Seq<S7Address>,
    vals: Seq<ETagValue>,
    g: S7Address,
    b: u8,
    j: int,
) -> bool {
    &&& 0 <= j < addrs.len()
    &&& same_group(addrs[j], g)
    &&& addrs[j].bit == b
    &&& vals[j] is Bool
}

/// A bit of a coalesced byte that no batch entry writes keeps the value
/// fetched from controller memory: each entry of the group only touches its
/// own bit.
pub proof fn lemma_merged_byte_untouched(
    base: u8,
    addrs: Seq<S7Address>,
    vals: Seq<ETagValue>,
    g: S7Address,
    b: u8,
    upto: int,
)
    requires
        vals.len() == addrs.len(),
        0 <= upto <= addrs.len(),
        b <= 7,
        forall|i: int| 0 <= i < addrs.len() ==> (#[trigger] addrs[i]).wf(),
        forall|j: int| 0 <= j < upto ==> !group_writes_bit(addrs, vals, g, b, j),
    ensures
        crate::codec::bit_of(merged_byte(base, addrs, vals, g, upto), b) == crate::codec::bit_of(
            base,
            b,
        ),
    decreases upto,
{
    if upto > 0 {
        lemma_merged_byte_untouched(base, addrs, vals, g, b, upto - 1);
        let prev = merged_byte(base, addrs, vals, g, upto - 1);
        if same_group(addrs[upto - 1], g) {
            match vals[upto - 1] {
                ETagValue::Bool(x) => {
                    assert(!group_writes_bit(addrs, vals, g, b, upto - 1));
                    assert(addrs[upto - 1].bit != b);
                    crate::codec::lemma_set_bit_preserves_others(prev, addrs[upto - 1].bit, b, x);
                },
                _ => {},
            }
        }
    }
}

/// The last batch entry that writes a bit of a coalesced byte decides it:
/// later entries of the group leave foreign bits alone, so no member of the
/// batch can undo another member's bit.
pub proof fn lemma_merged_byte_last_writer(
    base: u8,
    addrs: Seq<S7Address>,
    vals: Seq<ETagValue>,
    g: S7Address,
    b: u8,
    k: int,
    upto: int,
)
    requires
        vals.len() == addrs.len(),
        upto <= addrs.len(),
        b <= 7,
        forall|i: int| 0 <= i < addrs.len() ==> (#[trigger] addrs[i]).wf(),
        group_writes_bit(addrs, vals, g, b, k),
        k < upto,
        forall|j: int| k < j < upto ==> !group_writes_bit(addrs, vals, g, b, j),
    ensures
        crate::codec::bit_of(merged_byte(base, addrs, vals, g, upto), b) == vals[k]->Bool_0,
    decreases upto,
{
    if upto - 1 == k {
        let prev = merged_byte(base, addrs, vals, g, k);
        crate::codec::lemma_set_bit_reads_back(prev, b, vals[k]->Bool_0);
    } else {
        lemma_merged_byte_last_writer(base, addrs, vals, g, b, k, upto - 1);
        let prev = merged_byte(base, addrs, vals, g, upto - 1);
        if same_group(addrs[upto - 1], g) {
            match vals[upto - 1] {
                ETagValue::Bool(x) => {
                    assert(!group_writes_bit(addrs, vals, g, b, upto - 1));
                    assert(addrs[upto - 1].bit != b);
                    crate::codec::lemma_set_bit_preserves_others(prev, addrs[upto - 1].bit, b, x);
                },
                _ => {},
            }
        }
    }
}

} // verus!
