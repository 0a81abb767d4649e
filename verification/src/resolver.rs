//! Symbolic address resolution.
//!
//! An address string follows the grammar
//! `(M|I|Q|DB<n>)(W|D|X)<byteOffset>[.<bitOffset 0-7>]`: a memory-area part
//! (`M` merkers, `I` inputs, `Q` outputs, or `DB` with a decimal block
//! number), a width suffix (`W` two bytes, `D` four bytes, `X` one
//! bit-addressed byte), a decimal byte offset, and an optional bit offset.
//! A string that does not match the whole grammar, or whose block number or
//! byte offset does not fit in a byte, is `Malformed`; one that matches but
//! whose suffix does not agree with the declared tag type is `TypeMismatch`.

use vstd::prelude::*;

use crate::types::AddressError;
use crate::types::ETagtype;
use crate::types::S7Address;
use crate::types::S7Area;

verus! {

/// A decimal digit.
pub open spec fn is_digit(c: char) -> bool {
    48 <= c as int && c as int <= 57
}

/// Numeric value of a decimal digit.
pub open spec fn digit_val(c: char) -> int
    recommends
        is_digit(c),
{
    c as int - 48
}

/// End of the maximal run of decimal digits starting at `i`.
pub open spec fn digit_run_end(s: Seq<char>, i: int) -> int
    decreases s.len() - i
        when 0 <= i <= s.len()
{
    if i < s.len() && is_digit(s[i]) {
        digit_run_end(s, i + 1)
    } else {
        i
    }
}

/// Value of the decimal digits `s[i..j]`, most significant first.
pub open spec fn digits_val(s: Seq<char>, i: int, j: int) -> int
    decreases j - i
        when i <= j
{
    if i >= j {
        0
    } else {
        digits_val(s, i, j - 1) * 10 + digit_val(s[j - 1])
    }
}

/// Structural result of matching the grammar: the area, the block number
/// (0 outside data blocks), the width suffix, the byte offset, and the bit
/// offset with a flag telling whether one was written.
pub struct ParsedAddress {
    pub area: S7Area,
    pub block: int,
    pub suffix: char,
    pub start: int,
    pub bit: int,
    pub has_bit: bool,
}

/// The memory-area part at the front of the string: the area it names, the
/// decimal block number (0 outside data blocks), and the index of the first
/// character after the part.
pub open spec fn area_part(s: Seq<char>) -> Option<(S7Area, int, int)> {
    if s.len() >= 1 && s[0] == 'M' {
        Some((S7Area::MK, 0, 1))
    } else if s.len() >= 1 && s[0] == 'I' {
        Some((S7Area::PE, 0, 1))
    } else if s.len() >= 1 && s[0] == 'Q' {
        Some((S7Area::PA, 0, 1))
    } else if s.len() >= 3 && s[0] == 'D' && s[1] == 'B' && is_digit(s[2]) {
        Some((S7Area::DB, digits_val(s, 2, digit_run_end(s, 2)), digit_run_end(s, 2)))
    } else {
        None
    }
}

/// A width suffix letter.
pub open spec fn is_suffix(c: char) -> bool {
    c == 'W' || c == 'D' || c == 'X'
}

/// Deterministic match of the whole grammar.  Digit runs are maximal; since
/// no suffix letter and no dot is a digit, this coincides with the anchored
/// pattern `(M|I|Q|DB<n>)(W|D|X)<digits>[.<0-7>]`.
pub open spec fn parse_spec(s: Seq<char>) -> Option<ParsedAddress> {
    match area_part(s) {
        None => None,
        Some((area, block, i)) => {
            if i < s.len() && is_suffix(s[i]) {
                if i + 1 < s.len() && is_digit(s[i + 1]) {
                    let e = digit_run_end(s, i + 1);
                    let start = digits_val(s, i + 1, e);
                    if e == s.len() {
                        Some(
                            ParsedAddress {
                                area,
                                block,
                                suffix: s[i],
                                start,
                                bit: 0,
                                has_bit: false,
                            },
                        )
                    } else if e + 2 == s.len() && s[e] == '.' && is_digit(s[e + 1]) && digit_val(
                        s[e + 1],
                    ) <= 7 {
                        Some(
                            ParsedAddress {
                                area,
                                block,
                                suffix: s[i],
                                start,
                                bit: digit_val(s[e + 1]),
                                has_bit: true,
                            },
                        )
                    } else {
                        None
                    }
                } else {
                    None
                }
            } else {
                None
            }
        },
    }
}

/// Wire size selected by a width suffix.
pub open spec fn suffix_size(c: char) -> u8 {
    if c == 'W' {
        2
    } else if c == 'D' {
        4
    } else {
        1
    }
}

/// Suffix/type agreement: `X` only with the boolean type (a bit offset is
/// allowed), `W` only with the 16-bit integer type, `D` with the 32-bit
/// integer or real type; a bit offset on a non-bit suffix is a
/// disagreement, never silently dropped.
pub open spec fn compatible(suffix: char, has_bit: bool, t: ETagtype) -> bool {
    if suffix == 'X' {
        t is BOOL
    } else if suffix == 'W' {
        t is INT && !has_bit
    } else {
        (t is DINT || t is REAL) && !has_bit
    }
}

/// What resolution returns for every address string and declared type.
pub open spec fn resolve_spec(s: Seq<char>, t: ETagtype) -> Result<S7Address, AddressError> {
    match parse_spec(s) {
        None => Err(AddressError::Malformed),
        Some(p) => if !(p.block <= 255 && p.start <= 255) {
            Err(AddressError::Malformed)
        } else if !compatible(p.suffix, p.has_bit, t) {
            Err(AddressError::TypeMismatch)
        } else {
            Ok(
                S7Address {
                    area: p.area,
                    dbnb: p.block as u8,
                    bit: p.bit as u8,
                    start: p.start as u8,
                    size: suffix_size(p.suffix),
                    datatype: t,
                },
            )
        },
    }
}

/// The maximal digit run ends at the first position that is past the end or
/// holds a non-digit, and everything before it is a digit.
proof fn lemma_digit_run_end_props(s: Seq<char>, i: int)
    requires
        0 <= i <= s.len(),
    ensures
        i <= digit_run_end(s, i) <= s.len(),
        forall|k: int| i <= k < digit_run_end(s, i) ==> is_digit(s[k]),
        digit_run_end(s, i) < s.len() ==> !is_digit(s[digit_run_end(s, i)]),
    decreases s.len() - i,
{
    if i < s.len() && is_digit(s[i]) {
        lemma_digit_run_end_props(s, i + 1);
    }
}

/// A stretch of digits followed by the end or a non-digit is exactly the
/// maximal digit run.
proof fn lemma_run_of_digits(s: Seq<char>, i: int, j: int)
    requires
        0 <= i <= j <= s.len(),
        forall|k: int| i <= k < j ==> is_digit(s[k]),
        j == s.len() || !is_digit(s[j]),
    ensures
        digit_run_end(s, i) == j,
    decreases j - i,
{
    if i < j {
        assert(is_digit(s[i]));
        lemma_run_of_digits(s, i + 1, j);
    }
}

/// The value of a digit stretch is nonnegative.
proof fn lemma_digits_val_nonneg(s: Seq<char>, i: int, j: int)
    requires
        i <= j,
        forall|k: int| i <= k < j ==> is_digit(s[k]),
    ensures
        digits_val(s, i, j) >= 0,
    decreases j - i,
{
    if i < j {
        lemma_digits_val_nonneg(s, i, j - 1);
    }
}

/// A digit stretch's value only depends on the characters it covers.
proof fn lemma_digits_val_congruent(s1: Seq<char>, i1: int, s2: Seq<char>, i2: int, len: int)
    requires
        len >= 0,
        0 <= i1,
        i1 + len <= s1.len(),
        0 <= i2,
        i2 + len <= s2.len(),
        s1.subrange(i1, i1 + len) == s2.subrange(i2, i2 + len),
    ensures
        digits_val(s1, i1, i1 + len) == digits_val(s2, i2, i2 + len),
    decreases len,
{
    if len > 0 {
        assert(s1.subrange(i1, i1 + (len - 1)) =~= s2.subrange(i2, i2 + (len - 1))) by {
            assert forall|k: int| 0 <= k < len - 1 implies #[trigger] s1.subrange(
                i1,
                i1 + (len - 1),
            )[k] == s2.subrange(i2, i2 + (len - 1))[k] by {
                assert(s1.subrange(i1, i1 + len)[k] == s2.subrange(i2, i2 + len)[k]);
            }
        }
        lemma_digits_val_congruent(s1, i1, s2, i2, len - 1);
        assert(s1[i1 + (len - 1)] == s2[i2 + (len - 1)]) by {
            assert(s1.subrange(i1, i1 + len)[len - 1] == s1[i1 + (len - 1)]);
            assert(s2.subrange(i2, i2 + len)[len - 1] == s2[i2 + (len - 1)]);
            assert(s1.subrange(i1, i1 + len) == s2.subrange(i2, i2 + len));
        }
    }
}

/// True of a decimal digit character.
fn char_is_digit(c: char) -> (r: bool)
    ensures
        r == is_digit(c),
{
    let u = c as u32;
    48 <= u && u <= 57
}

/// Scans the maximal decimal digit run of `s` starting at `from`: returns
/// the index just past the run, the run's value when it fits in a byte, and
/// whether it overflows a byte.
fn scan_number(s: &str, from: usize, n: usize) -> (r: (usize, u8, bool))
    requires
        n == s@.len(),
        from <= n,
    ensures
        r.0 == digit_run_end(s@, from as int),
        from <= r.0 <= n,
        r.2 == (digits_val(s@, from as int, r.0 as int) > 255),
        !r.2 ==> r.1 == digits_val(s@, from as int, r.0 as int),
{
    let mut i: usize = from;
    let mut val: u16 = 0;
    let mut over: bool = false;
    proof {
        lemma_digit_run_end_props(s@, from as int);
    }
    loop
        invariant
            n == s@.len(),
            from <= i <= n,
            val <= 255,
            forall|k: int| from <= k < i ==> is_digit(s@[k]),
            digit_run_end(s@, i as int) == digit_run_end(s@, from as int),
            over == (digits_val(s@, from as int, i as int) > 255),
            !over ==> val == digits_val(s@, from as int, i as int),
        ensures
            from <= i <= n,
            val <= 255,
            i as int == digit_run_end(s@, from as int),
            over == (digits_val(s@, from as int, i as int) > 255),
            !over ==> val == digits_val(s@, from as int, i as int),
        decreases n - i,
    {
        if i == n {
            proof {
                assert(digit_run_end(s@, i as int) == i as int);
            }
            break ;
        }
        let c = s.get_char(i);
        if !char_is_digit(c) {
            proof {
                assert(digit_run_end(s@, i as int) == i as int);
            }
            break ;
        }
        let d: u16 = (c as u32 - 48) as u16;
        proof {
            assert(digits_val(s@, from as int, i + 1) == digits_val(s@, from as int, i as int) * 10
                + digit_val(s@[i as int]));
            lemma_digits_val_nonneg(s@, from as int, i as int);
        }
        if over {
            proof {
                assert(digits_val(s@, from as int, i as int) * 10 + digit_val(s@[i as int]) > 255);
            }
        } else {
            let next: u16 = val * 10 + d;
            if next > 255 {
                over = true;
            } else {
                val = next;
            }
        }
        i = i + 1;
    }
    (i, val as u8, over)
}

/// Resolves a symbolic address string against a declared tag type: exactly
/// `resolve_spec` over the string's characters.  A returned address is
/// well-formed and carries the declared type.
pub fn conv_address(address: &str, datatype: ETagtype) -> (r: Result<S7Address, AddressError>)
    ensures
        r == resolve_spec(address@, datatype),
        r matches Ok(a) ==> a.wf() && a.datatype == datatype,
{
    let n = address.unicode_len();
    if n == 0 {
        return Err(AddressError::Malformed);
    }
    let c0 = address.get_char(0);
    let area: S7Area;
    let mut block: u8 = 0;
    let mut over: bool = false;
    let i: usize;
    if c0 == 'M' {
        area = S7Area::MK;
        i = 1;
    } else if c0 == 'I' {
        area = S7Area::PE;
        i = 1;
    } else if c0 == 'Q' {
        area = S7Area::PA;
        i = 1;
    } else if c0 == 'D' && n >= 2 {
        let c1 = address.get_char(1);
        if c1 != 'B' {
            return Err(AddressError::Malformed);
        }
        if n < 3 {
            return Err(AddressError::Malformed);
        }
        let c2 = address.get_char(2);
        if !char_is_digit(c2) {
            return Err(AddressError::Malformed);
        }
        let scanned = scan_number(address, 2, n);
        area = S7Area::DB;
        block = scanned.1;
        over = scanned.2;
        i = scanned.0;
    } else {
        return Err(AddressError::Malformed);
    }
    if i >= n {
        return Err(AddressError::Malformed);
    }
    let suf = address.get_char(i);
    if !(suf == 'W' || suf == 'D' || suf == 'X') {
        return Err(AddressError::Malformed);
    }
    if i + 1 >= n {
        return Err(AddressError::Malformed);
    }
    let cd = address.get_char(i + 1);
    if !char_is_digit(cd) {
        return Err(AddressError::Malformed);
    }
    let scanned = scan_number(address, i + 1, n);
    let e = scanned.0;
    let start = scanned.1;
    let over2 = scanned.2;
    let mut bit: u8 = 0;
    let mut has_bit: bool = false;
    if e == n {
    } else if n - e == 2 {
        let dot = address.get_char(e);
        if dot != '.' {
            return Err(AddressError::Malformed);
        }
        let cb = address.get_char(e + 1);
        if !char_is_digit(cb) {
            return Err(AddressError::Malformed);
        }
        let bv = cb as u32 - 48;
        if bv > 7 {
            return Err(AddressError::Malformed);
        }
        bit = bv as u8;
        has_bit = true;
    } else {
        return Err(AddressError::Malformed);
    }
    if over || over2 {
        return Err(AddressError::Malformed);
    }
    let compat: bool = if suf == 'X' {
        datatype.is_bool()
    } else if suf == 'W' {
        matches!(datatype, ETagtype::INT) && !has_bit
    } else {
        (matches!(datatype, ETagtype::DINT) || matches!(datatype, ETagtype::REAL)) && !has_bit
    };
    if !compat {
        return Err(AddressError::TypeMismatch);
    }
    let size: u8 = if suf == 'W' {
        2
    } else if suf == 'D' {
        4
    } else {
        1
    };
    Ok(S7Address { area, dbnb: block, bit, start, size, datatype })
}

/// The character of a decimal digit value.
pub open spec fn char_of_digit(d: int) -> char
    recommends
        0 <= d <= 9,
{
    if d == 0 {
        '0'
    } else if d == 1 {
        '1'
    } else if d == 2 {
        '2'
    } else if d == 3 {
        '3'
    } else if d == 4 {
        '4'
    } else if d == 5 {
        '5'
    } else if d == 6 {
        '6'
    } else if d == 7 {
        '7'
    } else if d == 8 {
        '8'
    } else {
        '9'
    }
}

/// Decimal digit characters of a nonnegative value, most significant first.
pub open spec fn dec_chars(v: int) -> Seq<char>
    recommends
        v >= 0,
    decreases v,
        when v >= 0
{
    if v <= 9 {
        seq![char_of_digit(v)]
    } else {
        dec_chars(v / 10).push(char_of_digit(v % 10))
    }
}

/// The width suffix under which a type's addresses are written.
pub open spec fn suffix_of_type(t: ETagtype) -> char {
    match t {
        ETagtype::BOOL => 'X',
        ETagtype::INT => 'W',
        ETagtype::DINT => 'D',
        ETagtype::REAL => 'D',
    }
}

/// The area part re-derived from a resolved address.
pub open spec fn area_chars(a: S7Address) -> Seq<char> {
    match a.area {
        S7Area::MK => seq!['M'],
        S7Area::PE => seq!['I'],
        S7Area::PA => seq!['Q'],
        S7Area::DB => seq!['D', 'B'] + dec_chars(a.dbnb as int),
    }
}

/// The address string re-derived from a resolved address's structural
/// fields: area part, suffix chosen by the declared type, byte offset, and
/// the bit offset for the boolean type.
pub open spec fn render_spec(a: S7Address) -> Seq<char> {
    area_chars(a) + seq![suffix_of_type(a.datatype)] + dec_chars(a.start as int) + (
    if a.datatype is BOOL {
        seq!['.', char_of_digit(a.bit as int)]
    } else {
        Seq::<char>::empty()
    })
}

/// The digit characters of a value are digits, and read back as the value.
proof fn lemma_dec_chars_props(v: int)
    requires
        0 <= v,
    ensures
        dec_chars(v).len() >= 1,
        forall|k: int| 0 <= k < dec_chars(v).len() ==> is_digit(#[trigger] dec_chars(v)[k]),
        digits_val(dec_chars(v), 0, dec_chars(v).len() as int) == v,
    decreases v,
{
    if v <= 9 {
        assert(is_digit(char_of_digit(v)) && digit_val(char_of_digit(v)) == v);
        assert(dec_chars(v) == seq![char_of_digit(v)]);
        assert(dec_chars(v)[0] == char_of_digit(v));
        assert(dec_chars(v).len() == 1);
        assert(digits_val(dec_chars(v), 0, 1) == digits_val(dec_chars(v), 0, 0) * 10 + digit_val(
            dec_chars(v)[0],
        ));
        assert(digits_val(dec_chars(v), 0, 0) == 0);
    } else {
        lemma_dec_chars_props(v / 10);
        let d = dec_chars(v / 10);
        let c = char_of_digit(v % 10);
        assert(is_digit(c) && digit_val(c) == v % 10);
        assert(d.push(c).subrange(0, d.len() as int) =~= d.subrange(0, d.len() as int));
        lemma_digits_val_congruent(d.push(c), 0, d, 0, d.len() as int);
        assert(d.subrange(0, d.len() as int) =~= d);
        vstd::arithmetic::div_mod::lemma_fundamental_div_mod(v, 10);
        assert(dec_chars(v) == d.push(c));
        assert(d.push(c)[d.len() as int] == c);
        assert(digits_val(d.push(c), 0, d.len() as int + 1) == digits_val(d.push(c), 0, d.len() as int)
            * 10 + digit_val(c));
        assert(digits_val(d.push(c), 0, d.len() as int) == v / 10);
        assert(v / 10 * 10 + v % 10 == v);
        assert(digits_val(dec_chars(v), 0, dec_chars(v).len() as int) == v);
    }
}

/// Re-deriving the string from a well-formed resolved address and resolving
/// it again, under the same declared type, returns the address unchanged:
/// resolution and the structural fields of its result are mutually
/// consistent.
pub proof fn lemma_resolve_render_round_trip(a: S7Address)
    requires
        a.wf(),
    ensures
        resolve_spec(render_spec(a), a.datatype) == Ok::<S7Address, AddressError>(a),
{
    let s = render_spec(a);
    let ac = area_chars(a);
    let suf = suffix_of_type(a.datatype);
    let ds = dec_chars(a.start as int);
    let bs: Seq<char> = if a.datatype is BOOL {
        seq!['.', char_of_digit(a.bit as int)]
    } else {
        Seq::<char>::empty()
    };
    lemma_dec_chars_props(a.start as int);
    lemma_dec_chars_props(a.dbnb as int);
    let s1 = ac + seq![suf];
    let s2 = s1 + ds;
    assert(s == s2 + bs);
    let i = ac.len() as int;
    let j = i + 1;
    let e = j + ds.len() as int;
    assert forall|k: int| 0 <= k < i implies s[k] == ac[k] by {
        assert(s1[k] == ac[k]);
        assert(s2[k] == s1[k]);
    }
    assert(s[i] == suf) by {
        assert(s1[i] == suf);
        assert(s2[i] == s1[i]);
    }
    assert forall|k: int| 0 <= k < ds.len() implies s[j + k] == ds[k] by {
        assert(s2[j + k] == ds[k]);
    }
    assert forall|k: int| 0 <= k < bs.len() implies s[e + k] == bs[k] by {
        assert((s2 + bs)[e + k] == bs[k]);
    }
    assert(is_suffix(suf));
    assert(!is_digit(suf));
    // the area part parses back to the area and block number
    if a.area is DB {
        let db = dec_chars(a.dbnb as int);
        assert(ac == seq!['D', 'B'] + db);
        assert(s[0] == 'D' && s[1] == 'B');
        assert forall|k: int| 0 <= k < db.len() implies s[2 + k] == db[k] by {
            assert(ac[2 + k] == db[k]);
        }
        assert forall|k: int| 2 <= k < i implies is_digit(s[k]) by {
            assert(s[k] == db[k - 2]);
        }
        assert(is_digit(s[2]));
        lemma_run_of_digits(s, 2, i);
        assert(s.subrange(2, i) =~= db.subrange(0, db.len() as int));
        lemma_digits_val_congruent(s, 2, db, 0, db.len() as int);
        assert(db.subrange(0, db.len() as int) =~= db);
        assert(area_part(s) == Some((S7Area::DB, a.dbnb as int, i)));
    } else {
        assert(area_part(s) == Some((a.area, 0int, 1int)));
    }
    // the byte offset parses back
    assert forall|k: int| j <= k < e implies is_digit(s[k]) by {
        assert(s[k] == ds[k - j]);
    }
    assert(e == s.len() || !is_digit(s[e]));
    lemma_run_of_digits(s, j, e);
    assert(is_digit(s[j]));
    assert(s.subrange(j, e) =~= ds.subrange(0, ds.len() as int));
    lemma_digits_val_congruent(s, j, ds, 0, ds.len() as int);
    assert(ds.subrange(0, ds.len() as int) =~= ds);
    assert(digits_val(s, j, e) == a.start as int);
    // the optional bit part parses back, and the parse as a whole
    if a.datatype is BOOL {
        assert(s[e] == '.' && s[e + 1] == char_of_digit(a.bit as int));
        assert(is_digit(s[e + 1]) && digit_val(s[e + 1]) == a.bit as int);
        assert(parse_spec(s) == Some(
            ParsedAddress {
                area: a.area,
                block: a.dbnb as int,
                suffix: suf,
                start: a.start as int,
                bit: a.bit as int,
                has_bit: true,
            },
        ));
    } else {
        assert(e == s.len());
        assert(parse_spec(s) == Some(
            ParsedAddress {
                area: a.area,
                block: a.dbnb as int,
                suffix: suf,
                start: a.start as int,
                bit: 0int,
                has_bit: false,
            },
        ));
    }
    assert(compatible(suf, a.datatype is BOOL, a.datatype));
    assert(resolve_spec(s, a.datatype) == Ok::<S7Address, AddressError>(a));
}

} // verus!
