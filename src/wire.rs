//! Reading the Protocol Buffers wire format: varints, fixed-width integers,
//! field keys and length-delimited payloads.

use vstd::prelude::*;

verus! {

/// `128` raised to the power `n`.
pub open spec fn pow128(n: nat) -> nat
    decreases n,
{
    if n == 0 {
        1
    } else {
        128 * pow128((n - 1) as nat)
    }
}

/// `256` raised to the power `n`.
pub open spec fn pow256(n: nat) -> nat
    decreases n,
{
    if n == 0 {
        1
    } else {
        256 * pow256((n - 1) as nat)
    }
}

/// The number that a base-128 little-endian group of bytes encodes: the low
/// seven bits of each byte, least significant group first.
pub open spec fn varint_value(s: Seq<u8>) -> nat
    decreases s.len(),
{
    if s.len() == 0 {
        0
    } else {
        varint_value(s.drop_last()) + ((s.last() % 128) as nat) * pow128((s.len() - 1) as nat)
    }
}

/// A well-formed varint: one to ten bytes, each but the last with its high bit set.
pub open spec fn is_varint(s: Seq<u8>) -> bool {
    &&& 1 <= s.len() <= 10
    &&& s.last() < 128
    &&& forall|k: int| 0 <= k < s.len() - 1 ==> #[trigger] s[k] >= 128
}

/// The little-endian number that a group of bytes encodes.
pub open spec fn le_value(s: Seq<u8>) -> nat
    decreases s.len(),
{
    if s.len() == 0 {
        0
    } else {
        s[0] as nat + 256 * le_value(s.drop_first())
    }
}

proof fn lemma_pow128_bound(n: nat)
    requires
        n <= 9,
    ensures
        1 <= pow128(n) <= 0x8000_0000_0000_0000,
        pow128(n + 1) == 128 * pow128(n),
    decreases n,
{
    reveal_with_fuel(pow128, 10);
}

proof fn lemma_le_value_bound(s: Seq<u8>)
    ensures
        le_value(s) < pow256(s.len()),
    decreases s.len(),
{
    if s.len() > 0 {
        lemma_le_value_bound(s.drop_first());
        let r = le_value(s.drop_first());
        let p = pow256((s.len() - 1) as nat);
        assert(s[0] as nat + 256 * r < 256 * p) by (nonlinear_arith)
            requires
                r < p,
                s[0] < 256,
        ;
    }
}

/// Whether a well-formed varint whose value fits in 64 bits occupies
/// `b[pos..n]`, within `end`.
pub open spec fn varint_in(b: Seq<u8>, pos: int, end: int, n: int) -> bool {
    &&& pos < n <= end
    &&& is_varint(b.subrange(pos, n))
    &&& varint_value(b.subrange(pos, n)) < 0x1_0000_0000_0000_0000
}

/// The varint at `pos`: its value and where it ends; `None` where no
/// well-formed varint that fits in 64 bits starts there.
pub open spec fn varint_next(b: Seq<u8>, pos: int, end: int) -> Option<(u64, int)> {
    if exists|n: int| varint_in(b, pos, end, n) {
        let n = choose|n: int| varint_in(b, pos, end, n);
        Some((varint_value(b.subrange(pos, n)) as u64, n))
    } else {
        None
    }
}

/// A varint ends at its first byte whose high bit is clear: two well-formed
/// varints that start at the same place end at the same place.
proof fn lemma_varint_unique(b: Seq<u8>, pos: int, n0: int, n1: int)
    requires
        0 <= pos < n0 <= b.len(),
        pos < n1 <= b.len(),
        is_varint(b.subrange(pos, n0)),
        is_varint(b.subrange(pos, n1)),
    ensures
        n0 == n1,
{
    if n0 < n1 {
        assert(b.subrange(pos, n1)[n0 - 1 - pos] == b.subrange(pos, n0).last());
    } else if n1 < n0 {
        assert(b.subrange(pos, n0)[n1 - 1 - pos] == b.subrange(pos, n1).last());
    }
}

/// The varint that starts at `pos` and ends before `end`, with its value;
/// `None` where no well-formed varint starts there, or its value does not fit in 64 bits.
fn scan_varint(b: &[u8], pos: usize, end: usize) -> (r: Option<(u64, usize)>)
    requires
        pos <= end <= b@.len(),
    ensures
        match r {
            Some((v, next)) => {
                &&& pos < next <= end
                &&& is_varint(b@.subrange(pos as int, next as int))
                &&& v as nat == varint_value(b@.subrange(pos as int, next as int))
            },
            None => forall|next: int|
                pos < next <= end && is_varint(#[trigger] b@.subrange(pos as int, next))
                    ==> varint_value(b@.subrange(pos as int, next)) >= 0x1_0000_0000_0000_0000,
        },
{
    let mut i: usize = 0;
    let mut acc: u128 = 0;
    let mut p: u128 = 1;
    while i < 10 && pos + i < end
        invariant
            pos <= end <= b@.len(),
            i <= 10,
            pos + i <= end,
            p as nat == pow128(i as nat),
            acc as nat == varint_value(b@.subrange(pos as int, pos + i)),
            acc < p,
            forall|k: int| pos <= k < pos + i ==> #[trigger] b@[k] >= 128,
        decreases 10 - i,
    {
        let byte = b[pos + i];
        proof {
            lemma_pow128_bound(i as nat);
            assert(b@.subrange(pos as int, pos + i + 1).drop_last() =~= b@.subrange(
                pos as int,
                pos + i,
            ));
            let lo = (byte % 128) as nat;
            assert(acc + lo * p < 128 * p) by (nonlinear_arith)
                requires
                    acc < p,
                    lo < 128,
            ;
            assert(lo * p <= 127 * 0x8000_0000_0000_0000) by (nonlinear_arith)
                requires
                    lo < 128,
                    p <= 0x8000_0000_0000_0000,
            ;
        }
        acc = acc + ((byte % 128) as u128) * p;
        if byte < 128 {
            let next = pos + i + 1;
            if acc < 0x1_0000_0000_0000_0000 {
                return Some((acc as u64, next));
            } else {
                proof {
                    assert forall|n: int|
                        pos < n <= end && is_varint(#[trigger] b@.subrange(pos as int, n))
                            implies varint_value(b@.subrange(pos as int, n))
                        >= 0x1_0000_0000_0000_0000 by {
                        let s = b@.subrange(pos as int, n);
                        if n < next {
                            assert(s[n - pos - 1] == b@[n - 1]);
                        } else if n > next {
                            assert(s[i as int] == b@[pos + i]);
                        }
                        assert(s =~= b@.subrange(pos as int, next as int));
                    }
                }
                return None;
            }
        }
        p = p * 128;
        i = i + 1;
    }
    proof {
        assert forall|n: int|
            pos < n <= end && is_varint(#[trigger] b@.subrange(pos as int, n)) implies varint_value(
            b@.subrange(pos as int, n),
        ) >= 0x1_0000_0000_0000_0000 by {
            let s = b@.subrange(pos as int, n);
            assert(s.last() == b@[n - 1]);
        }
    }
    None
}

proof fn lemma_varint_next_some(b: Seq<u8>, pos: int, end: int, n: int)
    requires
        0 <= pos,
        end <= b.len(),
        varint_in(b, pos, end, n),
    ensures
        varint_next(b, pos, end) == Some((varint_value(b.subrange(pos, n)) as u64, n)),
{
    let m = choose|m: int| varint_in(b, pos, end, m);
    lemma_varint_unique(b, pos, n, m);
}

/// The varint at `pos`, within `end`: its value and where it ends.
pub fn read_varint(b: &[u8], pos: usize, end: usize) -> (r: Option<(u64, usize)>)
    requires
        pos <= end <= b@.len(),
    ensures
        match varint_next(b@, pos as int, end as int) {
            Some((v, n)) => r == Some((v, n as usize)),
            None => r is None,
        },
        r matches Some((v, next)) ==> pos < next <= end && varint_in(b@, pos as int, end as int, next as int)
            && v as nat == varint_value(b@.subrange(pos as int, next as int)),
{
    let r = scan_varint(b, pos, end);
    proof {
        match r {
            Some((v, n)) => {
                lemma_varint_next_some(b@, pos as int, end as int, n as int);
            },
            None => {
                assert(!exists|n: int| varint_in(b@, pos as int, end as int, n));
            },
        }
    }
    r
}

/// Whether a well-formed varint occupies `b[pos..next]`.
pub open spec fn varint_at(b: Seq<u8>, pos: int, next: int) -> bool {
    0 <= pos < next <= b.len() && is_varint(b.subrange(pos, next))
}

/// The fixed-width value of `width` bytes at `pos`, and where it ends.
pub open spec fn fixed_next(b: Seq<u8>, pos: int, end: int, width: int) -> Option<(u64, int)> {
    if pos + width <= end {
        Some((le_value(b.subrange(pos, pos + width)) as u64, pos + width))
    } else {
        None
    }
}

/// The field key at `pos`: field number, wire type, and where it ends. A
/// key must fit in 32 bits, name a field other than 0, and give a wire type
/// from 0 to 5.
pub open spec fn key_next(b: Seq<u8>, pos: int, end: int) -> Option<(u64, u64, int)> {
    match varint_next(b, pos, end) {
        Some((v, n)) => if v > 0xffff_ffff || v / 8 == 0 || v % 8 > 5 {
            None
        } else {
            Some((v / 8, v % 8, n))
        },
        None => None,
    }
}

/// The payload of the length-delimited value at `pos`: where it starts and ends.
pub open spec fn len_next(b: Seq<u8>, pos: int, end: int) -> Option<(int, int)> {
    match varint_next(b, pos, end) {
        Some((n, s)) => if n > end - s {
            None
        } else {
            Some((s, s + n))
        },
        None => None,
    }
}

/// Read the little-endian integer of `width` bytes (at most eight) at `pos`;
/// `None` where fewer than `width` bytes are left before `end`.
pub fn read_fixed(b: &[u8], pos: usize, end: usize, width: usize) -> (r: Option<(u64, usize)>)
    requires
        pos <= end <= b@.len(),
        width <= 8,
    ensures
        r is Some <==> pos + width <= end,
        r matches Some((v, next)) ==> next == pos + width && v as nat == le_value(
            b@.subrange(pos as int, next as int),
        ),
        match fixed_next(b@, pos as int, end as int, width as int) {
            Some((v, n)) => r == Some((v, n as usize)),
            None => r is None,
        },
{
    if width > end - pos {
        return None;
    }
    let mut k: usize = width;
    let mut v: u64 = 0;
    while k > 0
        invariant
            pos + width <= end <= b@.len(),
            width <= 8,
            k <= width,
            v as nat == le_value(b@.subrange(pos + k, pos + width)),
        decreases k,
    {
        let byte = b[pos + k - 1];
        proof {
            let s = b@.subrange(pos + k - 1, pos + width);
            assert(s.drop_first() =~= b@.subrange(pos + k, pos + width));
            lemma_le_value_bound(s.drop_first());
            reveal_with_fuel(pow256, 9);
            let q = le_value(s.drop_first());
            let e = pow256((width - k) as nat);
            assert(e <= 0x100_0000_0000_0000) by {
                assert(width - k <= 7);
            }
            assert(byte as nat + 256 * q < 0x1_0000_0000_0000_0000) by (nonlinear_arith)
                requires
                    q < e,
                    e <= 0x100_0000_0000_0000,
                    byte < 256,
            ;
        }
        v = (byte as u64) + 256 * v;
        k = k - 1;
    }
    Some((v, pos + width))
}

/// Wire types of Protocol Buffers fields.
pub const WIRE_VARINT: u64 = 0;

pub const WIRE_FIXED64: u64 = 1;

pub const WIRE_LEN: u64 = 2;

pub const WIRE_FIXED32: u64 = 5;

/// Read a field key at `pos`: its field number and its wire type. `None` where
/// the varint is not well formed or exceeds 32 bits, the field number is 0, or
/// the wire type is not one of 0 to 5.
pub fn read_key(b: &[u8], pos: usize, end: usize) -> (r: Option<(u64, u64, usize)>)
    requires
        pos <= end <= b@.len(),
    ensures
        r matches Some((field, wire, next)) ==> {
            &&& varint_at(b@, pos as int, next as int)
            &&& next <= end
            &&& varint_value(b@.subrange(pos as int, next as int)) == field * 8 + wire
            &&& varint_value(b@.subrange(pos as int, next as int)) <= 0xffff_ffff
            &&& 1 <= field
            &&& wire <= 5
        },
        match key_next(b@, pos as int, end as int) {
            Some((f, w, n)) => r == Some((f, w, n as usize)),
            None => r is None,
        },
{
    match read_varint(b, pos, end) {
        None => None,
        Some((v, next)) => {
            if v > 0xffff_ffff || v / 8 == 0 || v % 8 > 5 {
                None
            } else {
                Some((v / 8, v % 8, next))
            }
        },
    }
}

/// Read a length-delimited payload at `pos`: the varint length and the bounds
/// of the bytes that follow it. `None` where the length is not well formed or
/// the payload runs past `end`.
pub fn read_len(b: &[u8], pos: usize, end: usize) -> (r: Option<(usize, usize)>)
    requires
        pos <= end <= b@.len(),
    ensures
        r matches Some((start, stop)) ==> {
            &&& varint_at(b@, pos as int, start as int)
            &&& start <= stop <= end
            &&& varint_value(b@.subrange(pos as int, start as int)) == stop - start
        },
        match len_next(b@, pos as int, end as int) {
            Some((s, e)) => r == Some((s as usize, e as usize)),
            None => r is None,
        },
{
    match read_varint(b, pos, end) {
        None => None,
        Some((n, start)) => {
            if n > (end - start) as u64 {
                None
            } else {
                Some((start, start + n as usize))
            }
        },
    }
}

/// Where the next field starts after a value of the given wire type at `pos`.
pub open spec fn skip_next(b: Seq<u8>, pos: int, end: int, wire: u64) -> Option<int> {
    if wire == WIRE_VARINT {
        match varint_next(b, pos, end) {
            Some((_, n)) => Some(n),
            None => None,
        }
    } else if wire == WIRE_FIXED64 {
        match fixed_next(b, pos, end, 8) {
            Some((_, n)) => Some(n),
            None => None,
        }
    } else if wire == WIRE_LEN {
        match len_next(b, pos, end) {
            Some((_, e)) => Some(e),
            None => None,
        }
    } else if wire == WIRE_FIXED32 {
        match fixed_next(b, pos, end, 4) {
            Some((_, n)) => Some(n),
            None => None,
        }
    } else {
        None
    }
}

/// Skip the value of a field of wire type `wire` that starts at `pos`, and
/// return where the next field starts. Groups are not accepted.
pub fn skip_field(b: &[u8], pos: usize, end: usize, wire: u64) -> (r: Option<usize>)
    requires
        pos <= end <= b@.len(),
    ensures
        r matches Some(next) ==> pos < next <= end,
        r is Some ==> wire == WIRE_VARINT || wire == WIRE_FIXED64 || wire == WIRE_LEN || wire
            == WIRE_FIXED32,
        match skip_next(b@, pos as int, end as int, wire) {
            Some(n) => r == Some(n as usize),
            None => r is None,
        },
{
    if wire == WIRE_VARINT {
        match read_varint(b, pos, end) {
            Some((_, next)) => Some(next),
            None => None,
        }
    } else if wire == WIRE_FIXED64 {
        match read_fixed(b, pos, end, 8) {
            Some((_, next)) => Some(next),
            None => None,
        }
    } else if wire == WIRE_LEN {
        match read_len(b, pos, end) {
            Some((_, stop)) => Some(stop),
            None => None,
        }
    } else if wire == WIRE_FIXED32 {
        match read_fixed(b, pos, end, 4) {
            Some((_, next)) => Some(next),
            None => None,
        }
    } else {
        None
    }
}

} // verus!
