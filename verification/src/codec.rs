//! The wire codec: a compact, self-describing, map-based binary form for the
//! protocol messages. Structs travel as maps keyed by field-name strings, so
//! a reader can skip fields it does not know; enums travel as a variant-name
//! string (unit variants) or a one-entry map from the variant name to its
//! payload. Integers, strings, arrays and maps use the common
//! length-prefixed binary layout with big-endian length and value bytes.
//!
//! Every spec-level encoder here has a matching spec-level parser, and the
//! round-trip lemmas prove that parsing an encoding yields the encoded value
//! back. The executable encoders and decoders are proved equal to the spec
//! functions.

use vstd::prelude::*;
use vstd::utf8::valid_utf8;
use crate::protocol::{ColonyCommand, GameStateColonyView, OreType, PlayerTick, PlayerTickModel, PlayerTickResponse, UnitType};
use crate::lattice::{Entity, EntityModel, Invocation, InvocationModel, InvocationResponse, InvocationResponseModel};
use vstd::utf8::encode_utf8;

verus! {

broadcast use vstd::seq_lib::group_seq_properties;

// ---------------------------------------------------------------------------
// Unsigned integers
// ---------------------------------------------------------------------------
/// Minimal-width encoding of an unsigned integer: one literal byte below
/// 0x80, otherwise a marker byte (0xcc..0xcf) followed by the value in
/// big-endian order.
pub open spec fn enc_u64(v: u64) -> Seq<u8> {
    if v < 0x80 {
        seq![v as u8]
    } else if v < 0x100 {
        seq![0xccu8, v as u8]
    } else if v < 0x10000 {
        seq![0xcdu8, ((v >> 8) & 0xff) as u8, (v & 0xff) as u8]
    } else if v < 0x100000000 {
        seq![
            0xceu8,
            ((v >> 24) & 0xff) as u8,
            ((v >> 16) & 0xff) as u8,
            ((v >> 8) & 0xff) as u8,
            (v & 0xff) as u8,
        ]
    } else {
        seq![
            0xcfu8,
            ((v >> 56) & 0xff) as u8,
            ((v >> 48) & 0xff) as u8,
            ((v >> 40) & 0xff) as u8,
            ((v >> 32) & 0xff) as u8,
            ((v >> 24) & 0xff) as u8,
            ((v >> 16) & 0xff) as u8,
            ((v >> 8) & 0xff) as u8,
            (v & 0xff) as u8,
        ]
    }
}

/// Parse an unsigned integer at position `i`, in any of the widths the
/// encoder can produce; yields the value and the position after it.
pub open spec fn parse_u64(s: Seq<u8>, i: int) -> Option<(u64, int)> {
    if !(0 <= i < s.len()) {
        None
    } else {
        let b = s[i];
        if b < 0x80 {
            Some(((b as u64), i + 1))
        } else if b == 0xcc {
            if i + 2 <= s.len() {
                Some(((s[i + 1] as u64), i + 2))
            } else {
                None
            }
        } else if b == 0xcd {
            if i + 3 <= s.len() {
                Some(((((s[i + 1] as u64) << 8) | (s[i + 2] as u64)), i + 3))
            } else {
                None
            }
        } else if b == 0xce {
            if i + 5 <= s.len() {
                Some(
                    (
                        (((s[i + 1] as u64) << 24) | ((s[i + 2] as u64) << 16) | ((s[i
                            + 3] as u64) << 8) | (s[i + 4] as u64)),
                        i + 5,
                    ),
                )
            } else {
                None
            }
        } else if b == 0xcf {
            if i + 9 <= s.len() {
                Some(
                    (
                        (((s[i + 1] as u64) << 56) | ((s[i + 2] as u64) << 48) | ((s[i
                            + 3] as u64) << 40) | ((s[i + 4] as u64) << 32) | ((s[i + 5] as u64)
                            << 24) | ((s[i + 6] as u64) << 16) | ((s[i + 7] as u64) << 8) | (s[i
                            + 8] as u64)),
                        i + 9,
                    ),
                )
            } else {
                None
            }
        } else {
            None
        }
    }
}

/// Parsing an encoded integer back out of any byte sequence that carries the
/// encoding at position `i` yields the value and steps past it.
pub proof fn lemma_parse_enc_u64(s: Seq<u8>, i: int, v: u64)
    requires
        0 <= i,
        i + enc_u64(v).len() <= s.len(),
        s.subrange(i, i + enc_u64(v).len() as int) == enc_u64(v),
    ensures
        parse_u64(s, i) == Some((v, i + enc_u64(v).len() as int)),
{
    let e = enc_u64(v);
    assert forall|j: int| i <= j < i + e.len() implies s[j] == e[j - i] by {
        assert(s.subrange(i, i + e.len() as int)[j - i] == s[j]);
    }
    if v < 0x80 {
        assert(s[i] == (v as u8));
        assert(((v as u8) as u64) == v) by (bit_vector)
            requires
                v < 0x80,
        ;
        assert(parse_u64(s, i) == Some((v, i + 1)));
    } else if v < 0x100 {
        assert(((v as u8) as u64) == v) by (bit_vector)
            requires
                0x80 <= v < 0x100,
        ;
    } else if v < 0x10000 {
        assert(((((((v >> 8) & 0xff) as u8) as u64) << 8) | (((v & 0xff) as u8) as u64)) == v)
            by (bit_vector)
            requires
                0x100 <= v < 0x10000,
        ;
    } else if v < 0x100000000 {
        assert((((((v >> 24) & 0xff) as u8) as u64) << 24) | (((((v >> 16) & 0xff) as u8) as u64)
            << 16) | (((((v >> 8) & 0xff) as u8) as u64) << 8) | (((v & 0xff) as u8) as u64) == v)
            by (bit_vector)
            requires
                0x10000 <= v < 0x100000000,
        ;
    } else {
        assert((((((v >> 56) & 0xff) as u8) as u64) << 56) | (((((v >> 48) & 0xff) as u8) as u64)
            << 48) | (((((v >> 40) & 0xff) as u8) as u64) << 40) | (((((v >> 32)
            & 0xff) as u8) as u64) << 32) | (((((v >> 24) & 0xff) as u8) as u64) << 24) | (((((v
            >> 16) & 0xff) as u8) as u64) << 16) | (((((v >> 8) & 0xff) as u8) as u64) << 8) | (((v
            & 0xff) as u8) as u64) == v) by (bit_vector)
            requires
                0x100000000 <= v,
        ;
    }
}

/// Append the encoding of `v` to `out`.
pub fn emit_u64(out: &mut Vec<u8>, v: u64)
    ensures
        final(out)@ == old(out)@ + enc_u64(v),
{
    if v < 0x80 {
        out.push(v as u8);
    } else if v < 0x100 {
        out.push(0xcc);
        out.push(v as u8);
    } else if v < 0x10000 {
        out.push(0xcd);
        out.push(((v >> 8) & 0xff) as u8);
        out.push((v & 0xff) as u8);
    } else if v < 0x100000000 {
        out.push(0xce);
        out.push(((v >> 24) & 0xff) as u8);
        out.push(((v >> 16) & 0xff) as u8);
        out.push(((v >> 8) & 0xff) as u8);
        out.push((v & 0xff) as u8);
    } else {
        out.push(0xcf);
        out.push(((v >> 56) & 0xff) as u8);
        out.push(((v >> 48) & 0xff) as u8);
        out.push(((v >> 40) & 0xff) as u8);
        out.push(((v >> 32) & 0xff) as u8);
        out.push(((v >> 24) & 0xff) as u8);
        out.push(((v >> 16) & 0xff) as u8);
        out.push(((v >> 8) & 0xff) as u8);
        out.push((v & 0xff) as u8);
    }
    proof {
        assert(out@ =~= old(out)@ + enc_u64(v));
    }
}

/// Read an unsigned integer at position `i` of `s`.
pub fn read_u64(s: &[u8], i: usize) -> (r: Option<(u64, usize)>)
    ensures
        match r {
            Some((v, j)) => parse_u64(s@, i as int) == Some((v, j as int)),
            None => parse_u64(s@, i as int) is None,
        },
{
    if i >= s.len() {
        return None;
    }
    let b = s[i];
    if b < 0x80 {
        Some((b as u64, i + 1))
    } else if b == 0xcc {
        if s.len() - i >= 2 {
            Some((s[i + 1] as u64, i + 2))
        } else {
            None
        }
    } else if b == 0xcd {
        if s.len() - i >= 3 {
            Some((((s[i + 1] as u64) << 8) | (s[i + 2] as u64), i + 3))
        } else {
            None
        }
    } else if b == 0xce {
        if s.len() - i >= 5 {
            Some(
                (
                    ((s[i + 1] as u64) << 24) | ((s[i + 2] as u64) << 16) | ((s[i + 3] as u64) << 8)
                        | (s[i + 4] as u64),
                    i + 5,
                ),
            )
        } else {
            None
        }
    } else if b == 0xcf {
        if s.len() - i >= 9 {
            Some(
                (
                    ((s[i + 1] as u64) << 56) | ((s[i + 2] as u64) << 48) | ((s[i + 3] as u64)
                        << 40) | ((s[i + 4] as u64) << 32) | ((s[i + 5] as u64) << 24) | ((s[i
                        + 6] as u64) << 16) | ((s[i + 7] as u64) << 8) | (s[i + 8] as u64),
                    i + 9,
                ),
            )
        } else {
            None
        }
    } else {
        None
    }
}

// ---------------------------------------------------------------------------
// Sequence splitting helper
// ---------------------------------------------------------------------------
/// A subrange that equals a concatenation splits into subranges that equal
/// the two parts.
pub proof fn lemma_subrange_concat(s: Seq<u8>, i: int, a: Seq<u8>, b: Seq<u8>)
    requires
        0 <= i,
        i + a.len() + b.len() <= s.len(),
        s.subrange(i, i + a.len() as int + b.len() as int) == a + b,
    ensures
        s.subrange(i, i + a.len() as int) == a,
        s.subrange(i + a.len() as int, i + a.len() as int + b.len() as int) == b,
{
    let e = a + b;
    let n = a.len() as int;
    let m = b.len() as int;
    assert forall|j: int| i <= j < i + n + m implies s[j] == e[j - i] by {
        assert(s.subrange(i, i + n + m)[j - i] == s[j]);
    }
    assert(s.subrange(i, i + n) =~= a);
    assert(s.subrange(i + n, i + n + m) =~= b);
}

// ---------------------------------------------------------------------------
// String, array and map headers
// ---------------------------------------------------------------------------
/// Header announcing a string of `n` bytes.
pub open spec fn enc_strhdr(n: u64) -> Seq<u8> {
    if n < 32 {
        seq![(0xa0 + n) as u8]
    } else if n < 0x100 {
        seq![0xd9u8, n as u8]
    } else if n < 0x10000 {
        seq![0xdau8, ((n >> 8) & 0xff) as u8, (n & 0xff) as u8]
    } else {
        seq![
            0xdbu8,
            ((n >> 24) & 0xff) as u8,
            ((n >> 16) & 0xff) as u8,
            ((n >> 8) & 0xff) as u8,
            (n & 0xff) as u8,
        ]
    }
}

/// Header announcing an array of `n` elements.
pub open spec fn enc_arrayhdr(n: u64) -> Seq<u8> {
    if n < 16 {
        seq![(0x90 + n) as u8]
    } else if n < 0x10000 {
        seq![0xdcu8, ((n >> 8) & 0xff) as u8, (n & 0xff) as u8]
    } else {
        seq![
            0xddu8,
            ((n >> 24) & 0xff) as u8,
            ((n >> 16) & 0xff) as u8,
            ((n >> 8) & 0xff) as u8,
            (n & 0xff) as u8,
        ]
    }
}

/// Header announcing a map of `n` key/value entries.
pub open spec fn enc_maphdr(n: u64) -> Seq<u8> {
    if n < 16 {
        seq![(0x80 + n) as u8]
    } else if n < 0x10000 {
        seq![0xdeu8, ((n >> 8) & 0xff) as u8, (n & 0xff) as u8]
    } else {
        seq![
            0xdfu8,
            ((n >> 24) & 0xff) as u8,
            ((n >> 16) & 0xff) as u8,
            ((n >> 8) & 0xff) as u8,
            (n & 0xff) as u8,
        ]
    }
}

/// Parse a string header at `i`: the announced byte length and the position
/// after the header.
pub open spec fn parse_strhdr(s: Seq<u8>, i: int) -> Option<(u64, int)> {
    if !(0 <= i < s.len()) {
        None
    } else {
        let b = s[i];
        if 0xa0 <= b < 0xc0 {
            Some((((b - 0xa0) as u64), i + 1))
        } else if b == 0xd9 {
            if i + 2 <= s.len() {
                Some(((s[i + 1] as u64), i + 2))
            } else {
                None
            }
        } else if b == 0xda {
            if i + 3 <= s.len() {
                Some(((((s[i + 1] as u64) << 8) | (s[i + 2] as u64)), i + 3))
            } else {
                None
            }
        } else if b == 0xdb {
            if i + 5 <= s.len() {
                Some(
                    (
                        (((s[i + 1] as u64) << 24) | ((s[i + 2] as u64) << 16) | ((s[i
                            + 3] as u64) << 8) | (s[i + 4] as u64)),
                        i + 5,
                    ),
                )
            } else {
                None
            }
        } else {
            None
        }
    }
}

/// Parse an array header at `i`.
pub open spec fn parse_arrayhdr(s: Seq<u8>, i: int) -> Option<(u64, int)> {
    if !(0 <= i < s.len()) {
        None
    } else {
        let b = s[i];
        if 0x90 <= b < 0xa0 {
            Some((((b - 0x90) as u64), i + 1))
        } else if b == 0xdc {
            if i + 3 <= s.len() {
                Some(((((s[i + 1] as u64) << 8) | (s[i + 2] as u64)), i + 3))
            } else {
                None
            }
        } else if b == 0xdd {
            if i + 5 <= s.len() {
                Some(
                    (
                        (((s[i + 1] as u64) << 24) | ((s[i + 2] as u64) << 16) | ((s[i
                            + 3] as u64) << 8) | (s[i + 4] as u64)),
                        i + 5,
                    ),
                )
            } else {
                None
            }
        } else {
            None
        }
    }
}

/// Parse a map header at `i`.
pub open spec fn parse_maphdr(s: Seq<u8>, i: int) -> Option<(u64, int)> {
    if !(0 <= i < s.len()) {
        None
    } else {
        let b = s[i];
        if 0x80 <= b < 0x90 {
            Some((((b - 0x80) as u64), i + 1))
        } else if b == 0xde {
            if i + 3 <= s.len() {
                Some(((((s[i + 1] as u64) << 8) | (s[i + 2] as u64)), i + 3))
            } else {
                None
            }
        } else if b == 0xdf {
            if i + 5 <= s.len() {
                Some(
                    (
                        (((s[i + 1] as u64) << 24) | ((s[i + 2] as u64) << 16) | ((s[i
                            + 3] as u64) << 8) | (s[i + 4] as u64)),
                        i + 5,
                    ),
                )
            } else {
                None
            }
        } else {
            None
        }
    }
}

/// Two-byte big-endian length survives the round trip.
proof fn lemma_be16_round(n: u64)
    requires
        n < 0x10000,
    ensures
        (((((n >> 8) & 0xff) as u8) as u64) << 8) | (((n & 0xff) as u8) as u64) == n,
{
    assert((((((n >> 8) & 0xff) as u8) as u64) << 8) | (((n & 0xff) as u8) as u64) == n)
        by (bit_vector)
        requires
            n < 0x10000,
    ;
}

/// Four-byte big-endian length survives the round trip.
proof fn lemma_be32_round(n: u64)
    requires
        n < 0x100000000,
    ensures
        (((((n >> 24) & 0xff) as u8) as u64) << 24) | (((((n >> 16) & 0xff) as u8) as u64) << 16)
            | (((((n >> 8) & 0xff) as u8) as u64) << 8) | (((n & 0xff) as u8) as u64) == n,
{
    assert((((((n >> 24) & 0xff) as u8) as u64) << 24) | (((((n >> 16) & 0xff) as u8) as u64) << 16)
        | (((((n >> 8) & 0xff) as u8) as u64) << 8) | (((n & 0xff) as u8) as u64) == n)
        by (bit_vector)
        requires
            n < 0x100000000,
    ;
}

/// Parsing an encoded string header yields the length back.
pub proof fn lemma_parse_enc_strhdr(s: Seq<u8>, i: int, n: u64)
    requires
        0 <= i,
        n <= 0xffffffff,
        i + enc_strhdr(n).len() <= s.len(),
        s.subrange(i, i + enc_strhdr(n).len() as int) == enc_strhdr(n),
    ensures
        parse_strhdr(s, i) == Some((n, i + enc_strhdr(n).len() as int)),
{
    let e = enc_strhdr(n);
    assert forall|j: int| i <= j < i + e.len() implies s[j] == e[j - i] by {
        assert(s.subrange(i, i + e.len() as int)[j - i] == s[j]);
    }
    if n < 32 {
    } else if n < 0x100 {
    } else if n < 0x10000 {
        lemma_be16_round(n);
    } else {
        lemma_be32_round(n);
    }
}

/// Parsing an encoded array header yields the length back.
pub proof fn lemma_parse_enc_arrayhdr(s: Seq<u8>, i: int, n: u64)
    requires
        0 <= i,
        n <= 0xffffffff,
        i + enc_arrayhdr(n).len() <= s.len(),
        s.subrange(i, i + enc_arrayhdr(n).len() as int) == enc_arrayhdr(n),
    ensures
        parse_arrayhdr(s, i) == Some((n, i + enc_arrayhdr(n).len() as int)),
{
    let e = enc_arrayhdr(n);
    assert forall|j: int| i <= j < i + e.len() implies s[j] == e[j - i] by {
        assert(s.subrange(i, i + e.len() as int)[j - i] == s[j]);
    }
    if n < 16 {
    } else if n < 0x10000 {
        lemma_be16_round(n);
    } else {
        lemma_be32_round(n);
    }
}

/// Parsing an encoded map header yields the length back.
pub proof fn lemma_parse_enc_maphdr(s: Seq<u8>, i: int, n: u64)
    requires
        0 <= i,
        n <= 0xffffffff,
        i + enc_maphdr(n).len() <= s.len(),
        s.subrange(i, i + enc_maphdr(n).len() as int) == enc_maphdr(n),
    ensures
        parse_maphdr(s, i) == Some((n, i + enc_maphdr(n).len() as int)),
{
    let e = enc_maphdr(n);
    assert forall|j: int| i <= j < i + e.len() implies s[j] == e[j - i] by {
        assert(s.subrange(i, i + e.len() as int)[j - i] == s[j]);
    }
    if n < 16 {
    } else if n < 0x10000 {
        lemma_be16_round(n);
    } else {
        lemma_be32_round(n);
    }
}

/// Append a string header for `n` bytes to `out`.
pub fn emit_strhdr(out: &mut Vec<u8>, n: u64)
    ensures
        final(out)@ == old(out)@ + enc_strhdr(n),
{
    if n < 32 {
        out.push((0xa0 + n) as u8);
    } else if n < 0x100 {
        out.push(0xd9);
        out.push(n as u8);
    } else if n < 0x10000 {
        out.push(0xda);
        out.push(((n >> 8) & 0xff) as u8);
        out.push((n & 0xff) as u8);
    } else {
        out.push(0xdb);
        out.push(((n >> 24) & 0xff) as u8);
        out.push(((n >> 16) & 0xff) as u8);
        out.push(((n >> 8) & 0xff) as u8);
        out.push((n & 0xff) as u8);
    }
    proof {
        assert(out@ =~= old(out)@ + enc_strhdr(n));
    }
}

/// Append an array header for `n` elements to `out`.
pub fn emit_arrayhdr(out: &mut Vec<u8>, n: u64)
    ensures
        final(out)@ == old(out)@ + enc_arrayhdr(n),
{
    if n < 16 {
        out.push((0x90 + n) as u8);
    } else if n < 0x10000 {
        out.push(0xdc);
        out.push(((n >> 8) & 0xff) as u8);
        out.push((n & 0xff) as u8);
    } else {
        out.push(0xdd);
        out.push(((n >> 24) & 0xff) as u8);
        out.push(((n >> 16) & 0xff) as u8);
        out.push(((n >> 8) & 0xff) as u8);
        out.push((n & 0xff) as u8);
    }
    proof {
        assert(out@ =~= old(out)@ + enc_arrayhdr(n));
    }
}

/// Append a map header for `n` entries to `out`.
pub fn emit_maphdr(out: &mut Vec<u8>, n: u64)
    ensures
        final(out)@ == old(out)@ + enc_maphdr(n),
{
    if n < 16 {
        out.push((0x80 + n) as u8);
    } else if n < 0x10000 {
        out.push(0xde);
        out.push(((n >> 8) & 0xff) as u8);
        out.push((n & 0xff) as u8);
    } else {
        out.push(0xdf);
        out.push(((n >> 24) & 0xff) as u8);
        out.push(((n >> 16) & 0xff) as u8);
        out.push(((n >> 8) & 0xff) as u8);
        out.push((n & 0xff) as u8);
    }
    proof {
        assert(out@ =~= old(out)@ + enc_maphdr(n));
    }
}

/// Read a string header at position `i` of `s`.
pub fn read_strhdr(s: &[u8], i: usize) -> (r: Option<(u64, usize)>)
    ensures
        match r {
            Some((n, j)) => parse_strhdr(s@, i as int) == Some((n, j as int)),
            None => parse_strhdr(s@, i as int) is None,
        },
{
    if i >= s.len() {
        return None;
    }
    let b = s[i];
    if 0xa0 <= b && b < 0xc0 {
        Some(((b - 0xa0) as u64, i + 1))
    } else if b == 0xd9 {
        if s.len() - i >= 2 {
            Some((s[i + 1] as u64, i + 2))
        } else {
            None
        }
    } else if b == 0xda {
        if s.len() - i >= 3 {
            Some((((s[i + 1] as u64) << 8) | (s[i + 2] as u64), i + 3))
        } else {
            None
        }
    } else if b == 0xdb {
        if s.len() - i >= 5 {
            Some(
                (
                    ((s[i + 1] as u64) << 24) | ((s[i + 2] as u64) << 16) | ((s[i + 3] as u64) << 8)
                        | (s[i + 4] as u64),
                    i + 5,
                ),
            )
        } else {
            None
        }
    } else {
        None
    }
}

/// Read an array header at position `i` of `s`.
pub fn read_arrayhdr(s: &[u8], i: usize) -> (r: Option<(u64, usize)>)
    ensures
        match r {
            Some((n, j)) => parse_arrayhdr(s@, i as int) == Some((n, j as int)),
            None => parse_arrayhdr(s@, i as int) is None,
        },
{
    if i >= s.len() {
        return None;
    }
    let b = s[i];
    if 0x90 <= b && b < 0xa0 {
        Some(((b - 0x90) as u64, i + 1))
    } else if b == 0xdc {
        if s.len() - i >= 3 {
            Some((((s[i + 1] as u64) << 8) | (s[i + 2] as u64), i + 3))
        } else {
            None
        }
    } else if b == 0xdd {
        if s.len() - i >= 5 {
            Some(
                (
                    ((s[i + 1] as u64) << 24) | ((s[i + 2] as u64) << 16) | ((s[i + 3] as u64) << 8)
                        | (s[i + 4] as u64),
                    i + 5,
                ),
            )
        } else {
            None
        }
    } else {
        None
    }
}

/// Read a map header at position `i` of `s`.
pub fn read_maphdr(s: &[u8], i: usize) -> (r: Option<(u64, usize)>)
    ensures
        match r {
            Some((n, j)) => parse_maphdr(s@, i as int) == Some((n, j as int)),
            None => parse_maphdr(s@, i as int) is None,
        },
{
    if i >= s.len() {
        return None;
    }
    let b = s[i];
    if 0x80 <= b && b < 0x90 {
        Some(((b - 0x80) as u64, i + 1))
    } else if b == 0xde {
        if s.len() - i >= 3 {
            Some((((s[i + 1] as u64) << 8) | (s[i + 2] as u64), i + 3))
        } else {
            None
        }
    } else if b == 0xdf {
        if s.len() - i >= 5 {
            Some(
                (
                    ((s[i + 1] as u64) << 24) | ((s[i + 2] as u64) << 16) | ((s[i + 3] as u64) << 8)
                        | (s[i + 4] as u64),
                    i + 5,
                ),
            )
        } else {
            None
        }
    } else {
        None
    }
}

// ---------------------------------------------------------------------------
// Strings
// ---------------------------------------------------------------------------
/// Encoding of a string whose UTF-8 bytes are `b`: its header, then the
/// bytes themselves.
pub open spec fn enc_str(b: Seq<u8>) -> Seq<u8> {
    enc_strhdr(b.len() as u64) + b
}

/// Parse a string at `i` without insisting that its bytes are UTF-8; used
/// for the field-name keys of struct maps, which are only ever compared.
pub open spec fn parse_rawstr(s: Seq<u8>, i: int) -> Option<(Seq<u8>, int)> {
    match parse_strhdr(s, i) {
        Some((n, j)) => if j + n <= s.len() {
            Some((s.subrange(j, j + n as int), j + n as int))
        } else {
            None
        },
        None => None,
    }
}

/// Parse a string value at `i`: as [`parse_rawstr`], but malformed UTF-8 is
/// a parse failure, since the decoded message carries real strings.
pub open spec fn parse_str(s: Seq<u8>, i: int) -> Option<(Seq<u8>, int)> {
    match parse_rawstr(s, i) {
        Some((b, j)) => if valid_utf8(b) {
            Some((b, j))
        } else {
            None
        },
        None => None,
    }
}

/// Parsing an encoded string yields its bytes back.
pub proof fn lemma_parse_enc_rawstr(s: Seq<u8>, i: int, b: Seq<u8>)
    requires
        0 <= i,
        b.len() <= 0xffffffff,
        i + enc_str(b).len() <= s.len(),
        s.subrange(i, i + enc_str(b).len() as int) == enc_str(b),
    ensures
        parse_rawstr(s, i) == Some((b, i + enc_str(b).len() as int)),
{
    let h = enc_strhdr(b.len() as u64);
    lemma_subrange_concat(s, i, h, b);
    lemma_parse_enc_strhdr(s, i, b.len() as u64);
}

/// As [`lemma_parse_enc_rawstr`], for the validating parser.
pub proof fn lemma_parse_enc_str(s: Seq<u8>, i: int, b: Seq<u8>)
    requires
        0 <= i,
        b.len() <= 0xffffffff,
        valid_utf8(b),
        i + enc_str(b).len() <= s.len(),
        s.subrange(i, i + enc_str(b).len() as int) == enc_str(b),
    ensures
        parse_str(s, i) == Some((b, i + enc_str(b).len() as int)),
{
    lemma_parse_enc_rawstr(s, i, b);
}

/// Append the encoding of the string bytes `b` to `out`.
pub fn emit_str_bytes(out: &mut Vec<u8>, b: &[u8])
    ensures
        final(out)@ == old(out)@ + enc_str(b@),
{
    emit_strhdr(out, b.len() as u64);
    out.extend_from_slice(b);
    proof {
        assert(out@ =~= old(out)@ + enc_str(b@));
    }
}

/// Append the encoding of the string `st` to `out`.
pub fn emit_string(out: &mut Vec<u8>, st: &str)
    ensures
        final(out)@ == old(out)@ + enc_str(vstd::utf8::encode_utf8(st@)),
{
    let b: Vec<u8> = st.as_bytes_vec();
    emit_str_bytes(out, b.as_slice());
}

/// Read a string at `i` as its raw bytes, without UTF-8 validation.
pub fn read_rawstr(s: &[u8], i: usize) -> (r: Option<(Vec<u8>, usize)>)
    ensures
        match r {
            Some((b, j)) => parse_rawstr(s@, i as int) == Some((b@, j as int)),
            None => parse_rawstr(s@, i as int) is None,
        },
{
    match read_strhdr(s, i) {
        Some((n, j)) => {
            if n <= (s.len() - j) as u64 {
                let end: usize = j + (n as usize);
                let sub: &[u8] = vstd::slice::slice_subrange(s, j, end);
                Some((vstd::slice::slice_to_vec(sub), end))
            } else {
                None
            }
        },
        None => None,
    }
}

/// Relies on std's String::from_utf8: it succeeds exactly on valid UTF-8
/// input and returns the string whose UTF-8 encoding is that input.
#[verifier::external_body]
pub(crate) fn string_from_utf8(b: Vec<u8>) -> (r: Option<String>)
    ensures
        r is Some <==> valid_utf8(b@),
        r matches Some(st) ==> vstd::utf8::encode_utf8(st@) == b@,
{
    String::from_utf8(b).ok()
}

/// Read a string value at `i`, validating that it is UTF-8.
pub fn read_string(s: &[u8], i: usize) -> (r: Option<(String, usize)>)
    ensures
        match r {
            Some((st, j)) => parse_str(s@, i as int) == Some(
                (vstd::utf8::encode_utf8(st@), j as int),
            ),
            None => parse_str(s@, i as int) is None,
        },
{
    match read_rawstr(s, i) {
        Some((b, j)) => {
            match string_from_utf8(b) {
                Some(st) => Some((st, j)),
                None => None,
            }
        },
        None => None,
    }
}

// ---------------------------------------------------------------------------
// Byte payloads, carried as arrays of small integers
// ---------------------------------------------------------------------------
/// Element-wise encoding of the bytes of a payload.
pub open spec fn enc_u8_elems(b: Seq<u8>) -> Seq<u8>
    decreases b.len(),
{
    if b.len() == 0 {
        Seq::empty()
    } else {
        enc_u64(b[0] as u64) + enc_u8_elems(b.drop_first())
    }
}

/// Encoding of a byte payload: an array header, then one integer per byte.
pub open spec fn enc_bin(b: Seq<u8>) -> Seq<u8> {
    enc_arrayhdr(b.len() as u64) + enc_u8_elems(b)
}

/// Parse `n` consecutive integer elements, each of which must fit in a byte.
pub open spec fn parse_u8_elems(s: Seq<u8>, i: int, n: u64) -> Option<(Seq<u8>, int)>
    decreases n,
{
    if n == 0 {
        Some((Seq::empty(), i))
    } else {
        match parse_u64(s, i) {
            Some((v, j)) => if v <= 0xff {
                match parse_u8_elems(s, j, (n - 1) as u64) {
                    Some((rest, end)) => Some((seq![v as u8] + rest, end)),
                    None => None,
                }
            } else {
                None
            },
            None => None,
        }
    }
}

/// Parse a byte payload at `i`.
pub open spec fn parse_bin(s: Seq<u8>, i: int) -> Option<(Seq<u8>, int)> {
    match parse_arrayhdr(s, i) {
        Some((n, j)) => parse_u8_elems(s, j, n),
        None => None,
    }
}

/// Parsing the element-wise encoding of a payload yields the payload back.
pub proof fn lemma_parse_enc_u8_elems(s: Seq<u8>, i: int, b: Seq<u8>)
    requires
        0 <= i,
        b.len() <= 0xffffffff,
        i + enc_u8_elems(b).len() <= s.len(),
        s.subrange(i, i + enc_u8_elems(b).len() as int) == enc_u8_elems(b),
    ensures
        parse_u8_elems(s, i, b.len() as u64) == Some((b, i + enc_u8_elems(b).len() as int)),
    decreases b.len(),
{
    if b.len() == 0 {
    } else {
        let e0 = enc_u64(b[0] as u64);
        let erest = enc_u8_elems(b.drop_first());
        lemma_subrange_concat(s, i, e0, erest);
        lemma_parse_enc_u64(s, i, b[0] as u64);
        lemma_parse_enc_u8_elems(s, i + e0.len() as int, b.drop_first());
        assert(seq![b[0]] + b.drop_first() =~= b);
    }
}

/// Parsing an encoded payload yields the payload back.
pub proof fn lemma_parse_enc_bin(s: Seq<u8>, i: int, b: Seq<u8>)
    requires
        0 <= i,
        b.len() <= 0xffffffff,
        i + enc_bin(b).len() <= s.len(),
        s.subrange(i, i + enc_bin(b).len() as int) == enc_bin(b),
    ensures
        parse_bin(s, i) == Some((b, i + enc_bin(b).len() as int)),
{
    let h = enc_arrayhdr(b.len() as u64);
    lemma_subrange_concat(s, i, h, enc_u8_elems(b));
    lemma_parse_enc_arrayhdr(s, i, b.len() as u64);
    lemma_parse_enc_u8_elems(s, i + h.len() as int, b);
}

/// Appending one more element extends the element-wise encoding at the end.
proof fn lemma_enc_u8_elems_snoc(b: Seq<u8>, x: u8)
    ensures
        enc_u8_elems(b.push(x)) == enc_u8_elems(b) + enc_u64(x as u64),
    decreases b.len(),
{
    if b.len() == 0 {
        assert(b.push(x).drop_first() =~= Seq::<u8>::empty());
        assert(enc_u8_elems(b.push(x)) =~= enc_u8_elems(b) + enc_u64(x as u64));
    } else {
        lemma_enc_u8_elems_snoc(b.drop_first(), x);
        assert(b.push(x).drop_first() =~= b.drop_first().push(x));
        assert(enc_u8_elems(b.push(x)) =~= enc_u8_elems(b) + enc_u64(x as u64));
    }
}

/// Append the encoding of the payload `b` to `out`.
pub fn emit_bin(out: &mut Vec<u8>, b: &[u8])
    ensures
        final(out)@ == old(out)@ + enc_bin(b@),
{
    let n: usize = b.len();
    emit_arrayhdr(out, n as u64);
    let mut k: usize = 0;
    proof {
        assert(b@.take(0) =~= Seq::<u8>::empty());
        assert(out@ =~= old(out)@ + enc_arrayhdr(n as u64) + enc_u8_elems(b@.take(0)));
    }
    while k < n
        invariant
            k <= n,
            n == b@.len(),
            out@ == old(out)@ + enc_arrayhdr(n as u64) + enc_u8_elems(b@.take(k as int)),
        decreases n - k,
    {
        emit_u64(out, b[k] as u64);
        proof {
            lemma_enc_u8_elems_snoc(b@.take(k as int), b@[k as int]);
            assert(b@.take(k as int).push(b@[k as int]) =~= b@.take(k as int + 1));
            assert(out@ =~= old(out)@ + enc_arrayhdr(n as u64) + enc_u8_elems(
                b@.take(k as int + 1),
            ));
        }
        k = k + 1;
    }
    proof {
        assert(b@.take(n as int) =~= b@);
        assert(out@ =~= old(out)@ + enc_bin(b@));
    }
}

/// Read a byte payload at position `i` of `s`.
pub fn read_bin(s: &[u8], i: usize) -> (r: Option<(Vec<u8>, usize)>)
    ensures
        match r {
            Some((b, j)) => parse_bin(s@, i as int) == Some((b@, j as int)),
            None => parse_bin(s@, i as int) is None,
        },
{
    match read_arrayhdr(s, i) {
        Some((n, j0)) => {
            let mut acc: Vec<u8> = Vec::new();
            let mut j: usize = j0;
            let mut rem: u64 = n;
            loop
                invariant
                    j <= s.len(),
                    parse_arrayhdr(s@, i as int) == Some((n, j0 as int)),
                    match parse_u8_elems(s@, j as int, rem) {
                        Some((rest, end)) => parse_u8_elems(s@, j0 as int, n) == Some(
                            (acc@ + rest, end),
                        ),
                        None => parse_u8_elems(s@, j0 as int, n) is None,
                    },
                decreases rem,
            {
                if rem == 0 {
                    proof {
                        assert(parse_u8_elems(s@, j as int, 0) == Some(
                            (Seq::<u8>::empty(), j as int),
                        ));
                        assert(acc@ + Seq::<u8>::empty() =~= acc@);
                        assert(parse_u8_elems(s@, j0 as int, n) == Some((acc@, j as int)));
                        assert(parse_bin(s@, i as int) == Some((acc@, j as int)));
                    }
                    return Some((acc, j));
                }
                match read_u64(s, j) {
                    Some((v, j2)) => {
                        if v > 0xff {
                            proof {
                                assert(parse_u8_elems(s@, j as int, rem) is None);
                                assert(parse_bin(s@, i as int) is None);
                            }
                            return None;
                        }
                        proof {
                            let rest2 = parse_u8_elems(s@, j2 as int, (rem - 1) as u64);
                            if rest2 is Some {
                                assert(acc@ + (seq![v as u8] + rest2.unwrap().0) =~= acc@.push(
                                    v as u8,
                                ) + rest2.unwrap().0);
                            }
                        }
                        acc.push(v as u8);
                        j = j2;
                        rem = rem - 1;
                    },
                    None => {
                        proof {
                            assert(parse_u8_elems(s@, j as int, rem) is None);
                            assert(parse_bin(s@, i as int) is None);
                        }
                        return None;
                    },
                }
            }
        },
        None => None,
    }
}

// ---------------------------------------------------------------------------
// Skipping unknown values
// ---------------------------------------------------------------------------
/// Step over one value of the codec's universe at `i`: nil, a boolean, an
/// unsigned integer, a string, an array or a map. Unknown fields of a struct
/// map are skipped with this, so that a reader tolerates fields added by a
/// newer writer.
pub open spec fn skip_value(s: Seq<u8>, i: int) -> Option<int>
    decreases s.len() - i, 0int,
{
    if !(0 <= i < s.len()) {
        None
    } else {
        let b = s[i];
        if b == 0xc0 || b == 0xc2 || b == 0xc3 || b < 0x80 {
            Some(i + 1)
        } else if b == 0xcc || b == 0xcd || b == 0xce || b == 0xcf {
            match parse_u64(s, i) {
                Some((_v, j)) => Some(j),
                None => None,
            }
        } else if (0xa0 <= b < 0xc0) || b == 0xd9 || b == 0xda || b == 0xdb {
            match parse_rawstr(s, i) {
                Some((_b, j)) => Some(j),
                None => None,
            }
        } else if (0x90 <= b < 0xa0) || b == 0xdc || b == 0xdd {
            match parse_arrayhdr(s, i) {
                Some((n, j)) => skip_values(s, j, n as int),
                None => None,
            }
        } else if (0x80 <= b < 0x90) || b == 0xde || b == 0xdf {
            match parse_maphdr(s, i) {
                Some((n, j)) => skip_values(s, j, 2 * (n as int)),
                None => None,
            }
        } else {
            None
        }
    }
}

/// Step over `c` consecutive values starting at `i`.
pub open spec fn skip_values(s: Seq<u8>, i: int, c: int) -> Option<int>
    decreases s.len() - i, c,
{
    if c <= 0 {
        Some(i)
    } else {
        match skip_value(s, i) {
            Some(j) => if i < j && j <= s.len() {
                skip_values(s, j, c - 1)
            } else {
                None
            },
            None => None,
        }
    }
}

/// Step over one value, executably.
pub fn skip_one(s: &[u8], i: usize) -> (r: Option<usize>)
    ensures
        match r {
            Some(j) => skip_value(s@, i as int) == Some(j as int) && i < j <= s@.len(),
            None => skip_value(s@, i as int) is None,
        },
    decreases s@.len() - i, 0int,
{
    if i >= s.len() {
        return None;
    }
    let b = s[i];
    if b == 0xc0 || b == 0xc2 || b == 0xc3 || b < 0x80 {
        Some(i + 1)
    } else if b == 0xcc || b == 0xcd || b == 0xce || b == 0xcf {
        match read_u64(s, i) {
            Some((_v, j)) => Some(j),
            None => None,
        }
    } else if (0xa0 <= b && b < 0xc0) || b == 0xd9 || b == 0xda || b == 0xdb {
        match read_strhdr(s, i) {
            Some((n, j)) => {
                if n <= (s.len() - j) as u64 {
                    Some(j + (n as usize))
                } else {
                    None
                }
            },
            None => None,
        }
    } else if (0x90 <= b && b < 0xa0) || b == 0xdc || b == 0xdd {
        match read_arrayhdr(s, i) {
            Some((n, j)) => skip_count(s, j, n),
            None => None,
        }
    } else if (0x80 <= b && b < 0x90) || b == 0xde || b == 0xdf {
        match read_maphdr(s, i) {
            Some((n, j)) => skip_count2(s, j, n),
            None => None,
        }
    } else {
        None
    }
}

/// Step over `c` values, executably.
pub fn skip_count(s: &[u8], i: usize, c: u64) -> (r: Option<usize>)
    requires
        i <= s@.len(),
    ensures
        match r {
            Some(j) => skip_values(s@, i as int, c as int) == Some(j as int) && i <= j <= s@.len(),
            None => skip_values(s@, i as int, c as int) is None,
        },
    decreases s@.len() - i, c as int,
{
    if c == 0 {
        return Some(i);
    }
    match skip_one(s, i) {
        Some(j) => skip_count(s, j, c - 1),
        None => None,
    }
}

/// Step over `2 * c` values: the keys and values of a map of `c` entries.
pub fn skip_count2(s: &[u8], i: usize, c: u64) -> (r: Option<usize>)
    requires
        i <= s@.len(),
    ensures
        match r {
            Some(j) => skip_values(s@, i as int, 2 * (c as int)) == Some(j as int) && i <= j
                <= s@.len(),
            None => skip_values(s@, i as int, 2 * (c as int)) is None,
        },
    decreases s@.len() - i, 2 * (c as int),
{
    if c == 0 {
        return Some(i);
    }
    match skip_one(s, i) {
        Some(j) => {
            proof {
                assert(skip_values(s@, i as int, 2 * (c as int)) == skip_values(
                    s@,
                    j as int,
                    2 * (c as int) - 1,
                ));
            }
            match skip_one(s, j) {
                Some(j2) => {
                    proof {
                        assert(skip_values(s@, j as int, 2 * (c as int) - 1) == skip_values(
                            s@,
                            j2 as int,
                            2 * (c as int) - 2,
                        ));
                        assert(2 * (c as int) - 2 == 2 * ((c - 1) as int));
                    }
                    skip_count2(s, j2, c - 1)
                },
                None => None,
            }
        },
        None => None,
    }
}

// ---------------------------------------------------------------------------
// Field and variant names, as the bytes they occupy on the wire
// ---------------------------------------------------------------------------
/// The wire bytes of the name `placeholder`.
pub open spec fn key_placeholder() -> Seq<u8> {
    seq![0x70u8, 0x6cu8, 0x61u8, 0x63u8, 0x65u8, 0x68u8, 0x6fu8, 0x6cu8, 0x64u8, 0x65u8, 0x72u8]
}

fn kb_placeholder() -> (r: Vec<u8>)
    ensures
        r@ == key_placeholder(),
{
    let v: Vec<u8> = vec![0x70, 0x6c, 0x61, 0x63, 0x65, 0x68, 0x6f, 0x6c, 0x64, 0x65, 0x72];
    proof {
        assert(v@ =~= key_placeholder());
    }
    v
}

/// The wire bytes of the name `tick`.
pub open spec fn key_tick() -> Seq<u8> {
    seq![0x74u8, 0x69u8, 0x63u8, 0x6bu8]
}

fn kb_tick() -> (r: Vec<u8>)
    ensures
        r@ == key_tick(),
{
    let v: Vec<u8> = vec![0x74, 0x69, 0x63, 0x6b];
    proof {
        assert(v@ =~= key_tick());
    }
    v
}

/// The wire bytes of the name `player_id`.
pub open spec fn key_player_id() -> Seq<u8> {
    seq![0x70u8, 0x6cu8, 0x61u8, 0x79u8, 0x65u8, 0x72u8, 0x5fu8, 0x69u8, 0x64u8]
}

fn kb_player_id() -> (r: Vec<u8>)
    ensures
        r@ == key_player_id(),
{
    let v: Vec<u8> = vec![0x70, 0x6c, 0x61, 0x79, 0x65, 0x72, 0x5f, 0x69, 0x64];
    proof {
        assert(v@ =~= key_player_id());
    }
    v
}

/// The wire bytes of the name `game_state`.
pub open spec fn key_game_state() -> Seq<u8> {
    seq![0x67u8, 0x61u8, 0x6du8, 0x65u8, 0x5fu8, 0x73u8, 0x74u8, 0x61u8, 0x74u8, 0x65u8]
}

fn kb_game_state() -> (r: Vec<u8>)
    ensures
        r@ == key_game_state(),
{
    let v: Vec<u8> = vec![0x67, 0x61, 0x6d, 0x65, 0x5f, 0x73, 0x74, 0x61, 0x74, 0x65];
    proof {
        assert(v@ =~= key_game_state());
    }
    v
}

/// The wire bytes of the name `commands`.
pub open spec fn key_commands() -> Seq<u8> {
    seq![0x63u8, 0x6fu8, 0x6du8, 0x6du8, 0x61u8, 0x6eu8, 0x64u8, 0x73u8]
}

fn kb_commands() -> (r: Vec<u8>)
    ensures
        r@ == key_commands(),
{
    let v: Vec<u8> = vec![0x63, 0x6f, 0x6d, 0x6d, 0x61, 0x6e, 0x64, 0x73];
    proof {
        assert(v@ =~= key_commands());
    }
    v
}

/// The wire bytes of the name `Pass`.
pub open spec fn key_pass() -> Seq<u8> {
    seq![0x50u8, 0x61u8, 0x73u8, 0x73u8]
}

fn kb_pass() -> (r: Vec<u8>)
    ensures
        r@ == key_pass(),
{
    let v: Vec<u8> = vec![0x50, 0x61, 0x73, 0x73];
    proof {
        assert(v@ =~= key_pass());
    }
    v
}

/// The wire bytes of the name `ConstructUnit`.
pub open spec fn key_construct_unit() -> Seq<u8> {
    seq![0x43u8, 0x6fu8, 0x6eu8, 0x73u8, 0x74u8, 0x72u8, 0x75u8, 0x63u8, 0x74u8, 0x55u8, 0x6eu8, 0x69u8, 0x74u8]
}

fn kb_construct_unit() -> (r: Vec<u8>)
    ensures
        r@ == key_construct_unit(),
{
    let v: Vec<u8> = vec![0x43, 0x6f, 0x6e, 0x73, 0x74, 0x72, 0x75, 0x63, 0x74, 0x55, 0x6e, 0x69, 0x74];
    proof {
        assert(v@ =~= key_construct_unit());
    }
    v
}

/// The wire bytes of the name `None`.
pub open spec fn key_none() -> Seq<u8> {
    seq![0x4eu8, 0x6fu8, 0x6eu8, 0x65u8]
}

fn kb_none() -> (r: Vec<u8>)
    ensures
        r@ == key_none(),
{
    let v: Vec<u8> = vec![0x4e, 0x6f, 0x6e, 0x65];
    proof {
        assert(v@ =~= key_none());
    }
    v
}

/// The wire bytes of the name `Mine`.
pub open spec fn key_mine() -> Seq<u8> {
    seq![0x4du8, 0x69u8, 0x6eu8, 0x65u8]
}

fn kb_mine() -> (r: Vec<u8>)
    ensures
        r@ == key_mine(),
{
    let v: Vec<u8> = vec![0x4d, 0x69, 0x6e, 0x65];
    proof {
        assert(v@ =~= key_mine());
    }
    v
}

/// The wire bytes of the name `Wasmium`.
pub open spec fn key_wasmium() -> Seq<u8> {
    seq![0x57u8, 0x61u8, 0x73u8, 0x6du8, 0x69u8, 0x75u8, 0x6du8]
}

fn kb_wasmium() -> (r: Vec<u8>)
    ensures
        r@ == key_wasmium(),
{
    let v: Vec<u8> = vec![0x57, 0x61, 0x73, 0x6d, 0x69, 0x75, 0x6d];
    proof {
        assert(v@ =~= key_wasmium());
    }
    v
}

/// The wire bytes of the name `Actor`.
pub open spec fn key_actor() -> Seq<u8> {
    seq![0x41u8, 0x63u8, 0x74u8, 0x6fu8, 0x72u8]
}

fn kb_actor() -> (r: Vec<u8>)
    ensures
        r@ == key_actor(),
{
    let v: Vec<u8> = vec![0x41, 0x63, 0x74, 0x6f, 0x72];
    proof {
        assert(v@ =~= key_actor());
    }
    v
}

/// The wire bytes of the name `Capability`.
pub open spec fn key_capability() -> Seq<u8> {
    seq![0x43u8, 0x61u8, 0x70u8, 0x61u8, 0x62u8, 0x69u8, 0x6cu8, 0x69u8, 0x74u8, 0x79u8]
}

fn kb_capability() -> (r: Vec<u8>)
    ensures
        r@ == key_capability(),
{
    let v: Vec<u8> = vec![0x43, 0x61, 0x70, 0x61, 0x62, 0x69, 0x6c, 0x69, 0x74, 0x79];
    proof {
        assert(v@ =~= key_capability());
    }
    v
}

/// The wire bytes of the name `id`.
pub open spec fn key_id() -> Seq<u8> {
    seq![0x69u8, 0x64u8]
}

fn kb_id() -> (r: Vec<u8>)
    ensures
        r@ == key_id(),
{
    let v: Vec<u8> = vec![0x69, 0x64];
    proof {
        assert(v@ =~= key_id());
    }
    v
}

/// The wire bytes of the name `contract_id`.
pub open spec fn key_contract_id() -> Seq<u8> {
    seq![0x63u8, 0x6fu8, 0x6eu8, 0x74u8, 0x72u8, 0x61u8, 0x63u8, 0x74u8, 0x5fu8, 0x69u8, 0x64u8]
}

fn kb_contract_id() -> (r: Vec<u8>)
    ensures
        r@ == key_contract_id(),
{
    let v: Vec<u8> = vec![0x63, 0x6f, 0x6e, 0x74, 0x72, 0x61, 0x63, 0x74, 0x5f, 0x69, 0x64];
    proof {
        assert(v@ =~= key_contract_id());
    }
    v
}

/// The wire bytes of the name `link_name`.
pub open spec fn key_link_name() -> Seq<u8> {
    seq![0x6cu8, 0x69u8, 0x6eu8, 0x6bu8, 0x5fu8, 0x6eu8, 0x61u8, 0x6du8, 0x65u8]
}

fn kb_link_name() -> (r: Vec<u8>)
    ensures
        r@ == key_link_name(),
{
    let v: Vec<u8> = vec![0x6c, 0x69, 0x6e, 0x6b, 0x5f, 0x6e, 0x61, 0x6d, 0x65];
    proof {
        assert(v@ =~= key_link_name());
    }
    v
}

/// The wire bytes of the name `origin`.
pub open spec fn key_origin() -> Seq<u8> {
    seq![0x6fu8, 0x72u8, 0x69u8, 0x67u8, 0x69u8, 0x6eu8]
}

fn kb_origin() -> (r: Vec<u8>)
    ensures
        r@ == key_origin(),
{
    let v: Vec<u8> = vec![0x6f, 0x72, 0x69, 0x67, 0x69, 0x6e];
    proof {
        assert(v@ =~= key_origin());
    }
    v
}

/// The wire bytes of the name `target`.
pub open spec fn key_target() -> Seq<u8> {
    seq![0x74u8, 0x61u8, 0x72u8, 0x67u8, 0x65u8, 0x74u8]
}

fn kb_target() -> (r: Vec<u8>)
    ensures
        r@ == key_target(),
{
    let v: Vec<u8> = vec![0x74, 0x61, 0x72, 0x67, 0x65, 0x74];
    proof {
        assert(v@ =~= key_target());
    }
    v
}

/// The wire bytes of the name `operation`.
pub open spec fn key_operation() -> Seq<u8> {
    seq![0x6fu8, 0x70u8, 0x65u8, 0x72u8, 0x61u8, 0x74u8, 0x69u8, 0x6fu8, 0x6eu8]
}

fn kb_operation() -> (r: Vec<u8>)
    ensures
        r@ == key_operation(),
{
    let v: Vec<u8> = vec![0x6f, 0x70, 0x65, 0x72, 0x61, 0x74, 0x69, 0x6f, 0x6e];
    proof {
        assert(v@ =~= key_operation());
    }
    v
}

/// The wire bytes of the name `msg`.
pub open spec fn key_msg() -> Seq<u8> {
    seq![0x6du8, 0x73u8, 0x67u8]
}

fn kb_msg() -> (r: Vec<u8>)
    ensures
        r@ == key_msg(),
{
    let v: Vec<u8> = vec![0x6d, 0x73, 0x67];
    proof {
        assert(v@ =~= key_msg());
    }
    v
}

/// The wire bytes of the name `encoded_claims`.
pub open spec fn key_encoded_claims() -> Seq<u8> {
    seq![0x65u8, 0x6eu8, 0x63u8, 0x6fu8, 0x64u8, 0x65u8, 0x64u8, 0x5fu8, 0x63u8, 0x6cu8, 0x61u8, 0x69u8, 0x6du8, 0x73u8]
}

fn kb_encoded_claims() -> (r: Vec<u8>)
    ensures
        r@ == key_encoded_claims(),
{
    let v: Vec<u8> = vec![0x65, 0x6e, 0x63, 0x6f, 0x64, 0x65, 0x64, 0x5f, 0x63, 0x6c, 0x61, 0x69, 0x6d, 0x73];
    proof {
        assert(v@ =~= key_encoded_claims());
    }
    v
}

/// The wire bytes of the name `host_id`.
pub open spec fn key_host_id() -> Seq<u8> {
    seq![0x68u8, 0x6fu8, 0x73u8, 0x74u8, 0x5fu8, 0x69u8, 0x64u8]
}

fn kb_host_id() -> (r: Vec<u8>)
    ensures
        r@ == key_host_id(),
{
    let v: Vec<u8> = vec![0x68, 0x6f, 0x73, 0x74, 0x5f, 0x69, 0x64];
    proof {
        assert(v@ =~= key_host_id());
    }
    v
}

/// The wire bytes of the name `error`.
pub open spec fn key_error() -> Seq<u8> {
    seq![0x65u8, 0x72u8, 0x72u8, 0x6fu8, 0x72u8]
}

fn kb_error() -> (r: Vec<u8>)
    ensures
        r@ == key_error(),
{
    let v: Vec<u8> = vec![0x65, 0x72, 0x72, 0x6f, 0x72];
    proof {
        assert(v@ =~= key_error());
    }
    v
}

/// The wire bytes of the name `invocation_id`.
pub open spec fn key_invocation_id() -> Seq<u8> {
    seq![0x69u8, 0x6eu8, 0x76u8, 0x6fu8, 0x63u8, 0x61u8, 0x74u8, 0x69u8, 0x6fu8, 0x6eu8, 0x5fu8, 0x69u8, 0x64u8]
}

fn kb_invocation_id() -> (r: Vec<u8>)
    ensures
        r@ == key_invocation_id(),
{
    let v: Vec<u8> = vec![0x69, 0x6e, 0x76, 0x6f, 0x63, 0x61, 0x74, 0x69, 0x6f, 0x6e, 0x5f, 0x69, 0x64];
    proof {
        assert(v@ =~= key_invocation_id());
    }
    v
}


/// Byte-sequence equality, decided element by element.
pub fn bytes_eq(a: &[u8], b: &[u8]) -> (r: bool)
    ensures
        r == (a@ == b@),
{
    if a.len() != b.len() {
        proof {
            assert(a@.len() != b@.len());
        }
        return false;
    }
    let n: usize = a.len();
    let mut i: usize = 0;
    while i < n
        invariant
            i <= n,
            n == a@.len(),
            n == b@.len(),
            forall|k: int| 0 <= k < i ==> a@[k] == b@[k],
        decreases n - i,
    {
        if a[i] != b[i] {
            proof {
                assert(a@[i as int] != b@[i as int]);
            }
            return false;
        }
        i = i + 1;
    }
    proof {
        assert(a@ =~= b@);
    }
    true
}

// ---------------------------------------------------------------------------
// OreType
// ---------------------------------------------------------------------------
/// Encoding of an [`OreType`]: the variant name as a string.
pub open spec fn enc_oretype(o: OreType) -> Seq<u8> {
    enc_str(key_wasmium())
}

/// Parse an [`OreType`] at `i`.
pub open spec fn parse_oretype(s: Seq<u8>, i: int) -> Option<(OreType, int)> {
    match parse_rawstr(s, i) {
        Some((k, j)) => if k == key_wasmium() {
            Some((OreType::Wasmium, j))
        } else {
            None
        },
        None => None,
    }
}

/// Parsing an encoded [`OreType`] yields the value back.
pub proof fn lemma_parse_enc_oretype(s: Seq<u8>, i: int, o: OreType)
    requires
        0 <= i,
        i + enc_oretype(o).len() <= s.len(),
        s.subrange(i, i + enc_oretype(o).len() as int) == enc_oretype(o),
    ensures
        parse_oretype(s, i) == Some((o, i + enc_oretype(o).len() as int)),
{
    lemma_parse_enc_rawstr(s, i, key_wasmium());
}

/// Append the encoding of `o` to `out`.
pub fn emit_oretype(out: &mut Vec<u8>, o: &OreType)
    ensures
        final(out)@ == old(out)@ + enc_oretype(*o),
{
    let k: Vec<u8> = kb_wasmium();
    emit_str_bytes(out, k.as_slice());
}

/// Read an [`OreType`] at position `i` of `s`.
pub fn read_oretype(s: &[u8], i: usize) -> (r: Option<(OreType, usize)>)
    ensures
        match r {
            Some((o, j)) => parse_oretype(s@, i as int) == Some((o, j as int)),
            None => parse_oretype(s@, i as int) is None,
        },
{
    match read_rawstr(s, i) {
        Some((k, j)) => {
            let kw: Vec<u8> = kb_wasmium();
            if bytes_eq(k.as_slice(), kw.as_slice()) {
                Some((OreType::Wasmium, j))
            } else {
                None
            }
        },
        None => None,
    }
}

// ---------------------------------------------------------------------------
// UnitType
// ---------------------------------------------------------------------------
/// Encoding of a [`UnitType`]: the bare variant name for `Unknown` (written
/// as `None` on the wire), or a one-entry map from the variant name to the
/// ore for `Mine`.
pub open spec fn enc_unittype(u: UnitType) -> Seq<u8> {
    match u {
        UnitType::Unknown => enc_str(key_none()),
        UnitType::Mine(o) => enc_maphdr(1) + enc_str(key_mine()) + enc_oretype(o),
    }
}

/// Parse a [`UnitType`] at `i`.
pub open spec fn parse_unittype(s: Seq<u8>, i: int) -> Option<(UnitType, int)> {
    match parse_rawstr(s, i) {
        Some((k, j)) => if k == key_none() {
            Some((UnitType::Unknown, j))
        } else {
            None
        },
        None => match parse_maphdr(s, i) {
            Some((n, j)) => if n == 1 {
                match parse_rawstr(s, j) {
                    Some((k, j2)) => if k == key_mine() {
                        match parse_oretype(s, j2) {
                            Some((o, j3)) => Some((UnitType::Mine(o), j3)),
                            None => None,
                        }
                    } else {
                        None
                    },
                    None => None,
                }
            } else {
                None
            },
            None => None,
        },
    }
}

/// Parsing an encoded [`UnitType`] yields the value back.
pub proof fn lemma_parse_enc_unittype(s: Seq<u8>, i: int, u: UnitType)
    requires
        0 <= i,
        i + enc_unittype(u).len() <= s.len(),
        s.subrange(i, i + enc_unittype(u).len() as int) == enc_unittype(u),
    ensures
        parse_unittype(s, i) == Some((u, i + enc_unittype(u).len() as int)),
{
    match u {
        UnitType::Unknown => {
            lemma_parse_enc_rawstr(s, i, key_none());
        },
        UnitType::Mine(o) => {
            let h = enc_maphdr(1);
            let k = enc_str(key_mine());
            let p = enc_oretype(o);
            assert(enc_unittype(u) =~= h + (k + p));
            lemma_subrange_concat(s, i, h, k + p);
            lemma_subrange_concat(s, i + h.len() as int, k, p);
            lemma_parse_enc_maphdr(s, i, 1);
            lemma_parse_enc_rawstr(s, i + h.len() as int, key_mine());
            lemma_parse_enc_oretype(s, i + h.len() as int + k.len() as int, o);
            assert(s.subrange(i, i + h.len() as int)[0] == s[i]);
            assert(s[i] == 0x81);
            assert(parse_strhdr(s, i) is None);
        },
    }
}

/// Append the encoding of `u` to `out`.
pub fn emit_unittype(out: &mut Vec<u8>, u: &UnitType)
    ensures
        final(out)@ == old(out)@ + enc_unittype(*u),
{
    match u {
        UnitType::Unknown => {
            let k: Vec<u8> = kb_none();
            emit_str_bytes(out, k.as_slice());
        },
        UnitType::Mine(o) => {
            emit_maphdr(out, 1);
            let k: Vec<u8> = kb_mine();
            emit_str_bytes(out, k.as_slice());
            emit_oretype(out, o);
            proof {
                assert(out@ =~= old(out)@ + enc_unittype(*u));
            }
        },
    }
}

/// Read a [`UnitType`] at position `i` of `s`.
pub fn read_unittype(s: &[u8], i: usize) -> (r: Option<(UnitType, usize)>)
    ensures
        match r {
            Some((u, j)) => parse_unittype(s@, i as int) == Some((u, j as int)),
            None => parse_unittype(s@, i as int) is None,
        },
{
    match read_rawstr(s, i) {
        Some((k, j)) => {
            let kn: Vec<u8> = kb_none();
            if bytes_eq(k.as_slice(), kn.as_slice()) {
                Some((UnitType::Unknown, j))
            } else {
                None
            }
        },
        None => {
            match read_maphdr(s, i) {
                Some((n, j)) => {
                    if n == 1 {
                        match read_rawstr(s, j) {
                            Some((k, j2)) => {
                                let km: Vec<u8> = kb_mine();
                                if bytes_eq(k.as_slice(), km.as_slice()) {
                                    match read_oretype(s, j2) {
                                        Some((o, j3)) => Some((UnitType::Mine(o), j3)),
                                        None => None,
                                    }
                                } else {
                                    None
                                }
                            },
                            None => None,
                        }
                    } else {
                        None
                    }
                },
                None => None,
            }
        },
    }
}

// ---------------------------------------------------------------------------
// GameStateColonyView
// ---------------------------------------------------------------------------
/// Encoding of a [`GameStateColonyView`]: a map keyed by field names.
pub open spec fn enc_gsview(g: GameStateColonyView) -> Seq<u8> {
    enc_maphdr(1) + enc_str(key_placeholder()) + enc_u64(g.placeholder)
}

/// Fold over the entries of a view's struct map: known keys fill their
/// field, unknown keys are skipped.
pub open spec fn parse_gsview_fields(
    s: Seq<u8>,
    i: int,
    n: u64,
    placeholder: Option<u64>,
) -> Option<(GameStateColonyView, int)>
    decreases n,
{
    if n == 0 {
        match placeholder {
            Some(p) => Some((GameStateColonyView { placeholder: p }, i)),
            None => None,
        }
    } else {
        match parse_rawstr(s, i) {
            Some((k, j)) => if k == key_placeholder() {
                match parse_u64(s, j) {
                    Some((v, j2)) => parse_gsview_fields(s, j2, (n - 1) as u64, Some(v)),
                    None => None,
                }
            } else {
                match skip_value(s, j) {
                    Some(j2) => parse_gsview_fields(s, j2, (n - 1) as u64, placeholder),
                    None => None,
                }
            },
            None => None,
        }
    }
}

/// Parse a [`GameStateColonyView`] at `i`.
pub open spec fn parse_gsview(s: Seq<u8>, i: int) -> Option<(GameStateColonyView, int)> {
    match parse_maphdr(s, i) {
        Some((n, j)) => parse_gsview_fields(s, j, n, None),
        None => None,
    }
}

/// Parsing an encoded view yields the value back.
pub proof fn lemma_parse_enc_gsview(s: Seq<u8>, i: int, g: GameStateColonyView)
    requires
        0 <= i,
        i + enc_gsview(g).len() <= s.len(),
        s.subrange(i, i + enc_gsview(g).len() as int) == enc_gsview(g),
    ensures
        parse_gsview(s, i) == Some((g, i + enc_gsview(g).len() as int)),
{
    let h = enc_maphdr(1);
    let k = enc_str(key_placeholder());
    let p = enc_u64(g.placeholder);
    assert(enc_gsview(g) =~= h + (k + p));
    lemma_subrange_concat(s, i, h, k + p);
    lemma_subrange_concat(s, i + h.len() as int, k, p);
    lemma_parse_enc_maphdr(s, i, 1);
    lemma_parse_enc_rawstr(s, i + h.len() as int, key_placeholder());
    lemma_parse_enc_u64(s, i + h.len() as int + k.len() as int, g.placeholder);
    let end = i + enc_gsview(g).len() as int;
    assert(parse_gsview_fields(s, end, 0, Some(g.placeholder)) == Some((g, end)));
}

/// Append the encoding of `g` to `out`.
pub fn emit_gsview(out: &mut Vec<u8>, g: &GameStateColonyView)
    ensures
        final(out)@ == old(out)@ + enc_gsview(*g),
{
    emit_maphdr(out, 1);
    let k: Vec<u8> = kb_placeholder();
    emit_str_bytes(out, k.as_slice());
    emit_u64(out, g.placeholder);
    proof {
        assert(out@ =~= old(out)@ + enc_gsview(*g));
    }
}

/// Read a [`GameStateColonyView`] at position `i` of `s`.
pub fn read_gsview(s: &[u8], i: usize) -> (r: Option<(GameStateColonyView, usize)>)
    ensures
        match r {
            Some((g, j)) => parse_gsview(s@, i as int) == Some((g, j as int)),
            None => parse_gsview(s@, i as int) is None,
        },
{
    match read_maphdr(s, i) {
        Some((n, j0)) => {
            let mut j: usize = j0;
            let mut rem: u64 = n;
            let mut placeholder: Option<u64> = None;
            loop
                invariant
                    parse_maphdr(s@, i as int) == Some((n, j0 as int)),
                    parse_gsview_fields(s@, j0 as int, n, None) == parse_gsview_fields(
                        s@,
                        j as int,
                        rem,
                        placeholder,
                    ),
                decreases rem,
            {
                if rem == 0 {
                    match placeholder {
                        Some(p) => {
                            return Some((GameStateColonyView { placeholder: p }, j));
                        },
                        None => {
                            return None;
                        },
                    }
                }
                match read_rawstr(s, j) {
                    Some((k, j2)) => {
                        let kp: Vec<u8> = kb_placeholder();
                        if bytes_eq(k.as_slice(), kp.as_slice()) {
                            match read_u64(s, j2) {
                                Some((v, j3)) => {
                                    placeholder = Some(v);
                                    j = j3;
                                    rem = rem - 1;
                                },
                                None => {
                                    return None;
                                },
                            }
                        } else {
                            match skip_one(s, j2) {
                                Some(j3) => {
                                    j = j3;
                                    rem = rem - 1;
                                },
                                None => {
                                    return None;
                                },
                            }
                        }
                    },
                    None => {
                        return None;
                    },
                }
            }
        },
        None => None,
    }
}

// ---------------------------------------------------------------------------
// Optional view (nil or the view itself)
// ---------------------------------------------------------------------------
/// Encoding of an optional view: nil for `None`, the view for `Some`.
pub open spec fn enc_opt_gsview(o: Option<GameStateColonyView>) -> Seq<u8> {
    match o {
        Option::None => seq![0xc0u8],
        Option::Some(g) => enc_gsview(g),
    }
}

/// Parse an optional view at `i`.
pub open spec fn parse_opt_gsview(s: Seq<u8>, i: int) -> Option<
    (Option<GameStateColonyView>, int),
> {
    if 0 <= i < s.len() && s[i] == 0xc0 {
        Some((Option::None, i + 1))
    } else {
        match parse_gsview(s, i) {
            Some((g, j)) => Some((Option::Some(g), j)),
            None => None,
        }
    }
}

/// Parsing an encoded optional view yields the value back.
pub proof fn lemma_parse_enc_opt_gsview(s: Seq<u8>, i: int, o: Option<GameStateColonyView>)
    requires
        0 <= i,
        i + enc_opt_gsview(o).len() <= s.len(),
        s.subrange(i, i + enc_opt_gsview(o).len() as int) == enc_opt_gsview(o),
    ensures
        parse_opt_gsview(s, i) == Some((o, i + enc_opt_gsview(o).len() as int)),
{
    match o {
        Option::None => {
            assert(s.subrange(i, i + 1)[0] == s[i]);
        },
        Option::Some(g) => {
            assert(s.subrange(i, i + enc_opt_gsview(o).len() as int)[0] == s[i]);
            assert(s[i] == 0x81);
            lemma_parse_enc_gsview(s, i, g);
        },
    }
}

/// Append the encoding of the optional view `o` to `out`.
pub fn emit_opt_gsview(out: &mut Vec<u8>, o: &Option<GameStateColonyView>)
    ensures
        final(out)@ == old(out)@ + enc_opt_gsview(*o),
{
    match o {
        Option::None => {
            out.push(0xc0);
            proof {
                assert(out@ =~= old(out)@ + enc_opt_gsview(Option::None));
            }
        },
        Option::Some(g) => {
            emit_gsview(out, g);
        },
    }
}

/// Read an optional view at position `i` of `s`.
pub fn read_opt_gsview(s: &[u8], i: usize) -> (r: Option<(Option<GameStateColonyView>, usize)>)
    ensures
        match r {
            Some((o, j)) => parse_opt_gsview(s@, i as int) == Some((o, j as int)),
            None => parse_opt_gsview(s@, i as int) is None,
        },
{
    if i < s.len() && s[i] == 0xc0 {
        return Some((None, i + 1));
    }
    match read_gsview(s, i) {
        Some((g, j)) => Some((Some(g), j)),
        None => None,
    }
}

// ---------------------------------------------------------------------------
// ColonyCommand
// ---------------------------------------------------------------------------
/// Encoding of a [`ColonyCommand`]: a one-entry map from the variant name to
/// its payload; a tuple payload travels as a two-element array.
pub open spec fn enc_command(c: ColonyCommand) -> Seq<u8> {
    match c {
        ColonyCommand::Pass(t) => enc_maphdr(1) + enc_str(key_pass()) + enc_u64(t),
        ColonyCommand::ConstructUnit(t, u) => enc_maphdr(1) + enc_str(key_construct_unit())
            + enc_arrayhdr(2) + enc_u64(t) + enc_unittype(u),
    }
}

/// Parse a [`ColonyCommand`] at `i`.
pub open spec fn parse_command(s: Seq<u8>, i: int) -> Option<(ColonyCommand, int)> {
    match parse_maphdr(s, i) {
        Some((n, j)) => if n == 1 {
            match parse_rawstr(s, j) {
                Some((k, j2)) => if k == key_pass() {
                    match parse_u64(s, j2) {
                        Some((t, j3)) => Some((ColonyCommand::Pass(t), j3)),
                        None => None,
                    }
                } else if k == key_construct_unit() {
                    match parse_arrayhdr(s, j2) {
                        Some((m, j3)) => if m == 2 {
                            match parse_u64(s, j3) {
                                Some((t, j4)) => match parse_unittype(s, j4) {
                                    Some((u, j5)) => Some((ColonyCommand::ConstructUnit(t, u), j5)),
                                    None => None,
                                },
                                None => None,
                            }
                        } else {
                            None
                        },
                        None => None,
                    }
                } else {
                    None
                },
                None => None,
            }
        } else {
            None
        },
        None => None,
    }
}

/// Parsing an encoded command yields the command back.
pub proof fn lemma_parse_enc_command(s: Seq<u8>, i: int, c: ColonyCommand)
    requires
        0 <= i,
        i + enc_command(c).len() <= s.len(),
        s.subrange(i, i + enc_command(c).len() as int) == enc_command(c),
    ensures
        parse_command(s, i) == Some((c, i + enc_command(c).len() as int)),
{
    match c {
        ColonyCommand::Pass(t) => {
            let h = enc_maphdr(1);
            let k = enc_str(key_pass());
            let p = enc_u64(t);
            assert(enc_command(c) =~= h + (k + p));
            lemma_subrange_concat(s, i, h, k + p);
            lemma_subrange_concat(s, i + h.len() as int, k, p);
            lemma_parse_enc_maphdr(s, i, 1);
            lemma_parse_enc_rawstr(s, i + h.len() as int, key_pass());
            lemma_parse_enc_u64(s, i + h.len() as int + k.len() as int, t);
        },
        ColonyCommand::ConstructUnit(t, u) => {
            let h = enc_maphdr(1);
            let k = enc_str(key_construct_unit());
            let a = enc_arrayhdr(2);
            let p = enc_u64(t);
            let q = enc_unittype(u);
            let i1 = i + h.len() as int;
            let i2 = i1 + k.len() as int;
            let i3 = i2 + a.len() as int;
            let i4 = i3 + p.len() as int;
            assert(enc_command(c) =~= h + (k + (a + (p + q))));
            lemma_subrange_concat(s, i, h, k + (a + (p + q)));
            lemma_subrange_concat(s, i1, k, a + (p + q));
            lemma_subrange_concat(s, i2, a, p + q);
            lemma_subrange_concat(s, i3, p, q);
            lemma_parse_enc_maphdr(s, i, 1);
            lemma_parse_enc_rawstr(s, i1, key_construct_unit());
            lemma_parse_enc_arrayhdr(s, i2, 2);
            lemma_parse_enc_u64(s, i3, t);
            lemma_parse_enc_unittype(s, i4, u);
            assert(key_construct_unit() != key_pass()) by {
                assert(key_construct_unit().len() != key_pass().len());
            }
        },
    }
}

/// Append the encoding of `c` to `out`.
pub fn emit_command(out: &mut Vec<u8>, c: &ColonyCommand)
    ensures
        final(out)@ == old(out)@ + enc_command(*c),
{
    match c {
        ColonyCommand::Pass(t) => {
            emit_maphdr(out, 1);
            let k: Vec<u8> = kb_pass();
            emit_str_bytes(out, k.as_slice());
            emit_u64(out, *t);
            proof {
                assert(out@ =~= old(out)@ + enc_command(*c));
            }
        },
        ColonyCommand::ConstructUnit(t, u) => {
            emit_maphdr(out, 1);
            let k: Vec<u8> = kb_construct_unit();
            emit_str_bytes(out, k.as_slice());
            emit_arrayhdr(out, 2);
            emit_u64(out, *t);
            emit_unittype(out, u);
            proof {
                assert(out@ =~= old(out)@ + enc_command(*c));
            }
        },
    }
}

/// Read a [`ColonyCommand`] at position `i` of `s`.
pub fn read_command(s: &[u8], i: usize) -> (r: Option<(ColonyCommand, usize)>)
    ensures
        match r {
            Some((c, j)) => parse_command(s@, i as int) == Some((c, j as int)),
            None => parse_command(s@, i as int) is None,
        },
{
    match read_maphdr(s, i) {
        Some((n, j)) => {
            if n != 1 {
                return None;
            }
            match read_rawstr(s, j) {
                Some((k, j2)) => {
                    let kp: Vec<u8> = kb_pass();
                    let kc: Vec<u8> = kb_construct_unit();
                    if bytes_eq(k.as_slice(), kp.as_slice()) {
                        match read_u64(s, j2) {
                            Some((t, j3)) => Some((ColonyCommand::Pass(t), j3)),
                            None => None,
                        }
                    } else if bytes_eq(k.as_slice(), kc.as_slice()) {
                        match read_arrayhdr(s, j2) {
                            Some((m, j3)) => {
                                if m != 2 {
                                    return None;
                                }
                                match read_u64(s, j3) {
                                    Some((t, j4)) => {
                                        match read_unittype(s, j4) {
                                            Some((u, j5)) => Some(
                                                (ColonyCommand::ConstructUnit(t, u), j5),
                                            ),
                                            None => None,
                                        }
                                    },
                                    None => None,
                                }
                            },
                            None => None,
                        }
                    } else {
                        None
                    }
                },
                None => None,
            }
        },
        None => None,
    }
}

// ---------------------------------------------------------------------------
// Command sequences
// ---------------------------------------------------------------------------
/// Element-wise encoding of a command sequence.
pub open spec fn enc_command_elems(cs: Seq<ColonyCommand>) -> Seq<u8>
    decreases cs.len(),
{
    if cs.len() == 0 {
        Seq::empty()
    } else {
        enc_command(cs[0]) + enc_command_elems(cs.drop_first())
    }
}

/// Encoding of a command sequence: an array of encoded commands.
pub open spec fn enc_commands(cs: Seq<ColonyCommand>) -> Seq<u8> {
    enc_arrayhdr(cs.len() as u64) + enc_command_elems(cs)
}

/// Parse `n` consecutive commands.
pub open spec fn parse_command_elems(s: Seq<u8>, i: int, n: u64) -> Option<
    (Seq<ColonyCommand>, int),
>
    decreases n,
{
    if n == 0 {
        Some((Seq::empty(), i))
    } else {
        match parse_command(s, i) {
            Some((c, j)) => match parse_command_elems(s, j, (n - 1) as u64) {
                Some((rest, end)) => Some((seq![c] + rest, end)),
                None => None,
            },
            None => None,
        }
    }
}

/// Parse a command array at `i`.
pub open spec fn parse_commands(s: Seq<u8>, i: int) -> Option<(Seq<ColonyCommand>, int)> {
    match parse_arrayhdr(s, i) {
        Some((n, j)) => parse_command_elems(s, j, n),
        None => None,
    }
}

/// Parsing the element-wise encoding of a command sequence yields it back.
pub proof fn lemma_parse_enc_command_elems(s: Seq<u8>, i: int, cs: Seq<ColonyCommand>)
    requires
        0 <= i,
        cs.len() <= 0xffffffff,
        i + enc_command_elems(cs).len() <= s.len(),
        s.subrange(i, i + enc_command_elems(cs).len() as int) == enc_command_elems(cs),
    ensures
        parse_command_elems(s, i, cs.len() as u64) == Some(
            (cs, i + enc_command_elems(cs).len() as int),
        ),
    decreases cs.len(),
{
    if cs.len() == 0 {
    } else {
        let e0 = enc_command(cs[0]);
        let erest = enc_command_elems(cs.drop_first());
        lemma_subrange_concat(s, i, e0, erest);
        lemma_parse_enc_command(s, i, cs[0]);
        lemma_parse_enc_command_elems(s, i + e0.len() as int, cs.drop_first());
        assert(seq![cs[0]] + cs.drop_first() =~= cs);
    }
}

/// Parsing an encoded command array yields the sequence back.
pub proof fn lemma_parse_enc_commands(s: Seq<u8>, i: int, cs: Seq<ColonyCommand>)
    requires
        0 <= i,
        cs.len() <= 0xffffffff,
        i + enc_commands(cs).len() <= s.len(),
        s.subrange(i, i + enc_commands(cs).len() as int) == enc_commands(cs),
    ensures
        parse_commands(s, i) == Some((cs, i + enc_commands(cs).len() as int)),
{
    let h = enc_arrayhdr(cs.len() as u64);
    lemma_subrange_concat(s, i, h, enc_command_elems(cs));
    lemma_parse_enc_arrayhdr(s, i, cs.len() as u64);
    lemma_parse_enc_command_elems(s, i + h.len() as int, cs);
}

/// Appending one more command extends the element-wise encoding at the end.
proof fn lemma_enc_command_elems_snoc(cs: Seq<ColonyCommand>, c: ColonyCommand)
    ensures
        enc_command_elems(cs.push(c)) == enc_command_elems(cs) + enc_command(c),
    decreases cs.len(),
{
    if cs.len() == 0 {
        assert(cs.push(c).drop_first() =~= Seq::<ColonyCommand>::empty());
        assert(enc_command_elems(cs.push(c)) =~= enc_command_elems(cs) + enc_command(c));
    } else {
        lemma_enc_command_elems_snoc(cs.drop_first(), c);
        assert(cs.push(c).drop_first() =~= cs.drop_first().push(c));
        assert(enc_command_elems(cs.push(c)) =~= enc_command_elems(cs) + enc_command(c));
    }
}

/// Append the encoding of the command sequence `cs` to `out`.
pub fn emit_commands(out: &mut Vec<u8>, cs: &Vec<ColonyCommand>)
    ensures
        final(out)@ == old(out)@ + enc_commands(cs@),
{
    let n: usize = cs.len();
    emit_arrayhdr(out, n as u64);
    let mut k: usize = 0;
    proof {
        assert(cs@.take(0) =~= Seq::<ColonyCommand>::empty());
        assert(out@ =~= old(out)@ + enc_arrayhdr(n as u64) + enc_command_elems(cs@.take(0)));
    }
    while k < n
        invariant
            k <= n,
            n == cs@.len(),
            out@ == old(out)@ + enc_arrayhdr(n as u64) + enc_command_elems(cs@.take(k as int)),
        decreases n - k,
    {
        emit_command(out, &cs[k]);
        proof {
            lemma_enc_command_elems_snoc(cs@.take(k as int), cs@[k as int]);
            assert(cs@.take(k as int).push(cs@[k as int]) =~= cs@.take(k as int + 1));
            assert(out@ =~= old(out)@ + enc_arrayhdr(n as u64) + enc_command_elems(
                cs@.take(k as int + 1),
            ));
        }
        k = k + 1;
    }
    proof {
        assert(cs@.take(n as int) =~= cs@);
        assert(out@ =~= old(out)@ + enc_commands(cs@));
    }
}

/// Read a command array at position `i` of `s`.
pub fn read_commands(s: &[u8], i: usize) -> (r: Option<(Vec<ColonyCommand>, usize)>)
    ensures
        match r {
            Some((cs, j)) => parse_commands(s@, i as int) == Some((cs@, j as int)),
            None => parse_commands(s@, i as int) is None,
        },
{
    match read_arrayhdr(s, i) {
        Some((n, j0)) => {
            let mut acc: Vec<ColonyCommand> = Vec::new();
            let mut j: usize = j0;
            let mut rem: u64 = n;
            loop
                invariant
                    parse_arrayhdr(s@, i as int) == Some((n, j0 as int)),
                    match parse_command_elems(s@, j as int, rem) {
                        Some((rest, end)) => parse_command_elems(s@, j0 as int, n) == Some(
                            (acc@ + rest, end),
                        ),
                        None => parse_command_elems(s@, j0 as int, n) is None,
                    },
                decreases rem,
            {
                if rem == 0 {
                    proof {
                        assert(parse_command_elems(s@, j as int, 0) == Some(
                            (Seq::<ColonyCommand>::empty(), j as int),
                        ));
                        assert(acc@ + Seq::<ColonyCommand>::empty() =~= acc@);
                    }
                    return Some((acc, j));
                }
                match read_command(s, j) {
                    Some((c, j2)) => {
                        proof {
                            let rest2 = parse_command_elems(s@, j2 as int, (rem - 1) as u64);
                            if rest2 is Some {
                                assert(acc@ + (seq![c] + rest2.unwrap().0) =~= acc@.push(c)
                                    + rest2.unwrap().0);
                            }
                        }
                        acc.push(c);
                        j = j2;
                        rem = rem - 1;
                    },
                    None => {
                        return None;
                    },
                }
            }
        },
        None => None,
    }
}

// ---------------------------------------------------------------------------
// PlayerTick
// ---------------------------------------------------------------------------
/// A [`PlayerTickModel`] the wire can carry: its string bytes are UTF-8 and
/// within the length the headers can announce.
pub open spec fn wf_player_tick(m: PlayerTickModel) -> bool {
    valid_utf8(m.player_id) && m.player_id.len() <= 0xffffffff
}

/// Encoding of a tick request: a map keyed by field names.
pub open spec fn enc_player_tick(m: PlayerTickModel) -> Seq<u8> {
    enc_maphdr(3) + enc_str(key_tick()) + enc_u64(m.tick) + enc_str(key_player_id()) + enc_str(
        m.player_id,
    ) + enc_str(key_game_state()) + enc_opt_gsview(m.game_state)
}

/// Fold over the entries of a tick request's struct map.
pub open spec fn parse_player_tick_fields(
    s: Seq<u8>,
    i: int,
    n: u64,
    tick: Option<u64>,
    pid: Option<Seq<u8>>,
    gs: Option<Option<GameStateColonyView>>,
) -> Option<(PlayerTickModel, int)>
    decreases n,
{
    if n == 0 {
        match (tick, pid, gs) {
            (Some(t), Some(p), Some(g)) => Some(
                (PlayerTickModel { tick: t, player_id: p, game_state: g }, i),
            ),
            _ => None,
        }
    } else {
        match parse_rawstr(s, i) {
            Some((k, j)) => if k == key_tick() {
                match parse_u64(s, j) {
                    Some((v, j2)) => parse_player_tick_fields(s, j2, (n - 1) as u64, Some(v), pid, gs),
                    None => None,
                }
            } else if k == key_player_id() {
                match parse_str(s, j) {
                    Some((b, j2)) => parse_player_tick_fields(s, j2, (n - 1) as u64, tick, Some(b), gs),
                    None => None,
                }
            } else if k == key_game_state() {
                match parse_opt_gsview(s, j) {
                    Some((g, j2)) => parse_player_tick_fields(
                        s,
                        j2,
                        (n - 1) as u64,
                        tick,
                        pid,
                        Some(g),
                    ),
                    None => None,
                }
            } else {
                match skip_value(s, j) {
                    Some(j2) => parse_player_tick_fields(s, j2, (n - 1) as u64, tick, pid, gs),
                    None => None,
                }
            },
            None => None,
        }
    }
}

/// Parse a tick request at `i`.
pub open spec fn parse_player_tick(s: Seq<u8>, i: int) -> Option<(PlayerTickModel, int)> {
    match parse_maphdr(s, i) {
        Some((n, j)) => parse_player_tick_fields(s, j, n, None, None, None),
        None => None,
    }
}

/// Round trip for tick requests: parsing an encoding yields the model back.
pub proof fn lemma_parse_enc_player_tick(s: Seq<u8>, i: int, m: PlayerTickModel)
    requires
        0 <= i,
        wf_player_tick(m),
        i + enc_player_tick(m).len() <= s.len(),
        s.subrange(i, i + enc_player_tick(m).len() as int) == enc_player_tick(m),
    ensures
        parse_player_tick(s, i) == Some((m, i + enc_player_tick(m).len() as int)),
{
    let h = enc_maphdr(3);
    let k1 = enc_str(key_tick());
    let v1 = enc_u64(m.tick);
    let k2 = enc_str(key_player_id());
    let v2 = enc_str(m.player_id);
    let k3 = enc_str(key_game_state());
    let v3 = enc_opt_gsview(m.game_state);
    let i1 = i + h.len() as int;
    let i2 = i1 + k1.len() as int;
    let i3 = i2 + v1.len() as int;
    let i4 = i3 + k2.len() as int;
    let i5 = i4 + v2.len() as int;
    let i6 = i5 + k3.len() as int;
    let end = i6 + v3.len() as int;
    assert(enc_player_tick(m) =~= h + (k1 + (v1 + (k2 + (v2 + (k3 + v3))))));
    lemma_subrange_concat(s, i, h, k1 + (v1 + (k2 + (v2 + (k3 + v3)))));
    lemma_subrange_concat(s, i1, k1, v1 + (k2 + (v2 + (k3 + v3))));
    lemma_subrange_concat(s, i2, v1, k2 + (v2 + (k3 + v3)));
    lemma_subrange_concat(s, i3, k2, v2 + (k3 + v3));
    lemma_subrange_concat(s, i4, v2, k3 + v3);
    lemma_subrange_concat(s, i5, k3, v3);
    lemma_parse_enc_maphdr(s, i, 3);
    lemma_parse_enc_rawstr(s, i1, key_tick());
    lemma_parse_enc_u64(s, i2, m.tick);
    lemma_parse_enc_rawstr(s, i3, key_player_id());
    lemma_parse_enc_str(s, i4, m.player_id);
    lemma_parse_enc_rawstr(s, i5, key_game_state());
    lemma_parse_enc_opt_gsview(s, i6, m.game_state);
    assert(key_player_id() != key_tick()) by {
        assert(key_player_id().len() != key_tick().len());
    }
    assert(key_game_state() != key_tick()) by {
        assert(key_game_state().len() != key_tick().len());
    }
    assert(key_game_state() != key_player_id()) by {
        assert(key_game_state().len() != key_player_id().len());
    }
    assert(parse_player_tick_fields(s, end, 0, Some(m.tick), Some(m.player_id), Some(m.game_state))
        == Some((m, end)));
    assert(parse_player_tick_fields(s, i5, 1, Some(m.tick), Some(m.player_id), None) == Some(
        (m, end),
    ));
    assert(parse_player_tick_fields(s, i3, 2, Some(m.tick), None, None) == Some((m, end)));
    assert(parse_player_tick_fields(s, i1, 3, None, None, None) == Some((m, end)));
}

/// Read a tick request at position `i` of `s`.
pub fn read_player_tick(s: &[u8], i: usize) -> (r: Option<(PlayerTick, usize)>)
    ensures
        match r {
            Some((m, j)) => parse_player_tick(s@, i as int) == Some((m@, j as int)),
            None => parse_player_tick(s@, i as int) is None,
        },
{
    match read_maphdr(s, i) {
        Some((n, j0)) => {
            let mut j: usize = j0;
            let mut rem: u64 = n;
            let mut tick: Option<u64> = None;
            let mut pid: Option<String> = None;
            let mut gs: Option<Option<GameStateColonyView>> = None;
            loop
                invariant
                    parse_maphdr(s@, i as int) == Some((n, j0 as int)),
                    parse_player_tick_fields(s@, j0 as int, n, None, None, None)
                        == parse_player_tick_fields(
                        s@,
                        j as int,
                        rem,
                        tick,
                        match pid {
                            Some(st) => Some(encode_utf8(st@)),
                            None => None,
                        },
                        gs,
                    ),
                decreases rem,
            {
                if rem == 0 {
                    match (tick, pid, gs) {
                        (Some(t), Some(p), Some(g)) => {
                            let m = PlayerTick { tick: t, player_id: p, game_state: g };
                            return Some((m, j));
                        },
                        _ => {
                            return None;
                        },
                    }
                }
                match read_rawstr(s, j) {
                    Some((k, j2)) => {
                        let kt: Vec<u8> = kb_tick();
                        let kp: Vec<u8> = kb_player_id();
                        let kg: Vec<u8> = kb_game_state();
                        if bytes_eq(k.as_slice(), kt.as_slice()) {
                            match read_u64(s, j2) {
                                Some((v, j3)) => {
                                    tick = Some(v);
                                    j = j3;
                                    rem = rem - 1;
                                },
                                None => {
                                    return None;
                                },
                            }
                        } else if bytes_eq(k.as_slice(), kp.as_slice()) {
                            match read_string(s, j2) {
                                Some((st, j3)) => {
                                    pid = Some(st);
                                    j = j3;
                                    rem = rem - 1;
                                },
                                None => {
                                    return None;
                                },
                            }
                        } else if bytes_eq(k.as_slice(), kg.as_slice()) {
                            match read_opt_gsview(s, j2) {
                                Some((g, j3)) => {
                                    gs = Some(g);
                                    j = j3;
                                    rem = rem - 1;
                                },
                                None => {
                                    return None;
                                },
                            }
                        } else {
                            match skip_one(s, j2) {
                                Some(j3) => {
                                    j = j3;
                                    rem = rem - 1;
                                },
                                None => {
                                    return None;
                                },
                            }
                        }
                    },
                    None => {
                        return None;
                    },
                }
            }
        },
        None => None,
    }
}

// ---------------------------------------------------------------------------
// PlayerTickResponse
// ---------------------------------------------------------------------------
/// A command sequence the wire can carry.
pub open spec fn wf_commands(cs: Seq<ColonyCommand>) -> bool {
    cs.len() <= 0xffffffff
}

/// Encoding of a tick response: a map with the single field `commands`.
pub open spec fn enc_pt_response(cs: Seq<ColonyCommand>) -> Seq<u8> {
    enc_maphdr(1) + enc_str(key_commands()) + enc_commands(cs)
}

/// Fold over the entries of a tick response's struct map.
pub open spec fn parse_pt_response_fields(
    s: Seq<u8>,
    i: int,
    n: u64,
    commands: Option<Seq<ColonyCommand>>,
) -> Option<(Seq<ColonyCommand>, int)>
    decreases n,
{
    if n == 0 {
        match commands {
            Some(cs) => Some((cs, i)),
            None => None,
        }
    } else {
        match parse_rawstr(s, i) {
            Some((k, j)) => if k == key_commands() {
                match parse_commands(s, j) {
                    Some((cs, j2)) => parse_pt_response_fields(s, j2, (n - 1) as u64, Some(cs)),
                    None => None,
                }
            } else {
                match skip_value(s, j) {
                    Some(j2) => parse_pt_response_fields(s, j2, (n - 1) as u64, commands),
                    None => None,
                }
            },
            None => None,
        }
    }
}

/// Parse a tick response at `i`.
pub open spec fn parse_pt_response(s: Seq<u8>, i: int) -> Option<(Seq<ColonyCommand>, int)> {
    match parse_maphdr(s, i) {
        Some((n, j)) => parse_pt_response_fields(s, j, n, None),
        None => None,
    }
}

/// Round trip for tick responses.
pub proof fn lemma_parse_enc_pt_response(s: Seq<u8>, i: int, cs: Seq<ColonyCommand>)
    requires
        0 <= i,
        wf_commands(cs),
        i + enc_pt_response(cs).len() <= s.len(),
        s.subrange(i, i + enc_pt_response(cs).len() as int) == enc_pt_response(cs),
    ensures
        parse_pt_response(s, i) == Some((cs, i + enc_pt_response(cs).len() as int)),
{
    let h = enc_maphdr(1);
    let k = enc_str(key_commands());
    let v = enc_commands(cs);
    let i1 = i + h.len() as int;
    let i2 = i1 + k.len() as int;
    let end = i2 + v.len() as int;
    assert(enc_pt_response(cs) =~= h + (k + v));
    lemma_subrange_concat(s, i, h, k + v);
    lemma_subrange_concat(s, i1, k, v);
    lemma_parse_enc_maphdr(s, i, 1);
    lemma_parse_enc_rawstr(s, i1, key_commands());
    lemma_parse_enc_commands(s, i2, cs);
    assert(parse_pt_response_fields(s, end, 0, Some(cs)) == Some((cs, end)));
    assert(parse_pt_response_fields(s, i1, 1, None) == Some((cs, end)));
}

/// Read a tick response at position `i` of `s`.
pub fn read_pt_response(s: &[u8], i: usize) -> (r: Option<(PlayerTickResponse, usize)>)
    ensures
        match r {
            Some((m, j)) => parse_pt_response(s@, i as int) == Some((m@, j as int)),
            None => parse_pt_response(s@, i as int) is None,
        },
{
    match read_maphdr(s, i) {
        Some((n, j0)) => {
            let mut j: usize = j0;
            let mut rem: u64 = n;
            let mut commands: Option<Vec<ColonyCommand>> = None;
            loop
                invariant
                    parse_maphdr(s@, i as int) == Some((n, j0 as int)),
                    parse_pt_response_fields(s@, j0 as int, n, None) == parse_pt_response_fields(
                        s@,
                        j as int,
                        rem,
                        match commands {
                            Some(ref cs) => Some(cs@),
                            None => None,
                        },
                    ),
                decreases rem,
            {
                if rem == 0 {
                    match commands {
                        Some(cs) => {
                            return Some((PlayerTickResponse { commands: cs }, j));
                        },
                        None => {
                            return None;
                        },
                    }
                }
                match read_rawstr(s, j) {
                    Some((k, j2)) => {
                        let kc: Vec<u8> = kb_commands();
                        if bytes_eq(k.as_slice(), kc.as_slice()) {
                            match read_commands(s, j2) {
                                Some((cs, j3)) => {
                                    commands = Some(cs);
                                    j = j3;
                                    rem = rem - 1;
                                },
                                None => {
                                    return None;
                                },
                            }
                        } else {
                            match skip_one(s, j2) {
                                Some(j3) => {
                                    j = j3;
                                    rem = rem - 1;
                                },
                                None => {
                                    return None;
                                },
                            }
                        }
                    },
                    None => {
                        return None;
                    },
                }
            }
        },
        None => None,
    }
}

// ---------------------------------------------------------------------------
// Entity
// ---------------------------------------------------------------------------
/// An [`EntityModel`] the wire can carry.
pub open spec fn wf_entity(e: EntityModel) -> bool {
    match e {
        EntityModel::Actor(k) => valid_utf8(k) && k.len() <= 0xffffffff,
        EntityModel::Capability { id, contract_id, link_name } => valid_utf8(id) && id.len()
            <= 0xffffffff && valid_utf8(contract_id) && contract_id.len() <= 0xffffffff
            && valid_utf8(link_name) && link_name.len() <= 0xffffffff,
    }
}

/// Encoding of an [`Entity`]: a one-entry map from the variant name to the
/// key string (actor) or to a struct map (capability).
pub open spec fn enc_entity(e: EntityModel) -> Seq<u8> {
    match e {
        EntityModel::Actor(k) => enc_maphdr(1) + enc_str(key_actor()) + enc_str(k),
        EntityModel::Capability { id, contract_id, link_name } => enc_maphdr(1) + enc_str(
            key_capability(),
        ) + enc_maphdr(3) + enc_str(key_id()) + enc_str(id) + enc_str(key_contract_id()) + enc_str(
            contract_id,
        ) + enc_str(key_link_name()) + enc_str(link_name),
    }
}

/// Fold over the entries of a capability's struct map.
pub open spec fn parse_capability_fields(
    s: Seq<u8>,
    i: int,
    n: u64,
    id: Option<Seq<u8>>,
    contract_id: Option<Seq<u8>>,
    link_name: Option<Seq<u8>>,
) -> Option<(EntityModel, int)>
    decreases n,
{
    if n == 0 {
        match (id, contract_id, link_name) {
            (Some(a), Some(c), Some(l)) => Some(
                (EntityModel::Capability { id: a, contract_id: c, link_name: l }, i),
            ),
            _ => None,
        }
    } else {
        match parse_rawstr(s, i) {
            Some((k, j)) => if k == key_id() {
                match parse_str(s, j) {
                    Some((b, j2)) => parse_capability_fields(
                        s,
                        j2,
                        (n - 1) as u64,
                        Some(b),
                        contract_id,
                        link_name,
                    ),
                    None => None,
                }
            } else if k == key_contract_id() {
                match parse_str(s, j) {
                    Some((b, j2)) => parse_capability_fields(
                        s,
                        j2,
                        (n - 1) as u64,
                        id,
                        Some(b),
                        link_name,
                    ),
                    None => None,
                }
            } else if k == key_link_name() {
                match parse_str(s, j) {
                    Some((b, j2)) => parse_capability_fields(
                        s,
                        j2,
                        (n - 1) as u64,
                        id,
                        contract_id,
                        Some(b),
                    ),
                    None => None,
                }
            } else {
                match skip_value(s, j) {
                    Some(j2) => parse_capability_fields(
                        s,
                        j2,
                        (n - 1) as u64,
                        id,
                        contract_id,
                        link_name,
                    ),
                    None => None,
                }
            },
            None => None,
        }
    }
}

/// Parse an [`Entity`] at `i`.
pub open spec fn parse_entity(s: Seq<u8>, i: int) -> Option<(EntityModel, int)> {
    match parse_maphdr(s, i) {
        Some((n, j)) => if n == 1 {
            match parse_rawstr(s, j) {
                Some((k, j2)) => if k == key_actor() {
                    match parse_str(s, j2) {
                        Some((b, j3)) => Some((EntityModel::Actor(b), j3)),
                        None => None,
                    }
                } else if k == key_capability() {
                    match parse_maphdr(s, j2) {
                        Some((m, j3)) => parse_capability_fields(s, j3, m, None, None, None),
                        None => None,
                    }
                } else {
                    None
                },
                None => None,
            }
        } else {
            None
        },
        None => None,
    }
}

/// Round trip for entities: parsing an encoding yields the model back.
#[verifier::rlimit(60)]
pub proof fn lemma_parse_enc_entity(s: Seq<u8>, i: int, e: EntityModel)
    requires
        0 <= i,
        wf_entity(e),
        i + enc_entity(e).len() <= s.len(),
        s.subrange(i, i + enc_entity(e).len() as int) == enc_entity(e),
    ensures
        parse_entity(s, i) == Some((e, i + enc_entity(e).len() as int)),
{
    match e {
        EntityModel::Actor(key) => {
            let h = enc_maphdr(1);
            let k = enc_str(key_actor());
            let v = enc_str(key);
            assert(enc_entity(e) =~= h + (k + v));
            lemma_subrange_concat(s, i, h, k + v);
            lemma_subrange_concat(s, i + h.len() as int, k, v);
            lemma_parse_enc_maphdr(s, i, 1);
            lemma_parse_enc_rawstr(s, i + h.len() as int, key_actor());
            lemma_parse_enc_str(s, i + h.len() as int + k.len() as int, key);
        },
        EntityModel::Capability { id, contract_id, link_name } => {
            let h = enc_maphdr(1);
            let k = enc_str(key_capability());
            let h3 = enc_maphdr(3);
            let k1 = enc_str(key_id());
            let v1 = enc_str(id);
            let k2 = enc_str(key_contract_id());
            let v2 = enc_str(contract_id);
            let k3 = enc_str(key_link_name());
            let v3 = enc_str(link_name);
            let i1 = i + h.len() as int;
            let i2 = i1 + k.len() as int;
            let i3 = i2 + h3.len() as int;
            let i4 = i3 + k1.len() as int;
            let i5 = i4 + v1.len() as int;
            let i6 = i5 + k2.len() as int;
            let i7 = i6 + v2.len() as int;
            let i8 = i7 + k3.len() as int;
            let end = i8 + v3.len() as int;
            assert(enc_entity(e) =~= h + (k + (h3 + (k1 + (v1 + (k2 + (v2 + (k3 + v3))))))));
            lemma_subrange_concat(s, i, h, k + (h3 + (k1 + (v1 + (k2 + (v2 + (k3 + v3)))))));
            lemma_subrange_concat(s, i1, k, h3 + (k1 + (v1 + (k2 + (v2 + (k3 + v3))))));
            lemma_subrange_concat(s, i2, h3, k1 + (v1 + (k2 + (v2 + (k3 + v3)))));
            lemma_subrange_concat(s, i3, k1, v1 + (k2 + (v2 + (k3 + v3))));
            lemma_subrange_concat(s, i4, v1, k2 + (v2 + (k3 + v3)));
            lemma_subrange_concat(s, i5, k2, v2 + (k3 + v3));
            lemma_subrange_concat(s, i6, v2, k3 + v3);
            lemma_subrange_concat(s, i7, k3, v3);
            lemma_parse_enc_maphdr(s, i, 1);
            lemma_parse_enc_rawstr(s, i1, key_capability());
            lemma_parse_enc_maphdr(s, i2, 3);
            lemma_parse_enc_rawstr(s, i3, key_id());
            lemma_parse_enc_str(s, i4, id);
            lemma_parse_enc_rawstr(s, i5, key_contract_id());
            lemma_parse_enc_str(s, i6, contract_id);
            lemma_parse_enc_rawstr(s, i7, key_link_name());
            lemma_parse_enc_str(s, i8, link_name);
            assert(key_capability() != key_actor()) by {
                assert(key_capability().len() != key_actor().len());
            }
            assert(key_contract_id() != key_id()) by {
                assert(key_contract_id().len() != key_id().len());
            }
            assert(key_link_name() != key_id()) by {
                assert(key_link_name().len() != key_id().len());
            }
            assert(key_link_name() != key_contract_id()) by {
                assert(key_link_name().len() != key_contract_id().len());
            }
            assert(parse_capability_fields(
                s,
                end,
                0,
                Some(id),
                Some(contract_id),
                Some(link_name),
            ) == Some((e, end)));
            assert(parse_capability_fields(s, i7, 1, Some(id), Some(contract_id), None) == Some(
                (e, end),
            ));
            assert(parse_capability_fields(s, i5, 2, Some(id), None, None) == Some((e, end)));
            assert(parse_capability_fields(s, i3, 3, None, None, None) == Some((e, end)));
        },
    }
}

/// Append the encoding of `e` to `out`. Fails, leaving `out` unchanged, only
/// when a string is longer than a header can announce.
#[verifier::rlimit(80)]
pub fn emit_entity(out: &mut Vec<u8>, e: &Entity) -> (r: bool)
    ensures
        r == wf_entity(e@),
        r ==> final(out)@ == old(out)@ + enc_entity(e@),
        !r ==> final(out)@ == old(out)@,
{
    match e {
        Entity::Actor(key) => {
            proof {
                vstd::utf8::encode_utf8_valid_utf8(key@);
            }
            let kb: Vec<u8> = key.as_str().as_bytes_vec();
            if (kb.len() as u64) > 0xffffffff {
                return false;
            }
            emit_maphdr(out, 1);
            let k: Vec<u8> = kb_actor();
            emit_str_bytes(out, k.as_slice());
            emit_str_bytes(out, kb.as_slice());
            proof {
                assert(out@ =~= old(out)@ + enc_entity(e@));
            }
            true
        },
        Entity::Capability { id, contract_id, link_name } => {
            proof {
                vstd::utf8::encode_utf8_valid_utf8(id@);
                vstd::utf8::encode_utf8_valid_utf8(contract_id@);
                vstd::utf8::encode_utf8_valid_utf8(link_name@);
            }
            let ib: Vec<u8> = id.as_str().as_bytes_vec();
            let cb: Vec<u8> = contract_id.as_str().as_bytes_vec();
            let lb: Vec<u8> = link_name.as_str().as_bytes_vec();
            if (ib.len() as u64) > 0xffffffff || (cb.len() as u64) > 0xffffffff || (lb.len() as u64)
                > 0xffffffff {
                return false;
            }
            emit_maphdr(out, 1);
            let k: Vec<u8> = kb_capability();
            emit_str_bytes(out, k.as_slice());
            emit_maphdr(out, 3);
            let k1: Vec<u8> = kb_id();
            emit_str_bytes(out, k1.as_slice());
            emit_str_bytes(out, ib.as_slice());
            let k2: Vec<u8> = kb_contract_id();
            emit_str_bytes(out, k2.as_slice());
            emit_str_bytes(out, cb.as_slice());
            let k3: Vec<u8> = kb_link_name();
            emit_str_bytes(out, k3.as_slice());
            emit_str_bytes(out, lb.as_slice());
            proof {
                assert(out@ =~= old(out)@ + enc_entity(e@));
            }
            true
        },
    }
}

/// Read an [`Entity`] at position `i` of `s`.
pub fn read_entity(s: &[u8], i: usize) -> (r: Option<(Entity, usize)>)
    ensures
        match r {
            Some((e, j)) => parse_entity(s@, i as int) == Some((e@, j as int)),
            None => parse_entity(s@, i as int) is None,
        },
{
    match read_maphdr(s, i) {
        Some((n, j)) => {
            if n != 1 {
                return None;
            }
            match read_rawstr(s, j) {
                Some((k, j2)) => {
                    let ka: Vec<u8> = kb_actor();
                    let kc: Vec<u8> = kb_capability();
                    if bytes_eq(k.as_slice(), ka.as_slice()) {
                        match read_string(s, j2) {
                            Some((st, j3)) => Some((Entity::Actor(st), j3)),
                            None => None,
                        }
                    } else if bytes_eq(k.as_slice(), kc.as_slice()) {
                        match read_maphdr(s, j2) {
                            Some((m, j3)) => read_capability_fields(s, j3, m),
                            None => None,
                        }
                    } else {
                        None
                    }
                },
                None => None,
            }
        },
        None => None,
    }
}

/// Read the struct map of a capability: `m` entries starting at `i`.
fn read_capability_fields(s: &[u8], i: usize, m: u64) -> (r: Option<(Entity, usize)>)
    ensures
        match r {
            Some((e, j)) => parse_capability_fields(s@, i as int, m, None, None, None) == Some(
                (e@, j as int),
            ),
            None => parse_capability_fields(s@, i as int, m, None, None, None) is None,
        },
{
    let mut j: usize = i;
    let mut rem: u64 = m;
    let mut id: Option<String> = None;
    let mut contract_id: Option<String> = None;
    let mut link_name: Option<String> = None;
    loop
        invariant
            parse_capability_fields(s@, i as int, m, None, None, None) == parse_capability_fields(
                s@,
                j as int,
                rem,
                match id {
                    Some(ref st) => Some(encode_utf8(st@)),
                    None => None,
                },
                match contract_id {
                    Some(ref st) => Some(encode_utf8(st@)),
                    None => None,
                },
                match link_name {
                    Some(ref st) => Some(encode_utf8(st@)),
                    None => None,
                },
            ),
        decreases rem,
    {
        if rem == 0 {
            match (id, contract_id, link_name) {
                (Some(a), Some(c), Some(l)) => {
                    let e = Entity::Capability { id: a, contract_id: c, link_name: l };
                    return Some((e, j));
                },
                _ => {
                    return None;
                },
            }
        }
        match read_rawstr(s, j) {
            Some((k, j2)) => {
                let k1: Vec<u8> = kb_id();
                let k2: Vec<u8> = kb_contract_id();
                let k3: Vec<u8> = kb_link_name();
                if bytes_eq(k.as_slice(), k1.as_slice()) {
                    match read_string(s, j2) {
                        Some((st, j3)) => {
                            id = Some(st);
                            j = j3;
                            rem = rem - 1;
                        },
                        None => {
                            return None;
                        },
                    }
                } else if bytes_eq(k.as_slice(), k2.as_slice()) {
                    match read_string(s, j2) {
                        Some((st, j3)) => {
                            contract_id = Some(st);
                            j = j3;
                            rem = rem - 1;
                        },
                        None => {
                            return None;
                        },
                    }
                } else if bytes_eq(k.as_slice(), k3.as_slice()) {
                    match read_string(s, j2) {
                        Some((st, j3)) => {
                            link_name = Some(st);
                            j = j3;
                            rem = rem - 1;
                        },
                        None => {
                            return None;
                        },
                    }
                } else {
                    match skip_one(s, j2) {
                        Some(j3) => {
                            j = j3;
                            rem = rem - 1;
                        },
                        None => {
                            return None;
                        },
                    }
                }
            },
            None => {
                return None;
            },
        }
    }
}

// ---------------------------------------------------------------------------
// Optional strings (nil or a string)
// ---------------------------------------------------------------------------
/// Encoding of an optional string: nil for `None`, the string for `Some`.
pub open spec fn enc_opt_str(o: Option<Seq<u8>>) -> Seq<u8> {
    match o {
        Option::None => seq![0xc0u8],
        Option::Some(b) => enc_str(b),
    }
}

/// Parse an optional string at `i`.
pub open spec fn parse_opt_str(s: Seq<u8>, i: int) -> Option<(Option<Seq<u8>>, int)> {
    if 0 <= i < s.len() && s[i] == 0xc0 {
        Some((Option::None, i + 1))
    } else {
        match parse_str(s, i) {
            Some((b, j)) => Some((Option::Some(b), j)),
            None => None,
        }
    }
}

/// Parsing an encoded optional string yields the value back.
pub proof fn lemma_parse_enc_opt_str(s: Seq<u8>, i: int, o: Option<Seq<u8>>)
    requires
        0 <= i,
        match o {
            Option::Some(b) => valid_utf8(b) && b.len() <= 0xffffffff,
            Option::None => true,
        },
        i + enc_opt_str(o).len() <= s.len(),
        s.subrange(i, i + enc_opt_str(o).len() as int) == enc_opt_str(o),
    ensures
        parse_opt_str(s, i) == Some((o, i + enc_opt_str(o).len() as int)),
{
    match o {
        Option::None => {
            assert(s.subrange(i, i + 1)[0] == s[i]);
        },
        Option::Some(b) => {
            assert(s.subrange(i, i + enc_opt_str(o).len() as int)[0] == s[i]);
            assert(s[i] == enc_str(b)[0]);
            assert(enc_str(b)[0] == enc_strhdr(b.len() as u64)[0]);
            assert(s[i] != 0xc0);
            lemma_parse_enc_str(s, i, b);
        },
    }
}

/// Append the encoding of the optional string `o` to `out`.
pub fn emit_opt_str_bytes(out: &mut Vec<u8>, o: &Option<Vec<u8>>)
    ensures
        final(out)@ == old(out)@ + enc_opt_str(
            match *o {
                Option::Some(ref b) => Option::Some(b@),
                Option::None => Option::None,
            },
        ),
{
    match o {
        Option::None => {
            out.push(0xc0);
            proof {
                assert(out@ =~= old(out)@ + enc_opt_str(Option::None));
            }
        },
        Option::Some(b) => {
            emit_str_bytes(out, b.as_slice());
        },
    }
}

/// Read an optional string at position `i` of `s`.
pub fn read_opt_string(s: &[u8], i: usize) -> (r: Option<(Option<String>, usize)>)
    ensures
        match r {
            Some((o, j)) => parse_opt_str(s@, i as int) == Some(
                (
                    match o {
                        Some(st) => Some(encode_utf8(st@)),
                        None => None,
                    },
                    j as int,
                ),
            ),
            None => parse_opt_str(s@, i as int) is None,
        },
{
    if i < s.len() && s[i] == 0xc0 {
        return Some((None, i + 1));
    }
    match read_string(s, i) {
        Some((st, j)) => Some((Some(st), j)),
        None => None,
    }
}

// ---------------------------------------------------------------------------
// InvocationResponse
// ---------------------------------------------------------------------------
/// An [`InvocationResponseModel`] the wire can carry.
pub open spec fn wf_inv_response(m: InvocationResponseModel) -> bool {
    &&& m.msg.len() <= 0xffffffff
    &&& match m.error {
        Some(e) => valid_utf8(e) && e.len() <= 0xffffffff,
        None => true,
    }
    &&& valid_utf8(m.invocation_id)
    &&& m.invocation_id.len() <= 0xffffffff
}

/// Encoding of an invocation response: a map keyed by field names.
pub open spec fn enc_inv_response(m: InvocationResponseModel) -> Seq<u8> {
    enc_maphdr(3) + enc_str(key_msg()) + enc_bin(m.msg) + enc_str(key_error()) + enc_opt_str(
        m.error,
    ) + enc_str(key_invocation_id()) + enc_str(m.invocation_id)
}

/// Fold over the entries of an invocation response's struct map.
pub open spec fn parse_inv_response_fields(
    s: Seq<u8>,
    i: int,
    n: u64,
    msg: Option<Seq<u8>>,
    error: Option<Option<Seq<u8>>>,
    invocation_id: Option<Seq<u8>>,
) -> Option<(InvocationResponseModel, int)>
    decreases n,
{
    if n == 0 {
        match (msg, error, invocation_id) {
            (Some(m), Some(e), Some(iid)) => Some(
                (InvocationResponseModel { msg: m, error: e, invocation_id: iid }, i),
            ),
            _ => None,
        }
    } else {
        match parse_rawstr(s, i) {
            Some((k, j)) => if k == key_msg() {
                match parse_bin(s, j) {
                    Some((b, j2)) => parse_inv_response_fields(
                        s,
                        j2,
                        (n - 1) as u64,
                        Some(b),
                        error,
                        invocation_id,
                    ),
                    None => None,
                }
            } else if k == key_error() {
                match parse_opt_str(s, j) {
                    Some((e, j2)) => parse_inv_response_fields(
                        s,
                        j2,
                        (n - 1) as u64,
                        msg,
                        Some(e),
                        invocation_id,
                    ),
                    None => None,
                }
            } else if k == key_invocation_id() {
                match parse_str(s, j) {
                    Some((b, j2)) => parse_inv_response_fields(
                        s,
                        j2,
                        (n - 1) as u64,
                        msg,
                        error,
                        Some(b),
                    ),
                    None => None,
                }
            } else {
                match skip_value(s, j) {
                    Some(j2) => parse_inv_response_fields(
                        s,
                        j2,
                        (n - 1) as u64,
                        msg,
                        error,
                        invocation_id,
                    ),
                    None => None,
                }
            },
            None => None,
        }
    }
}

/// Parse an invocation response at `i`.
pub open spec fn parse_inv_response(s: Seq<u8>, i: int) -> Option<(InvocationResponseModel, int)> {
    match parse_maphdr(s, i) {
        Some((n, j)) => parse_inv_response_fields(s, j, n, None, None, None),
        None => None,
    }
}

/// Round trip for invocation responses.
#[verifier::rlimit(60)]
pub proof fn lemma_parse_enc_inv_response(s: Seq<u8>, i: int, m: InvocationResponseModel)
    requires
        0 <= i,
        wf_inv_response(m),
        i + enc_inv_response(m).len() <= s.len(),
        s.subrange(i, i + enc_inv_response(m).len() as int) == enc_inv_response(m),
    ensures
        parse_inv_response(s, i) == Some((m, i + enc_inv_response(m).len() as int)),
{
    let h = enc_maphdr(3);
    let k1 = enc_str(key_msg());
    let v1 = enc_bin(m.msg);
    let k2 = enc_str(key_error());
    let v2 = enc_opt_str(m.error);
    let k3 = enc_str(key_invocation_id());
    let v3 = enc_str(m.invocation_id);
    let i1 = i + h.len() as int;
    let i2 = i1 + k1.len() as int;
    let i3 = i2 + v1.len() as int;
    let i4 = i3 + k2.len() as int;
    let i5 = i4 + v2.len() as int;
    let i6 = i5 + k3.len() as int;
    let end = i6 + v3.len() as int;
    assert(enc_inv_response(m) =~= h + (k1 + (v1 + (k2 + (v2 + (k3 + v3))))));
    lemma_subrange_concat(s, i, h, k1 + (v1 + (k2 + (v2 + (k3 + v3)))));
    lemma_subrange_concat(s, i1, k1, v1 + (k2 + (v2 + (k3 + v3))));
    lemma_subrange_concat(s, i2, v1, k2 + (v2 + (k3 + v3)));
    lemma_subrange_concat(s, i3, k2, v2 + (k3 + v3));
    lemma_subrange_concat(s, i4, v2, k3 + v3);
    lemma_subrange_concat(s, i5, k3, v3);
    lemma_parse_enc_maphdr(s, i, 3);
    lemma_parse_enc_rawstr(s, i1, key_msg());
    lemma_parse_enc_bin(s, i2, m.msg);
    lemma_parse_enc_rawstr(s, i3, key_error());
    lemma_parse_enc_opt_str(s, i4, m.error);
    lemma_parse_enc_rawstr(s, i5, key_invocation_id());
    lemma_parse_enc_str(s, i6, m.invocation_id);
    assert(key_error() != key_msg()) by {
        assert(key_error().len() != key_msg().len());
    }
    assert(key_invocation_id() != key_msg()) by {
        assert(key_invocation_id().len() != key_msg().len());
    }
    assert(key_invocation_id() != key_error()) by {
        assert(key_invocation_id().len() != key_error().len());
    }
    assert(parse_inv_response_fields(
        s,
        end,
        0,
        Some(m.msg),
        Some(m.error),
        Some(m.invocation_id),
    ) == Some((m, end)));
    assert(parse_inv_response_fields(s, i5, 1, Some(m.msg), Some(m.error), None) == Some(
        (m, end),
    ));
    assert(parse_inv_response_fields(s, i3, 2, Some(m.msg), None, None) == Some((m, end)));
    assert(parse_inv_response_fields(s, i1, 3, None, None, None) == Some((m, end)));
}

/// Read an invocation response at position `i` of `s`.
pub fn read_inv_response(s: &[u8], i: usize) -> (r: Option<(InvocationResponse, usize)>)
    ensures
        match r {
            Some((m, j)) => parse_inv_response(s@, i as int) == Some((m@, j as int)),
            None => parse_inv_response(s@, i as int) is None,
        },
{
    match read_maphdr(s, i) {
        Some((n, j0)) => {
            let mut j: usize = j0;
            let mut rem: u64 = n;
            let mut msg: Option<Vec<u8>> = None;
            let mut error: Option<Option<String>> = None;
            let mut invocation_id: Option<String> = None;
            loop
                invariant
                    parse_maphdr(s@, i as int) == Some((n, j0 as int)),
                    parse_inv_response_fields(s@, j0 as int, n, None, None, None)
                        == parse_inv_response_fields(
                        s@,
                        j as int,
                        rem,
                        match msg {
                            Some(ref b) => Some(b@),
                            None => None,
                        },
                        match error {
                            Some(ref e) => Some(
                                match e {
                                    Some(st) => Some(encode_utf8(st@)),
                                    None => None,
                                },
                            ),
                            None => None,
                        },
                        match invocation_id {
                            Some(ref st) => Some(encode_utf8(st@)),
                            None => None,
                        },
                    ),
                decreases rem,
            {
                if rem == 0 {
                    match (msg, error, invocation_id) {
                        (Some(mb), Some(e), Some(iid)) => {
                            let m = InvocationResponse { msg: mb, error: e, invocation_id: iid };
                            return Some((m, j));
                        },
                        _ => {
                            return None;
                        },
                    }
                }
                match read_rawstr(s, j) {
                    Some((k, j2)) => {
                        let k1: Vec<u8> = kb_msg();
                        let k2: Vec<u8> = kb_error();
                        let k3: Vec<u8> = kb_invocation_id();
                        if bytes_eq(k.as_slice(), k1.as_slice()) {
                            match read_bin(s, j2) {
                                Some((b, j3)) => {
                                    msg = Some(b);
                                    j = j3;
                                    rem = rem - 1;
                                },
                                None => {
                                    return None;
                                },
                            }
                        } else if bytes_eq(k.as_slice(), k2.as_slice()) {
                            match read_opt_string(s, j2) {
                                Some((e, j3)) => {
                                    error = Some(e);
                                    j = j3;
                                    rem = rem - 1;
                                },
                                None => {
                                    return None;
                                },
                            }
                        } else if bytes_eq(k.as_slice(), k3.as_slice()) {
                            match read_string(s, j2) {
                                Some((st, j3)) => {
                                    invocation_id = Some(st);
                                    j = j3;
                                    rem = rem - 1;
                                },
                                None => {
                                    return None;
                                },
                            }
                        } else {
                            match skip_one(s, j2) {
                                Some(j3) => {
                                    j = j3;
                                    rem = rem - 1;
                                },
                                None => {
                                    return None;
                                },
                            }
                        }
                    },
                    None => {
                        return None;
                    },
                }
            }
        },
        None => None,
    }
}

// ---------------------------------------------------------------------------
// Invocation
// ---------------------------------------------------------------------------
/// An [`InvocationModel`] the wire can carry.
pub open spec fn wf_invocation(m: InvocationModel) -> bool {
    &&& wf_entity(m.origin)
    &&& wf_entity(m.target)
    &&& valid_utf8(m.operation) && m.operation.len() <= 0xffffffff
    &&& m.msg.len() <= 0xffffffff
    &&& valid_utf8(m.id) && m.id.len() <= 0xffffffff
    &&& valid_utf8(m.encoded_claims) && m.encoded_claims.len() <= 0xffffffff
    &&& valid_utf8(m.host_id) && m.host_id.len() <= 0xffffffff
}

/// Encoding of an invocation envelope: a map keyed by field names.
pub open spec fn enc_invocation(m: InvocationModel) -> Seq<u8> {
    enc_maphdr(7) + enc_str(key_origin()) + enc_entity(m.origin) + enc_str(key_target())
        + enc_entity(m.target) + enc_str(key_operation()) + enc_str(m.operation) + enc_str(
        key_msg(),
    ) + enc_bin(m.msg) + enc_str(key_id()) + enc_str(m.id) + enc_str(key_encoded_claims())
        + enc_str(m.encoded_claims) + enc_str(key_host_id()) + enc_str(m.host_id)
}

/// Fold over the entries of an invocation's struct map.
pub open spec fn parse_invocation_fields(
    s: Seq<u8>,
    i: int,
    n: u64,
    origin: Option<EntityModel>,
    target: Option<EntityModel>,
    operation: Option<Seq<u8>>,
    msg: Option<Seq<u8>>,
    id: Option<Seq<u8>>,
    encoded_claims: Option<Seq<u8>>,
    host_id: Option<Seq<u8>>,
) -> Option<(InvocationModel, int)>
    decreases n,
{
    if n == 0 {
        match (origin, target, operation, msg, id, encoded_claims, host_id) {
            (Some(o), Some(t), Some(op), Some(mg), Some(d), Some(ec), Some(h)) => Some(
                (
                    InvocationModel {
                        origin: o,
                        target: t,
                        operation: op,
                        msg: mg,
                        id: d,
                        encoded_claims: ec,
                        host_id: h,
                    },
                    i,
                ),
            ),
            _ => None,
        }
    } else {
        match parse_rawstr(s, i) {
            Some((k, j)) => if k == key_origin() {
                match parse_entity(s, j) {
                    Some((e, j2)) => parse_invocation_fields(
                        s,
                        j2,
                        (n - 1) as u64,
                        Some(e),
                        target,
                        operation,
                        msg,
                        id,
                        encoded_claims,
                        host_id,
                    ),
                    None => None,
                }
            } else if k == key_target() {
                match parse_entity(s, j) {
                    Some((e, j2)) => parse_invocation_fields(
                        s,
                        j2,
                        (n - 1) as u64,
                        origin,
                        Some(e),
                        operation,
                        msg,
                        id,
                        encoded_claims,
                        host_id,
                    ),
                    None => None,
                }
            } else if k == key_operation() {
                match parse_str(s, j) {
                    Some((b, j2)) => parse_invocation_fields(
                        s,
                        j2,
                        (n - 1) as u64,
                        origin,
                        target,
                        Some(b),
                        msg,
                        id,
                        encoded_claims,
                        host_id,
                    ),
                    None => None,
                }
            } else if k == key_msg() {
                match parse_bin(s, j) {
                    Some((b, j2)) => parse_invocation_fields(
                        s,
                        j2,
                        (n - 1) as u64,
                        origin,
                        target,
                        operation,
                        Some(b),
                        id,
                        encoded_claims,
                        host_id,
                    ),
                    None => None,
                }
            } else if k == key_id() {
                match parse_str(s, j) {
                    Some((b, j2)) => parse_invocation_fields(
                        s,
                        j2,
                        (n - 1) as u64,
                        origin,
                        target,
                        operation,
                        msg,
                        Some(b),
                        encoded_claims,
                        host_id,
                    ),
                    None => None,
                }
            } else if k == key_encoded_claims() {
                match parse_str(s, j) {
                    Some((b, j2)) => parse_invocation_fields(
                        s,
                        j2,
                        (n - 1) as u64,
                        origin,
                        target,
                        operation,
                        msg,
                        id,
                        Some(b),
                        host_id,
                    ),
                    None => None,
                }
            } else if k == key_host_id() {
                match parse_str(s, j) {
                    Some((b, j2)) => parse_invocation_fields(
                        s,
                        j2,
                        (n - 1) as u64,
                        origin,
                        target,
                        operation,
                        msg,
                        id,
                        encoded_claims,
                        Some(b),
                    ),
                    None => None,
                }
            } else {
                match skip_value(s, j) {
                    Some(j2) => parse_invocation_fields(
                        s,
                        j2,
                        (n - 1) as u64,
                        origin,
                        target,
                        operation,
                        msg,
                        id,
                        encoded_claims,
                        host_id,
                    ),
                    None => None,
                }
            },
            None => None,
        }
    }
}

/// Parse an invocation envelope at `i`.
pub open spec fn parse_invocation(s: Seq<u8>, i: int) -> Option<(InvocationModel, int)> {
    match parse_maphdr(s, i) {
        Some((n, j)) => parse_invocation_fields(s, j, n, None, None, None, None, None, None, None),
        None => None,
    }
}

/// Round trip for invocation envelopes: parsing an encoding yields the
/// model back.
#[verifier::rlimit(100)]
#[verifier::spinoff_prover]
pub proof fn lemma_parse_enc_invocation(s: Seq<u8>, i: int, m: InvocationModel)
    requires
        0 <= i,
        wf_invocation(m),
        i + enc_invocation(m).len() <= s.len(),
        s.subrange(i, i + enc_invocation(m).len() as int) == enc_invocation(m),
    ensures
        parse_invocation(s, i) == Some((m, i + enc_invocation(m).len() as int)),
{
    let h = enc_maphdr(7);
    let k1 = enc_str(key_origin());
    let v1 = enc_entity(m.origin);
    let k2 = enc_str(key_target());
    let v2 = enc_entity(m.target);
    let k3 = enc_str(key_operation());
    let v3 = enc_str(m.operation);
    let k4 = enc_str(key_msg());
    let v4 = enc_bin(m.msg);
    let k5 = enc_str(key_id());
    let v5 = enc_str(m.id);
    let k6 = enc_str(key_encoded_claims());
    let v6 = enc_str(m.encoded_claims);
    let k7 = enc_str(key_host_id());
    let v7 = enc_str(m.host_id);
    let i1 = i + h.len() as int;
    let i2 = i1 + k1.len() as int;
    let i3 = i2 + v1.len() as int;
    let i4 = i3 + k2.len() as int;
    let i5 = i4 + v2.len() as int;
    let i6 = i5 + k3.len() as int;
    let i7 = i6 + v3.len() as int;
    let i8 = i7 + k4.len() as int;
    let i9 = i8 + v4.len() as int;
    let i10 = i9 + k5.len() as int;
    let i11 = i10 + v5.len() as int;
    let i12 = i11 + k6.len() as int;
    let i13 = i12 + v6.len() as int;
    let i14 = i13 + k7.len() as int;
    let end = i14 + v7.len() as int;
    let r7 = k7 + v7;
    let r6 = k6 + (v6 + r7);
    let r5 = k5 + (v5 + r6);
    let r4 = k4 + (v4 + r5);
    let r3 = k3 + (v3 + r4);
    let r2 = k2 + (v2 + r3);
    let r1 = k1 + (v1 + r2);
    assert(enc_invocation(m) =~= h + r1);
    lemma_subrange_concat(s, i, h, r1);
    lemma_subrange_concat(s, i1, k1, v1 + r2);
    lemma_subrange_concat(s, i2, v1, r2);
    lemma_subrange_concat(s, i3, k2, v2 + r3);
    lemma_subrange_concat(s, i4, v2, r3);
    lemma_subrange_concat(s, i5, k3, v3 + r4);
    lemma_subrange_concat(s, i6, v3, r4);
    lemma_subrange_concat(s, i7, k4, v4 + r5);
    lemma_subrange_concat(s, i8, v4, r5);
    lemma_subrange_concat(s, i9, k5, v5 + r6);
    lemma_subrange_concat(s, i10, v5, r6);
    lemma_subrange_concat(s, i11, k6, v6 + r7);
    lemma_subrange_concat(s, i12, v6, r7);
    lemma_subrange_concat(s, i13, k7, v7);
    lemma_parse_enc_maphdr(s, i, 7);
    lemma_parse_enc_rawstr(s, i1, key_origin());
    lemma_parse_enc_entity(s, i2, m.origin);
    lemma_parse_enc_rawstr(s, i3, key_target());
    lemma_parse_enc_entity(s, i4, m.target);
    lemma_parse_enc_rawstr(s, i5, key_operation());
    lemma_parse_enc_str(s, i6, m.operation);
    lemma_parse_enc_rawstr(s, i7, key_msg());
    lemma_parse_enc_bin(s, i8, m.msg);
    lemma_parse_enc_rawstr(s, i9, key_id());
    lemma_parse_enc_str(s, i10, m.id);
    lemma_parse_enc_rawstr(s, i11, key_encoded_claims());
    lemma_parse_enc_str(s, i12, m.encoded_claims);
    lemma_parse_enc_rawstr(s, i13, key_host_id());
    lemma_parse_enc_str(s, i14, m.host_id);
    assert(key_target() != key_origin()) by {
        assert(key_target()[0] != key_origin()[0]);
    }
    assert(key_operation() != key_origin()) by {
        assert(key_operation().len() != key_origin().len());
    }
    assert(key_operation() != key_target()) by {
        assert(key_operation().len() != key_target().len());
    }
    assert(key_msg() != key_origin()) by {
        assert(key_msg().len() != key_origin().len());
    }
    assert(key_msg() != key_target()) by {
        assert(key_msg().len() != key_target().len());
    }
    assert(key_msg() != key_operation()) by {
        assert(key_msg().len() != key_operation().len());
    }
    assert(key_id() != key_origin()) by {
        assert(key_id().len() != key_origin().len());
    }
    assert(key_id() != key_target()) by {
        assert(key_id().len() != key_target().len());
    }
    assert(key_id() != key_operation()) by {
        assert(key_id().len() != key_operation().len());
    }
    assert(key_id() != key_msg()) by {
        assert(key_id().len() != key_msg().len());
    }
    assert(key_encoded_claims() != key_origin()) by {
        assert(key_encoded_claims().len() != key_origin().len());
    }
    assert(key_encoded_claims() != key_target()) by {
        assert(key_encoded_claims().len() != key_target().len());
    }
    assert(key_encoded_claims() != key_operation()) by {
        assert(key_encoded_claims().len() != key_operation().len());
    }
    assert(key_encoded_claims() != key_msg()) by {
        assert(key_encoded_claims().len() != key_msg().len());
    }
    assert(key_encoded_claims() != key_id()) by {
        assert(key_encoded_claims().len() != key_id().len());
    }
    assert(key_host_id() != key_origin()) by {
        assert(key_host_id().len() != key_origin().len());
    }
    assert(key_host_id() != key_target()) by {
        assert(key_host_id().len() != key_target().len());
    }
    assert(key_host_id() != key_operation()) by {
        assert(key_host_id().len() != key_operation().len());
    }
    assert(key_host_id() != key_msg()) by {
        assert(key_host_id().len() != key_msg().len());
    }
    assert(key_host_id() != key_id()) by {
        assert(key_host_id().len() != key_id().len());
    }
    assert(key_host_id() != key_encoded_claims()) by {
        assert(key_host_id().len() != key_encoded_claims().len());
    }
    let so = Some(m.origin);
    let st = Some(m.target);
    let sop = Some(m.operation);
    let sm = Some(m.msg);
    let sid = Some(m.id);
    let sec = Some(m.encoded_claims);
    let sh = Some(m.host_id);
    assert(parse_invocation_fields(s, end, 0, so, st, sop, sm, sid, sec, sh) == Some((m, end)));
    assert(parse_invocation_fields(s, i13, 1, so, st, sop, sm, sid, sec, None) == Some((m, end)));
    assert(parse_invocation_fields(s, i11, 2, so, st, sop, sm, sid, None, None) == Some((m, end)));
    assert(parse_invocation_fields(s, i9, 3, so, st, sop, sm, None, None, None) == Some((m, end)));
    assert(parse_invocation_fields(s, i7, 4, so, st, sop, None, None, None, None) == Some(
        (m, end),
    ));
    assert(parse_invocation_fields(s, i5, 5, so, st, None, None, None, None, None) == Some(
        (m, end),
    ));
    assert(parse_invocation_fields(s, i3, 6, so, None, None, None, None, None, None) == Some(
        (m, end),
    ));
    assert(parse_invocation_fields(s, i1, 7, None, None, None, None, None, None, None) == Some(
        (m, end),
    ));
}

/// Read an invocation envelope at position `i` of `s`.
#[verifier::rlimit(60)]
pub fn read_invocation(s: &[u8], i: usize) -> (r: Option<(Invocation, usize)>)
    ensures
        match r {
            Some((m, j)) => parse_invocation(s@, i as int) == Some((m@, j as int)),
            None => parse_invocation(s@, i as int) is None,
        },
{
    match read_maphdr(s, i) {
        Some((n, j0)) => {
            let mut j: usize = j0;
            let mut rem: u64 = n;
            let mut origin: Option<Entity> = None;
            let mut target: Option<Entity> = None;
            let mut operation: Option<String> = None;
            let mut msg: Option<Vec<u8>> = None;
            let mut id: Option<String> = None;
            let mut encoded_claims: Option<String> = None;
            let mut host_id: Option<String> = None;
            loop
                invariant
                    parse_maphdr(s@, i as int) == Some((n, j0 as int)),
                    parse_invocation_fields(
                        s@,
                        j0 as int,
                        n,
                        None,
                        None,
                        None,
                        None,
                        None,
                        None,
                        None,
                    ) == parse_invocation_fields(
                        s@,
                        j as int,
                        rem,
                        match origin {
                            Some(ref e) => Some(e@),
                            None => None,
                        },
                        match target {
                            Some(ref e) => Some(e@),
                            None => None,
                        },
                        match operation {
                            Some(ref st) => Some(encode_utf8(st@)),
                            None => None,
                        },
                        match msg {
                            Some(ref b) => Some(b@),
                            None => None,
                        },
                        match id {
                            Some(ref st) => Some(encode_utf8(st@)),
                            None => None,
                        },
                        match encoded_claims {
                            Some(ref st) => Some(encode_utf8(st@)),
                            None => None,
                        },
                        match host_id {
                            Some(ref st) => Some(encode_utf8(st@)),
                            None => None,
                        },
                    ),
                decreases rem,
            {
                if rem == 0 {
                    match (origin, target, operation, msg, id, encoded_claims, host_id) {
                        (Some(o), Some(t), Some(op), Some(mg), Some(d), Some(ec), Some(h)) => {
                            let m = Invocation {
                                origin: o,
                                target: t,
                                operation: op,
                                msg: mg,
                                id: d,
                                encoded_claims: ec,
                                host_id: h,
                            };
                            return Some((m, j));
                        },
                        _ => {
                            return None;
                        },
                    }
                }
                match read_rawstr(s, j) {
                    Some((k, j2)) => {
                        let k1: Vec<u8> = kb_origin();
                        let k2: Vec<u8> = kb_target();
                        let k3: Vec<u8> = kb_operation();
                        let k4: Vec<u8> = kb_msg();
                        let k5: Vec<u8> = kb_id();
                        let k6: Vec<u8> = kb_encoded_claims();
                        let k7: Vec<u8> = kb_host_id();
                        if bytes_eq(k.as_slice(), k1.as_slice()) {
                            match read_entity(s, j2) {
                                Some((e, j3)) => {
                                    origin = Some(e);
                                    j = j3;
                                    rem = rem - 1;
                                },
                                None => {
                                    return None;
                                },
                            }
                        } else if bytes_eq(k.as_slice(), k2.as_slice()) {
                            match read_entity(s, j2) {
                                Some((e, j3)) => {
                                    target = Some(e);
                                    j = j3;
                                    rem = rem - 1;
                                },
                                None => {
                                    return None;
                                },
                            }
                        } else if bytes_eq(k.as_slice(), k3.as_slice()) {
                            match read_string(s, j2) {
                                Some((st, j3)) => {
                                    operation = Some(st);
                                    j = j3;
                                    rem = rem - 1;
                                },
                                None => {
                                    return None;
                                },
                            }
                        } else if bytes_eq(k.as_slice(), k4.as_slice()) {
                            match read_bin(s, j2) {
                                Some((b, j3)) => {
                                    msg = Some(b);
                                    j = j3;
                                    rem = rem - 1;
                                },
                                None => {
                                    return None;
                                },
                            }
                        } else if bytes_eq(k.as_slice(), k5.as_slice()) {
                            match read_string(s, j2) {
                                Some((st, j3)) => {
                                    id = Some(st);
                                    j = j3;
                                    rem = rem - 1;
                                },
                                None => {
                                    return None;
                                },
                            }
                        } else if bytes_eq(k.as_slice(), k6.as_slice()) {
                            match read_string(s, j2) {
                                Some((st, j3)) => {
                                    encoded_claims = Some(st);
                                    j = j3;
                                    rem = rem - 1;
                                },
                                None => {
                                    return None;
                                },
                            }
                        } else if bytes_eq(k.as_slice(), k7.as_slice()) {
                            match read_string(s, j2) {
                                Some((st, j3)) => {
                                    host_id = Some(st);
                                    j = j3;
                                    rem = rem - 1;
                                },
                                None => {
                                    return None;
                                },
                            }
                        } else {
                            match skip_one(s, j2) {
                                Some(j3) => {
                                    j = j3;
                                    rem = rem - 1;
                                },
                                None => {
                                    return None;
                                },
                            }
                        }
                    },
                    None => {
                        return None;
                    },
                }
            }
        },
        None => None,
    }
}

// ---------------------------------------------------------------------------
// Public codec API
// ---------------------------------------------------------------------------
/// Encoding failed: the value holds a string or payload longer than a wire
/// header can announce. No value of this closed message set produced by the
/// library itself is expected to be refused.
#[derive(Debug, Clone, Copy, PartialEq, Eq, Structural)]
pub struct EncodeError;

/// Decoding failed: the input bytes are malformed or truncated.
#[derive(Debug, Clone, PartialEq)]
pub struct DecodeError {
    pub reason: String,
}

/// The error value every failed decode carries.
fn decode_error() -> DecodeError {
    DecodeError { reason: String::from_str("malformed or truncated message") }
}

/// Encode a tick request for the wire.
pub fn encode_player_tick(pt: &PlayerTick) -> (r: Result<Vec<u8>, EncodeError>)
    ensures
        match r {
            Ok(b) => wf_player_tick(pt@) && b@ == enc_player_tick(pt@),
            Err(_) => !wf_player_tick(pt@),
        },
{
    proof {
        vstd::utf8::encode_utf8_valid_utf8(pt.player_id@);
    }
    let pb: Vec<u8> = pt.player_id.as_str().as_bytes_vec();
    if (pb.len() as u64) > 0xffffffff {
        return Err(EncodeError);
    }
    let mut out: Vec<u8> = Vec::new();
    emit_maphdr(&mut out, 3);
    let k1: Vec<u8> = kb_tick();
    emit_str_bytes(&mut out, k1.as_slice());
    emit_u64(&mut out, pt.tick);
    let k2: Vec<u8> = kb_player_id();
    emit_str_bytes(&mut out, k2.as_slice());
    emit_str_bytes(&mut out, pb.as_slice());
    let k3: Vec<u8> = kb_game_state();
    emit_str_bytes(&mut out, k3.as_slice());
    emit_opt_gsview(&mut out, &pt.game_state);
    proof {
        assert(out@ =~= enc_player_tick(pt@));
    }
    Ok(out)
}

/// Decode a tick request from the wire.
pub fn decode_player_tick(buf: &[u8]) -> (r: Result<PlayerTick, DecodeError>)
    ensures
        match r {
            Ok(m) => parse_player_tick(buf@, 0) is Some && m@ == parse_player_tick(
                buf@,
                0,
            ).unwrap().0,
            Err(_) => parse_player_tick(buf@, 0) is None,
        },
{
    match read_player_tick(buf, 0) {
        Some((m, _j)) => Ok(m),
        None => Err(decode_error()),
    }
}

/// Encode a tick response for the wire.
pub fn encode_pt_response(resp: &PlayerTickResponse) -> (r: Result<Vec<u8>, EncodeError>)
    ensures
        match r {
            Ok(b) => wf_commands(resp@) && b@ == enc_pt_response(resp@),
            Err(_) => !wf_commands(resp@),
        },
{
    if (resp.commands.len() as u64) > 0xffffffff {
        return Err(EncodeError);
    }
    let mut out: Vec<u8> = Vec::new();
    emit_maphdr(&mut out, 1);
    let k1: Vec<u8> = kb_commands();
    emit_str_bytes(&mut out, k1.as_slice());
    emit_commands(&mut out, &resp.commands);
    proof {
        assert(out@ =~= enc_pt_response(resp@));
    }
    Ok(out)
}

/// Decode a tick response from the wire.
pub fn decode_pt_response(buf: &[u8]) -> (r: Result<PlayerTickResponse, DecodeError>)
    ensures
        match r {
            Ok(m) => parse_pt_response(buf@, 0) is Some && m@ == parse_pt_response(
                buf@,
                0,
            ).unwrap().0,
            Err(_) => parse_pt_response(buf@, 0) is None,
        },
{
    match read_pt_response(buf, 0) {
        Some((m, _j)) => Ok(m),
        None => Err(decode_error()),
    }
}

/// Encode an invocation envelope for the wire.
#[verifier::rlimit(60)]
pub fn encode_invocation(inv: &Invocation) -> (r: Result<Vec<u8>, EncodeError>)
    ensures
        match r {
            Ok(b) => wf_invocation(inv@) && b@ == enc_invocation(inv@),
            Err(_) => !wf_invocation(inv@),
        },
{
    proof {
        vstd::utf8::encode_utf8_valid_utf8(inv.operation@);
        vstd::utf8::encode_utf8_valid_utf8(inv.id@);
        vstd::utf8::encode_utf8_valid_utf8(inv.encoded_claims@);
        vstd::utf8::encode_utf8_valid_utf8(inv.host_id@);
    }
    let ob: Vec<u8> = inv.operation.as_str().as_bytes_vec();
    let ib: Vec<u8> = inv.id.as_str().as_bytes_vec();
    let eb: Vec<u8> = inv.encoded_claims.as_str().as_bytes_vec();
    let hb: Vec<u8> = inv.host_id.as_str().as_bytes_vec();
    if (ob.len() as u64) > 0xffffffff || (inv.msg.len() as u64) > 0xffffffff || (ib.len() as u64)
        > 0xffffffff || (eb.len() as u64) > 0xffffffff || (hb.len() as u64) > 0xffffffff {
        return Err(EncodeError);
    }
    let mut out: Vec<u8> = Vec::new();
    emit_maphdr(&mut out, 7);
    let k1: Vec<u8> = kb_origin();
    emit_str_bytes(&mut out, k1.as_slice());
    if !emit_entity(&mut out, &inv.origin) {
        return Err(EncodeError);
    }
    let k2: Vec<u8> = kb_target();
    emit_str_bytes(&mut out, k2.as_slice());
    if !emit_entity(&mut out, &inv.target) {
        return Err(EncodeError);
    }
    let k3: Vec<u8> = kb_operation();
    emit_str_bytes(&mut out, k3.as_slice());
    emit_str_bytes(&mut out, ob.as_slice());
    let k4: Vec<u8> = kb_msg();
    emit_str_bytes(&mut out, k4.as_slice());
    emit_bin(&mut out, inv.msg.as_slice());
    let k5: Vec<u8> = kb_id();
    emit_str_bytes(&mut out, k5.as_slice());
    emit_str_bytes(&mut out, ib.as_slice());
    let k6: Vec<u8> = kb_encoded_claims();
    emit_str_bytes(&mut out, k6.as_slice());
    emit_str_bytes(&mut out, eb.as_slice());
    let k7: Vec<u8> = kb_host_id();
    emit_str_bytes(&mut out, k7.as_slice());
    emit_str_bytes(&mut out, hb.as_slice());
    proof {
        assert(out@ =~= enc_invocation(inv@));
    }
    Ok(out)
}

/// Decode an invocation envelope from the wire.
pub fn decode_invocation(buf: &[u8]) -> (r: Result<Invocation, DecodeError>)
    ensures
        match r {
            Ok(m) => parse_invocation(buf@, 0) is Some && m@ == parse_invocation(
                buf@,
                0,
            ).unwrap().0,
            Err(_) => parse_invocation(buf@, 0) is None,
        },
{
    match read_invocation(buf, 0) {
        Some((m, _j)) => Ok(m),
        None => Err(decode_error()),
    }
}

/// Encode an invocation response for the wire.
pub fn encode_inv_response(resp: &InvocationResponse) -> (r: Result<Vec<u8>, EncodeError>)
    ensures
        match r {
            Ok(b) => wf_inv_response(resp@) && b@ == enc_inv_response(resp@),
            Err(_) => !wf_inv_response(resp@),
        },
{
    proof {
        vstd::utf8::encode_utf8_valid_utf8(resp.invocation_id@);
        if resp.error is Some {
            vstd::utf8::encode_utf8_valid_utf8(resp.error.unwrap()@);
        }
    }
    let nb: Vec<u8> = resp.invocation_id.as_str().as_bytes_vec();
    if (resp.msg.len() as u64) > 0xffffffff || (nb.len() as u64) > 0xffffffff {
        return Err(EncodeError);
    }
    let eb: Option<Vec<u8>> = match &resp.error {
        Some(e) => Some(e.as_str().as_bytes_vec()),
        None => None,
    };
    match &eb {
        Some(b) => {
            if (b.len() as u64) > 0xffffffff {
                return Err(EncodeError);
            }
        },
        None => {},
    }
    let mut out: Vec<u8> = Vec::new();
    emit_maphdr(&mut out, 3);
    let k1: Vec<u8> = kb_msg();
    emit_str_bytes(&mut out, k1.as_slice());
    emit_bin(&mut out, resp.msg.as_slice());
    let k2: Vec<u8> = kb_error();
    emit_str_bytes(&mut out, k2.as_slice());
    emit_opt_str_bytes(&mut out, &eb);
    let k3: Vec<u8> = kb_invocation_id();
    emit_str_bytes(&mut out, k3.as_slice());
    emit_str_bytes(&mut out, nb.as_slice());
    proof {
        assert(out@ =~= enc_inv_response(resp@));
    }
    Ok(out)
}

/// Decode an invocation response from the wire.
pub fn decode_inv_response(buf: &[u8]) -> (r: Result<InvocationResponse, DecodeError>)
    ensures
        match r {
            Ok(m) => parse_inv_response(buf@, 0) is Some && m@ == parse_inv_response(
                buf@,
                0,
            ).unwrap().0,
            Err(_) => parse_inv_response(buf@, 0) is None,
        },
{
    match read_inv_response(buf, 0) {
        Some((m, _j)) => Ok(m),
        None => Err(decode_error()),
    }
}

} // verus!
