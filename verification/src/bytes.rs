//! Little-endian integer and base-128 variable-length integer readers over a
//! byte buffer, with their mathematical definitions.
use vstd::prelude::*;

verus! {

/// Value of `width` little-endian bytes of `s` starting at `pos`.
pub open spec fn le_val(s: Seq<u8>, pos: int, width: nat) -> nat
    decreases width,
{
    if width == 0 {
        0
    } else {
        (s[pos] + 256 * le_val(s, pos + 1, (width - 1) as nat)) as nat
    }
}

/// 256 raised to `w`.
pub open spec fn pow256(w: nat) -> nat
    decreases w,
{
    if w == 0 {
        1
    } else {
        256 * pow256((w - 1) as nat)
    }
}

pub proof fn lemma_le_val_bound(s: Seq<u8>, pos: int, width: nat)
    ensures
        le_val(s, pos, width) < pow256(width),
    decreases width,
{
    if width > 0 {
        lemma_le_val_bound(s, pos + 1, (width - 1) as nat);
        assert(s[pos] + 256 * le_val(s, pos + 1, (width - 1) as nat) < 256 * pow256(
            (width - 1) as nat,
        )) by (nonlinear_arith)
            requires
                s[pos] < 256,
                le_val(s, pos + 1, (width - 1) as nat) < pow256((width - 1) as nat),
        ;
    }
}

pub proof fn lemma_pow256_le(a: nat, b: nat)
    requires
        a <= b,
    ensures
        pow256(a) <= pow256(b),
    decreases b,
{
    if a < b && b > 0 {
        lemma_pow256_le(a, (b - 1) as nat);
        assert(pow256((b - 1) as nat) <= 256 * pow256((b - 1) as nat)) by (nonlinear_arith)
            requires
                pow256((b - 1) as nat) >= 0,
        ;
    }
}

/// Reads `width` little-endian bytes of `bytes` at `pos` as an unsigned
/// integer; `None` when the buffer is too short.
pub fn read_le_uint(bytes: &[u8], pos: usize, width: usize) -> (r: Option<(u64, usize)>)
    requires
        width <= 8,
    ensures
        match r {
            Some(v) => pos + width <= bytes@.len() && v.0 == le_val(bytes@, pos as int, width as nat)
                && v.1 == pos + width,
            None => pos + width > bytes@.len(),
        },
{
    if bytes.len() < width || pos > bytes.len() - width {
        return None;
    }
    let mut acc: u64 = 0;
    let mut i: usize = width;
    while i > 0
        invariant
            i <= width,
            width <= 8,
            pos + width <= bytes@.len(),
            pos + width <= usize::MAX,
            acc == le_val(bytes@, pos + i, (width - i) as nat),
        decreases i,
    {
        i = i - 1;
        proof {
            lemma_le_val_bound(bytes@, pos + i + 1, (width - i - 1) as nat);
            lemma_pow256_le((width - i - 1) as nat, 7);
            reveal_with_fuel(pow256, 9);
            assert(pow256(7) == 0x100000000000000);
        }
        acc = acc * 256 + (bytes[pos + i] as u64);
    }
    Some((acc, pos + width))
}

/// Signed reinterpretation of a `width`-byte little-endian value.
pub open spec fn twos_complement(v: nat, width: nat) -> int {
    if 2 * v >= pow256(width) {
        v - pow256(width)
    } else {
        v as int
    }
}

/// Reads `width` little-endian bytes at `pos` as a signed (two's-complement)
/// integer; `None` when the buffer is too short.
pub fn read_le_int(bytes: &[u8], pos: usize, width: usize) -> (r: Option<(i64, usize)>)
    requires
        1 <= width <= 8,
    ensures
        match r {
            Some(v) => pos + width <= bytes@.len() && v.0 == twos_complement(
                le_val(bytes@, pos as int, width as nat),
                width as nat,
            ) && v.1 == pos + width,
            None => pos + width > bytes@.len(),
        },
{
    let (v, end) = match read_le_uint(bytes, pos, width) {
        Some(p) => p,
        None => {
            return None;
        },
    };
    let half: u64 = match width {
        1 => 0x80,
        2 => 0x8000,
        3 => 0x800000,
        4 => 0x80000000,
        5 => 0x8000000000,
        6 => 0x800000000000,
        7 => 0x80000000000000,
        _ => 0x8000000000000000,
    };
    proof {
        reveal_with_fuel(pow256, 9);
        assert(2 * (half as nat) == pow256(width as nat));
        lemma_le_val_bound(bytes@, pos as int, width as nat);
    }
    if v >= half {
        // The value v - pow256(width) is negative; compute it without
        // overflow as -(pow256(width) - 1 - v) - 1.
        let max: u64 = half - 1 + half;
        let neg: u64 = max - v;
        Some((-(neg as i64) - 1, end))
    } else {
        Some((v as i64, end))
    }
}

/// Base-128 little-endian variable-length unsigned integer at `pos`: each
/// byte contributes its low 7 bits; a set high bit continues the number.
pub open spec fn spec_varint(s: Seq<u8>, pos: int) -> Option<(nat, int)>
    decreases s.len() - pos,
{
    if pos < 0 || pos >= s.len() {
        None
    } else if s[pos] < 0x80 {
        Some((s[pos] as nat, pos + 1))
    } else {
        match spec_varint(s, pos + 1) {
            None => None,
            Some((v, end)) => Some((((s[pos] - 0x80) + 128 * v) as nat, end)),
        }
    }
}

/// Reads a base-128 variable-length unsigned integer; `None` when the buffer
/// ends inside the number or its value does not fit in 64 bits.
pub fn read_varint(bytes: &[u8], pos: usize) -> (r: Option<(u64, usize)>)
    ensures
        match r {
            Some(v) => spec_varint(bytes@, pos as int) == Some((v.0 as nat, v.1 as int)) && pos < v.1
                <= bytes@.len(),
            None => match spec_varint(bytes@, pos as int) {
                None => true,
                Some(v) => v.0 > u64::MAX,
            },
        },
    decreases bytes@.len() - pos,
{
    if pos >= bytes.len() {
        return None;
    }
    let b = bytes[pos];
    if b < 0x80 {
        return Some((b as u64, pos + 1));
    }
    let (v, end) = match read_varint(bytes, pos + 1) {
        Some(p) => p,
        None => {
            return None;
        },
    };
    if v > 0x1ffffffffffffff {
        assert((bytes@[pos as int] - 0x80) + 128 * (v as nat) > u64::MAX) by (nonlinear_arith)
            requires
                v > 0x1ffffffffffffff,
                bytes@[pos as int] >= 0x80,
        ;
        return None;
    }
    assert((b - 0x80) + 128 * v <= u64::MAX) by (nonlinear_arith)
        requires
            b < 256,
            v <= 0x1ffffffffffffff,
    ;
    Some(((b - 0x80) as u64 + 128 * v, end))
}

} // verus!
