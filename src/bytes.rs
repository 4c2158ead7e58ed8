//! Primitive decoders: big-endian integers and the 1 to 9 byte varint.

use vstd::prelude::*;

verus! {

/// `256` raised to the power `w`.
pub open spec fn pow256(w: nat) -> nat
    decreases w,
{
    if w == 0 {
        1
    } else {
        256 * pow256((w - 1) as nat)
    }
}

/// `128` raised to the power `k`.
pub open spec fn pow128(k: nat) -> nat
    decreases k,
{
    if k == 0 {
        1
    } else {
        128 * pow128((k - 1) as nat)
    }
}

/// Unsigned value of the big-endian bytes `s`.
pub open spec fn be_value(s: Seq<u8>) -> nat
    decreases s.len(),
{
    if s.len() == 0 {
        0
    } else {
        be_value(s.drop_last()) * 256 + s.last() as nat
    }
}

/// Two's-complement reading of the `w`-byte unsigned value `v`.
pub open spec fn signed_of(v: nat, w: nat) -> int {
    if v >= pow256(w) / 2 {
        v - pow256(w)
    } else {
        v as int
    }
}

/// The `w` bytes at `pos` of `s`, when they are all inside `s`.
pub open spec fn field(s: Seq<u8>, pos: int, w: int) -> Option<Seq<u8>> {
    if 0 <= pos && 0 <= w && pos + w <= s.len() {
        Some(s.subrange(pos, pos + w))
    } else {
        None
    }
}

/// Unsigned big-endian integer of `w` bytes at `pos`.
pub open spec fn be_uint_at(s: Seq<u8>, pos: int, w: int) -> Option<nat> {
    match field(s, pos, w) {
        Some(b) => Some(be_value(b)),
        None => None,
    }
}

/// Signed big-endian integer of `w` bytes at `pos`.
pub open spec fn be_int_at(s: Seq<u8>, pos: int, w: int) -> Option<int> {
    match field(s, pos, w) {
        Some(b) => Some(signed_of(be_value(b), w as nat)),
        None => None,
    }
}

/// Varint decoding after `k` bytes have been read from `pos` into `acc`:
/// the value and the position just past the varint.
pub open spec fn varint_step(s: Seq<u8>, pos: int, k: nat, acc: int) -> Option<(int, int)>
    decreases 9 - k,
{
    if k >= 9 || pos < 0 || pos + k >= s.len() {
        None
    } else if k == 8 {
        Some((acc * 256 + s[pos + 8] as int, pos + 9))
    } else if s[pos + k] < 128 {
        Some((acc * 128 + s[pos + k] as int, pos + k + 1))
    } else {
        varint_step(s, pos, k + 1, acc * 128 + (s[pos + k] - 128))
    }
}

/// The varint at `pos` of `s`: its value and the position just past it.
pub open spec fn varint_at(s: Seq<u8>, pos: int) -> Option<(int, int)> {
    varint_step(s, pos, 0, 0)
}

proof fn lemma_pow_facts()
    ensures
        pow256(1) == 0x100,
        pow256(2) == 0x1_0000,
        pow256(3) == 0x100_0000,
        pow256(4) == 0x1_0000_0000,
        pow256(6) == 0x1_0000_0000_0000,
        pow256(7) == 0x100_0000_0000_0000,
        pow256(8) == 0x1_0000_0000_0000_0000,
        pow128(8) == 0x100_0000_0000_0000,
{
    reveal_with_fuel(pow256, 9);
    reveal_with_fuel(pow128, 9);
}

proof fn lemma_pow256_mono(i: nat, j: nat)
    requires
        i <= j,
    ensures
        pow256(i) <= pow256(j),
    decreases j,
{
    if i < j {
        lemma_pow256_mono(i, (j - 1) as nat);
    }
}

proof fn lemma_pow128_mono(i: nat, j: nat)
    requires
        i <= j,
    ensures
        pow128(i) <= pow128(j),
    decreases j,
{
    if i < j {
        lemma_pow128_mono(i, (j - 1) as nat);
    }
}

/// Reads the unsigned big-endian integer of `width` bytes at `pos`.
pub fn read_be_uint(s: &[u8], pos: usize, width: usize) -> (r: Option<u64>)
    requires
        1 <= width <= 8,
    ensures
        match r {
            Some(v) => be_uint_at(s@, pos as int, width as int) == Some(v as nat),
            None => be_uint_at(s@, pos as int, width as int) is None,
        },
{
    if width > s.len() || pos > s.len() - width {
        return None;
    }
    let n = s.len();
    let mut acc: u64 = 0;
    let mut i: usize = 0;
    while i < width
        invariant
            i <= width <= 8,
            n == s@.len(),
            pos + width <= n,
            acc as nat == be_value(s@.subrange(pos as int, pos + i)),
            acc < pow256(i as nat),
        decreases width - i,
    {
        proof {
            let a = s@.subrange(pos as int, pos + i + 1);
            assert(a.drop_last() =~= s@.subrange(pos as int, pos + i));
            lemma_pow_facts();
            lemma_pow256_mono(i as nat, 7);
            let p = pow256(i as nat);
            assert((acc as int) * 256 + 255 < p * 256) by (nonlinear_arith)
                requires
                    acc < p,
            ;
        }
        acc = acc * 256 + s[pos + i] as u64;
        i += 1;
    }
    Some(acc)
}

/// Reads the big-endian `u16` at `pos`.
pub fn read_be_u16(s: &[u8], pos: usize) -> (r: Option<u16>)
    ensures
        match r {
            Some(v) => be_uint_at(s@, pos as int, 2) == Some(v as nat),
            None => be_uint_at(s@, pos as int, 2) is None,
        },
{
    match read_be_uint(s, pos, 2) {
        Some(v) => {
            proof {
                lemma_pow_facts();
                lemma_be_value_bound(s@.subrange(pos as int, pos + 2));
            }
            Some(v as u16)
        },
        None => None,
    }
}

/// Reads the big-endian `u32` at `pos`.
pub fn read_be_u32(s: &[u8], pos: usize) -> (r: Option<u32>)
    ensures
        match r {
            Some(v) => be_uint_at(s@, pos as int, 4) == Some(v as nat),
            None => be_uint_at(s@, pos as int, 4) is None,
        },
{
    match read_be_uint(s, pos, 4) {
        Some(v) => {
            proof {
                lemma_pow_facts();
                lemma_be_value_bound(s@.subrange(pos as int, pos + 4));
            }
            Some(v as u32)
        },
        None => None,
    }
}

/// A big-endian value of `n` bytes is below `256^n`.
pub proof fn lemma_be_value_bound(s: Seq<u8>)
    ensures
        be_value(s) < pow256(s.len()),
    decreases s.len(),
{
    if s.len() > 0 {
        lemma_be_value_bound(s.drop_last());
        let p = pow256((s.len() - 1) as nat);
        let v = be_value(s.drop_last());
        assert(v * 256 + 255 < p * 256) by (nonlinear_arith)
            requires
                v < p,
        ;
    }
}

/// Reads the signed big-endian integer of `width` bytes at `pos`.
pub fn read_be_int(s: &[u8], pos: usize, width: usize) -> (r: Option<i64>)
    requires
        width == 1 || width == 2 || width == 3 || width == 4 || width == 6 || width == 8,
    ensures
        match r {
            Some(v) => be_int_at(s@, pos as int, width as int) == Some(v as int),
            None => be_int_at(s@, pos as int, width as int) is None,
        },
{
    match read_be_uint(s, pos, width) {
        None => None,
        Some(u) => {
            proof {
                lemma_pow_facts();
            }
            let full: i128 = if width == 1 {
                0x100
            } else if width == 2 {
                0x1_0000
            } else if width == 3 {
                0x100_0000
            } else if width == 4 {
                0x1_0000_0000
            } else if width == 6 {
                0x1_0000_0000_0000
            } else {
                0x1_0000_0000_0000_0000
            };
            proof {
                lemma_be_value_bound(s@.subrange(pos as int, pos + width));
            }
            let v: i128 = u as i128;
            let signed: i128 = if v >= full / 2 {
                v - full
            } else {
                v
            };
            Some(signed as i64)
        },
    }
}

/// Reads the 6-byte big-endian two's-complement integer at `pos`.
pub fn be_i48(s: &[u8], pos: usize) -> (r: Option<i64>)
    ensures
        match r {
            Some(v) => be_int_at(s@, pos as int, 6) == Some(v as int),
            None => be_int_at(s@, pos as int, 6) is None,
        },
{
    read_be_int(s, pos, 6)
}

/// Reads the varint at `pos`: its value and the position just past it.
/// Bytes one to eight give seven bits each while their top bit is set;
/// a ninth byte gives all eight of its bits.
pub fn be_u64_varint(s: &[u8], pos: usize) -> (r: Option<(u64, usize)>)
    ensures
        match r {
            Some((v, end)) => varint_at(s@, pos as int) == Some((v as int, end as int)),
            None => varint_at(s@, pos as int) is None,
        },
{
    let mut acc: u64 = 0;
    let mut k: usize = 0;
    while k < 9
        invariant
            k <= 8,
            acc < pow128(k as nat),
            varint_at(s@, pos as int) == varint_step(s@, pos as int, k as nat, acc as int),
        decreases 9 - k,
    {
        proof {
            lemma_pow_facts();
            lemma_pow128_mono(k as nat, 8);
        }
        if pos >= s.len() || k >= s.len() - pos {
            return None;
        }
        let b = s[pos + k];
        if k == 8 {
            return Some((acc * 256 + b as u64, pos + 9));
        }
        proof {
            lemma_pow128_mono(k as nat, 7);
            let p = pow128(k as nat);
            assert((acc as int) * 128 + 127 < p * 128) by (nonlinear_arith)
                requires
                    acc < p,
            ;
        }
        if b < 128 {
            return Some((acc * 128 + b as u64, pos + k + 1));
        }
        acc = acc * 128 + (b - 128) as u64;
        k += 1;
    }
    None
}

} // verus!
