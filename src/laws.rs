//! Laws of the format that the decoders obey.

use vstd::prelude::*;

use crate::bytes::{be_value, pow128, pow256, signed_of, varint_at, varint_step};
use crate::csv::output_values;
use crate::export::exported_types;
use crate::model::{local_size, max_local, min_local, serial_type_of, PageSize, SerialType};
use crate::parser::page_size_of_field;
use crate::record::{col_offset, spec_record};
use crate::{overflow_chain, page_window};
use crate::model::DbHeader;

verus! {

/// Every page but the first has its content window at the start of the page:
/// the `usable` bytes from `page_size · (p − 1)`, when they are in the file.
pub proof fn lemma_page_window_from_page_start(len: int, page_size: int, usable: int, p: int)
    requires
        p >= 2,
    ensures
        page_window(len, page_size, usable, p) is Some <==> page_size * (p - 1) + usable <= len,
        page_window(len, page_size, usable, p) matches Some((s, e)) ==> s == page_size * (p - 1)
            && e == page_size * (p - 1) + usable,
{
}

/// A payload splits into a local part and an overflow part that add up to it:
/// the local part is at most the payload and at most the largest local size.
pub proof fn lemma_payload_split(usable: int, payload_size: int)
    requires
        257 <= usable <= 65536,
        payload_size >= 0,
    ensures
        0 <= local_size(usable, payload_size) <= payload_size,
        local_size(usable, payload_size) <= max_local(usable),
        local_size(usable, payload_size) + (payload_size - local_size(usable, payload_size))
            == payload_size,
        payload_size > max_local(usable) ==> payload_size - local_size(usable, payload_size) >= 1,
{
    assert((usable - 12) * 32 / 255 >= 30) by (nonlinear_arith)
        requires
            usable >= 257,
    ;
    assert(min_local(usable) >= 7);
    assert((usable - 12) * 32 / 255 <= (usable - 12) * 32) by (nonlinear_arith)
        requires
            usable >= 257,
    ;
}

/// A payload of exactly the largest local size stays on its page; one byte
/// more spills at least one byte to an overflow page.
pub proof fn lemma_max_local_boundary(usable: int)
    requires
        257 <= usable <= 65536,
    ensures
        local_size(usable, max_local(usable)) == max_local(usable),
        max_local(usable) + 1 > max_local(usable),
        (max_local(usable) + 1) - local_size(usable, max_local(usable) + 1) >= 1,
{
    lemma_payload_split(usable, max_local(usable) + 1);
}

/// An overflow chain yields at most the bytes asked for.
pub proof fn lemma_chain_at_most(buf: Seq<u8>, h: DbHeader, p: int, want: nat)
    ensures
        overflow_chain(buf, h, p, want) matches Some(t) ==> t.len() <= want,
    decreases want,
{
    if want > 0 {
        match crate::overflow_page_at(buf, h, p) {
            Some((next, data)) => {
                let take: nat = if want < data.len() {
                    want
                } else {
                    data.len()
                };
                if !(next == 0 || take == want || take == 0) {
                    lemma_chain_at_most(buf, h, next as int, (want - take) as nat);
                }
            },
            None => {},
        }
    }
}

/// The overflow chain from page `p` ends, by a next page of 0, before `want`
/// bytes are read.
pub open spec fn chain_ends_early(buf: Seq<u8>, h: DbHeader, p: int, want: nat) -> bool
    decreases want,
{
    if want == 0 {
        false
    } else {
        match crate::overflow_page_at(buf, h, p) {
            None => false,
            Some((next, data)) => {
                let take: nat = if want < data.len() {
                    want
                } else {
                    data.len()
                };
                if take == want {
                    false
                } else if next == 0 || take == 0 {
                    true
                } else {
                    chain_ends_early(buf, h, next as int, (want - take) as nat)
                }
            },
        }
    }
}

/// A chain that reads yields all the bytes asked for exactly when it does
/// not end early.
pub proof fn lemma_chain_length(buf: Seq<u8>, h: DbHeader, p: int, want: nat)
    ensures
        overflow_chain(buf, h, p, want) matches Some(t) ==> (t.len() == want
            <==> !chain_ends_early(buf, h, p, want)),
    decreases want,
{
    lemma_chain_at_most(buf, h, p, want);
    if want > 0 {
        match crate::overflow_page_at(buf, h, p) {
            Some((next, data)) => {
                let take: nat = if want < data.len() {
                    want
                } else {
                    data.len()
                };
                if !(next == 0 || take == want || take == 0) {
                    lemma_chain_length(buf, h, next as int, (want - take) as nat);
                }
            },
            None => {},
        }
    }
}

/// The local bytes and the overflow chain of a spilled cell add up to its
/// payload size when the chain does not end early.
pub proof fn lemma_full_payload_length<'c>(buf: Seq<u8>, h: DbHeader, cell: &crate::model::LeafTableCell<'c>)
    requires
        cell.overflow_page_no is Some,
        cell.local_payload@.len() <= cell.payload_size,
        !chain_ends_early(
            buf,
            h,
            cell.overflow_page_no.unwrap() as int,
            (cell.payload_size - cell.local_payload@.len()) as nat,
        ),
    ensures
        crate::full_payload(buf, h, cell) matches Some(v) ==> v.len() == cell.payload_size,
{
    lemma_chain_length(
        buf,
        h,
        cell.overflow_page_no.unwrap() as int,
        (cell.payload_size - cell.local_payload@.len()) as nat,
    );
}

/// The stored page size 1 stands for 65536.
pub proof fn lemma_page_size_one()
    ensures
        PageSize(1).spec_real_size() == 65536,
        page_size_of_field(1) == 65536,
{
}

/// A decoded record has one value for each serial type of its header.
pub proof fn lemma_record_values_per_type(rec: Seq<u8>)
    ensures
        spec_record(rec) matches Some((types, values)) ==> values.len() == types.len(),
{
}

/// The size of each serial type is the one the format gives, and the columns
/// of a record follow one another: each begins where the one before ended.
pub proof fn lemma_serial_type_sizes(n: u64, types: Seq<SerialType>, i: int)
    requires
        n <= 9 || n >= 12,
        0 <= i < types.len(),
    ensures
        n == 0 ==> serial_type_of(n).spec_size() == 0,
        n == 1 ==> serial_type_of(n).spec_size() == 1,
        n == 2 ==> serial_type_of(n).spec_size() == 2,
        n == 3 ==> serial_type_of(n).spec_size() == 3,
        n == 4 ==> serial_type_of(n).spec_size() == 4,
        n == 5 ==> serial_type_of(n).spec_size() == 6,
        n == 6 ==> serial_type_of(n).spec_size() == 8,
        n == 7 ==> serial_type_of(n).spec_size() == 8,
        n == 8 || n == 9 ==> serial_type_of(n).spec_size() == 0,
        n >= 12 && n % 2 == 0 ==> serial_type_of(n).spec_size() == (n - 12) / 2,
        n >= 13 && n % 2 == 1 ==> serial_type_of(n).spec_size() == (n - 13) / 2,
        col_offset(types, i + 1) == col_offset(types, i) + types[i].spec_size(),
{
}

/// The leading absent value of a row, which stands for the rowid alias, is
/// not written; nor is the leading NULL column of the export schema.
pub proof fn lemma_leading_null_dropped<T>(vs: Seq<Option<T>>, types: Seq<SerialType>)
    ensures
        vs.len() > 0 && vs[0] is None ==> output_values(vs) == vs.drop_first(),
        vs.len() > 0 && vs[0] is Some ==> output_values(vs) == vs,
        types.len() > 0 && types[0] is Null ==> exported_types(types) == types.drop_first(),
{
}

/// The bytes of the `w`-byte big-endian form of `v`.
pub open spec fn be_bytes(v: nat, w: nat) -> Seq<u8>
    decreases w,
{
    if w == 0 {
        Seq::empty()
    } else {
        be_bytes(v / 256, (w - 1) as nat).push((v % 256) as u8)
    }
}

/// Reading back the `w`-byte big-endian form of `v` gives `v` modulo `256^w`.
pub proof fn lemma_be_bytes_value(v: nat, w: nat)
    ensures
        be_bytes(v, w).len() == w,
        be_value(be_bytes(v, w)) == v % pow256(w),
    decreases w,
{
    if w > 0 {
        lemma_be_bytes_value(v / 256, (w - 1) as nat);
        let p = pow256((w - 1) as nat);
        assert(be_bytes(v, w).drop_last() =~= be_bytes(v / 256, (w - 1) as nat));
        assert(p > 0) by {
            lemma_pow256_pos((w - 1) as nat);
        }
        vstd::arithmetic::div_mod::lemma_mod_breakdown(v as int, 256, p as int);
        assert(pow256(w) == 256 * p);
    }
}

proof fn lemma_pow256_pos(w: nat)
    ensures
        pow256(w) > 0,
    decreases w,
{
    if w > 0 {
        lemma_pow256_pos((w - 1) as nat);
    }
}

/// The two's-complement form of a signed 48-bit value, 6 bytes big-endian,
/// reads back as that value.
pub proof fn lemma_i48_round_trip(x: int)
    requires
        -0x8000_0000_0000 <= x < 0x8000_0000_0000,
    ensures
        ({
            let v: nat = if x < 0 {
                (x + 0x1_0000_0000_0000) as nat
            } else {
                x as nat
            };
            signed_of(be_value(be_bytes(v, 6)), 6) == x
        }),
{
    reveal_with_fuel(pow256, 7);
    let v: nat = if x < 0 {
        (x + 0x1_0000_0000_0000) as nat
    } else {
        x as nat
    };
    lemma_be_bytes_value(v, 6);
    assert(v % 0x1_0000_0000_0000 == v);
}

/// Value of the 7-bit groups `g`, most significant first.
pub open spec fn groups_value(g: Seq<u8>) -> nat
    decreases g.len(),
{
    if g.len() == 0 {
        0
    } else {
        groups_value(g.drop_last()) * 128 + g.last() as nat
    }
}

/// The last `w` 7-bit groups of `m`, most significant first.
pub open spec fn groups7(m: nat, w: nat) -> Seq<u8>
    decreases w,
{
    if w == 0 {
        Seq::empty()
    } else {
        groups7(m / 128, (w - 1) as nat).push((m % 128) as u8)
    }
}

/// Number of 7-bit groups that `n` takes: at least one.
pub open spec fn group_count(n: nat) -> nat
    decreases n,
{
    if n < 128 {
        1
    } else {
        1 + group_count(n / 128)
    }
}

/// The varint form of `n`, below `2^64`: the fewest 7-bit groups, each with
/// the top bit set but the last, when that takes at most eight bytes; else
/// eight such bytes of the top 56 bits and a ninth of the low eight bits.
pub open spec fn varint_encode(n: nat) -> Seq<u8> {
    if n < 0x100_0000_0000_0000 {
        let w = group_count(n);
        let g = groups7(n, w);
        Seq::new(w, |i: int| if i < w - 1 { (g[i] + 128) as u8 } else { g[i] })
    } else {
        let g = groups7(n / 256, 8);
        Seq::new(9, |i: int| if i < 8 { (g[i] + 128) as u8 } else { (n % 256) as u8 })
    }
}

proof fn lemma_groups7(m: nat, w: nat)
    ensures
        groups7(m, w).len() == w,
        forall|i: int| 0 <= i < w ==> groups7(m, w)[i] < 128,
        groups_value(groups7(m, w)) == m % pow128(w),
    decreases w,
{
    if w > 0 {
        lemma_groups7(m / 128, (w - 1) as nat);
        let p = pow128((w - 1) as nat);
        assert(groups7(m, w).drop_last() =~= groups7(m / 128, (w - 1) as nat));
        lemma_pow128_pos((w - 1) as nat);
        vstd::arithmetic::div_mod::lemma_mod_breakdown(m as int, 128, p as int);
        assert(pow128(w) == 128 * p);
    }
}

proof fn lemma_pow128_pos(w: nat)
    ensures
        pow128(w) > 0,
    decreases w,
{
    if w > 0 {
        lemma_pow128_pos((w - 1) as nat);
    }
}

proof fn lemma_group_count(n: nat, k: nat)
    requires
        k >= 1,
        n < pow128(k),
    ensures
        1 <= group_count(n) <= k,
        n < pow128(group_count(n)),
    decreases n,
{
    reveal_with_fuel(pow128, 2);
    if n >= 128 {
        assert(k >= 2) by {
            if k == 1 {
                reveal_with_fuel(pow128, 2);
            }
        }
        assert(n / 128 < pow128((k - 1) as nat)) by {
            assert(pow128(k) == 128 * pow128((k - 1) as nat));
        }
        lemma_group_count(n / 128, (k - 1) as nat);
        let c = group_count(n / 128);
        assert(pow128(c + 1) == 128 * pow128(c));
        vstd::arithmetic::div_mod::lemma_fundamental_div_mod(n as int, 128);
    }
}

/// Decoding bytes that carry the groups `g`, all but the last flagged, from
/// group `j` on with the groups before `j` already read.
proof fn lemma_decode_groups(s: Seq<u8>, g: Seq<u8>, j: nat)
    requires
        1 <= g.len() <= 8,
        s.len() == g.len(),
        j < g.len(),
        forall|i: int| 0 <= i < g.len() ==> g[i] < 128,
        forall|i: int| 0 <= i < g.len() - 1 ==> s[i] == g[i] + 128,
        s[g.len() - 1] == g[g.len() - 1],
    ensures
        varint_step(s, 0, j, groups_value(g.subrange(0, j as int)) as int) == Some(
            (groups_value(g) as int, g.len() as int),
        ),
    decreases g.len() - j,
{
    let a = groups_value(g.subrange(0, j as int));
    assert(g.subrange(0, j as int + 1).drop_last() =~= g.subrange(0, j as int));
    if j == g.len() - 1 {
        assert(g.subrange(0, j as int + 1) =~= g);
    } else {
        lemma_decode_groups(s, g, j + 1);
    }
}

/// The same for a nine-byte varint: eight flagged groups and a last full byte.
proof fn lemma_decode_nine(s: Seq<u8>, g: Seq<u8>, j: nat)
    requires
        g.len() == 8,
        s.len() == 9,
        j <= 8,
        forall|i: int| 0 <= i < 8 ==> g[i] < 128,
        forall|i: int| 0 <= i < 8 ==> s[i] == g[i] + 128,
    ensures
        varint_step(s, 0, j, groups_value(g.subrange(0, j as int)) as int) == Some(
            ((groups_value(g) * 256 + s[8]) as int, 9int),
        ),
    decreases 8 - j,
{
    if j == 8 {
        assert(g.subrange(0, 8) =~= g);
    } else {
        assert(g.subrange(0, j as int + 1).drop_last() =~= g.subrange(0, j as int));
        lemma_decode_nine(s, g, j + 1);
    }
}

/// Every 64-bit value has a varint form of one to nine bytes that decodes
/// back to it, using all of its bytes.
pub proof fn lemma_varint_round_trip(n: u64)
    ensures
        1 <= varint_encode(n as nat).len() <= 9,
        varint_at(varint_encode(n as nat), 0) == Some(
            (n as int, varint_encode(n as nat).len() as int),
        ),
{
    reveal_with_fuel(pow128, 9);
    let s = varint_encode(n as nat);
    if n < 0x100_0000_0000_0000 {
        let w = group_count(n as nat);
        lemma_group_count(n as nat, 8);
        let g = groups7(n as nat, w);
        lemma_groups7(n as nat, w);
        vstd::arithmetic::div_mod::lemma_small_mod(n as nat, pow128(w));
        assert(g.subrange(0, 0) =~= Seq::<u8>::empty());
        lemma_decode_groups(s, g, 0);
    } else {
        let g = groups7((n / 256) as nat, 8);
        lemma_groups7((n / 256) as nat, 8);
        assert(g.subrange(0, 0) =~= Seq::<u8>::empty());
        lemma_decode_nine(s, g, 0);
        assert(pow128(8) == 0x100_0000_0000_0000);
        assert(n / 256 < 0x100_0000_0000_0000);
        vstd::arithmetic::div_mod::lemma_small_mod((n / 256) as nat, pow128(8));
    }
}

/// The 7-bit groups of bytes `s`: each byte without its top bit.
pub open spec fn low_bits(s: Seq<u8>) -> Seq<u8> {
    Seq::new(s.len(), |i: int| (s[i] % 128) as u8)
}

/// Splitting a value back into as many 7-bit groups as it was made of gives those groups.
proof fn lemma_groups7_of_value(g: Seq<u8>)
    requires
        forall|i: int| 0 <= i < g.len() ==> g[i] < 128,
    ensures
        groups7(groups_value(g), g.len()) == g,
    decreases g.len(),
{
    if g.len() > 0 {
        let init = g.drop_last();
        lemma_groups7_of_value(init);
        let v = groups_value(g);
        assert(v / 128 == groups_value(init));
        assert(v % 128 == g.last());
        assert(groups7(v, g.len()) =~= g);
    }
}

/// What a successful decoding read: a stop byte at `e − 1` below nine bytes,
/// every byte before it flagged, and the value of their groups; or nine bytes.
proof fn lemma_decoded_shape(s: Seq<u8>, j: nat, acc: int)
    requires
        j <= 8,
        acc == groups_value(low_bits(s.subrange(0, j as int))),
        forall|i: int| 0 <= i < j ==> s[i] >= 128,
        varint_step(s, 0, j, acc) is Some,
    ensures
        ({
            let (v, e) = varint_step(s, 0, j, acc).unwrap();
            &&& j < e <= 9
            &&& e <= s.len()
            &&& forall|i: int| 0 <= i < e - 1 && i < 8 ==> s[i] >= 128
            &&& e < 9 ==> s[e - 1] < 128 && v == groups_value(low_bits(s.subrange(0, e)))
            &&& e == 9 ==> v == groups_value(low_bits(s.subrange(0, 8))) * 256 + s[8]
        }),
    decreases 9 - j,
{
    let next = s.subrange(0, j as int + 1);
    assert(low_bits(next).drop_last() =~= low_bits(s.subrange(0, j as int)));
    if j < 8 && s[j as int] >= 128 {
        lemma_decoded_shape(s, j + 1, acc * 128 + (s[j as int] - 128));
    }
}

/// A varint written in the fewest bytes is the varint form of its value.
pub proof fn lemma_varint_minimal_reencodes(s: Seq<u8>)
    requires
        varint_at(s, 0) is Some,
        varint_encode(varint_at(s, 0).unwrap().0 as nat).len() == varint_at(s, 0).unwrap().1,
    ensures
        varint_encode(varint_at(s, 0).unwrap().0 as nat) == s.subrange(0, varint_at(s, 0).unwrap().1),
{
    reveal_with_fuel(pow128, 9);
    assert(low_bits(s.subrange(0, 0)) =~= Seq::<u8>::empty());
    lemma_decoded_shape(s, 0, 0);
    let (v, e) = varint_at(s, 0).unwrap();
    crate::record::lemma_varint_bounds(s, 0);
    if e < 9 {
        let g = low_bits(s.subrange(0, e));
        lemma_groups7_of_value(g);
        lemma_groups7(v as nat, e as nat);
        assert(v < pow128(e as nat));
        lemma_pow128_le_56(e as nat);
        let enc = varint_encode(v as nat);
        assert forall|i: int| 0 <= i < e implies enc[i] == s.subrange(0, e)[i] by {
            assert(g[i] == s[i] % 128);
        }
        assert(enc =~= s.subrange(0, e));
    } else {
        let h = low_bits(s.subrange(0, 8));
        lemma_groups7_of_value(h);
        lemma_groups7((v / 256) as nat, 8);
        if v < 0x100_0000_0000_0000 {
            lemma_group_count(v as nat, 8);
        }
        assert(v >= 0x100_0000_0000_0000);
        let enc = varint_encode(v as nat);
        assert(v / 256 == groups_value(h));
        assert(groups7((v / 256) as nat, 8) == h);
        assert(v % 256 == s[8]);
        assert forall|i: int| 0 <= i < 9 implies enc[i] == s.subrange(0, 9)[i] by {
            if i < 8 {
                assert(h[i] == s[i] % 128);
                assert(s[i] >= 128);
            }
        }
        assert(enc =~= s.subrange(0, 9));
    }
}

proof fn lemma_pow128_le_56(k: nat)
    requires
        k <= 8,
    ensures
        pow128(k) <= 0x100_0000_0000_0000,
    decreases k,
{
    reveal_with_fuel(pow128, 9);
}

} // verus!
