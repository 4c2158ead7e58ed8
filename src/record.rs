//! Record decoding: the serial-type header, shared between records of one
//! shape through a cache, and the column values of the local body.

use std::sync::Arc;
use vstd::prelude::*;

use crate::bytes::{be_u64_varint, pow128, read_be_int, read_be_uint, varint_at, varint_step};
use crate::error::{parsing_error, Result};
use crate::model::{
    column_value, opt_value, serial_type_of, values_view, Payload, RawText, SerialType,
    TableCellPayload, Value,
};

verus! {

broadcast use vstd::std_specs::hash::group_hash_axioms;

/// Serial-type codes of a record header region `h`, read from `pos`, after `acc`.
pub open spec fn codes_from(h: Seq<u8>, pos: int, acc: Seq<u64>) -> Option<Seq<u64>>
    decreases h.len() - pos,
{
    if pos >= h.len() {
        if pos == h.len() {
            Some(acc)
        } else {
            None
        }
    } else {
        match varint_at(h, pos) {
            None => None,
            Some((v, next)) => if next <= pos || next > h.len() {
                None
            } else {
                codes_from(h, next, acc.push(v as u64))
            },
        }
    }
}

/// The serial types that the header region `h` lists.
pub open spec fn header_types(h: Seq<u8>) -> Option<Seq<SerialType>> {
    match codes_from(h, 0, Seq::empty()) {
        Some(codes) => Some(codes.map_values(|c: u64| serial_type_of(c))),
        None => None,
    }
}

/// Offset in the body of column `i`.
pub open spec fn col_offset(types: Seq<SerialType>, i: int) -> int
    decreases i,
{
    if i <= 0 {
        0
    } else {
        col_offset(types, i - 1) + types[i - 1].spec_size()
    }
}

/// The values of the columns of `types` in `body`. A column that does not lie
/// wholly inside `body` has no value.
pub open spec fn body_columns(types: Seq<SerialType>, body: Seq<u8>) -> Seq<Option<Value>> {
    Seq::new(
        types.len(),
        |i: int|
            {
                let off = col_offset(types, i);
                let end = off + types[i].spec_size();
                if end <= body.len() {
                    column_value(types[i], body.subrange(off, end))
                } else {
                    None
                }
            },
    )
}

/// A record header that lists a reserved serial type.
pub open spec fn has_reserved(types: Seq<SerialType>) -> bool {
    exists|i: int| 0 <= i < types.len() && types[i] is Reserved
}

/// Where the header of record `rec` ends and what it lists.
pub open spec fn record_header(rec: Seq<u8>) -> Option<(int, Seq<SerialType>)> {
    match varint_at(rec, 0) {
        None => None,
        Some((hs, p)) => if hs < p || hs > rec.len() {
            None
        } else {
            match header_types(rec.subrange(p, hs)) {
                Some(types) => if has_reserved(types) {
                    None
                } else {
                    Some((hs, types))
                },
                None => None,
            }
        },
    }
}

/// The serial types and column values of the record whose local bytes are `rec`.
pub open spec fn spec_record(rec: Seq<u8>) -> Option<(Seq<SerialType>, Seq<Option<Value>>)> {
    match record_header(rec) {
        Some((hs, types)) => Some((types, body_columns(types, rec.subrange(hs, rec.len() as int)))),
        None => None,
    }
}

/// A varint takes one to nine bytes and its value fits 64 bits.
pub proof fn lemma_varint_bounds(s: Seq<u8>, pos: int)
    ensures
        match varint_at(s, pos) {
            Some((v, e)) => pos < e <= pos + 9 && 0 <= v < 0x1_0000_0000_0000_0000 && e <= s.len(),
            None => true,
        },
{
    lemma_varint_step_bounds(s, pos, 0, 0);
}

proof fn lemma_varint_step_bounds(s: Seq<u8>, pos: int, k: nat, acc: int)
    requires
        k <= 8,
        0 <= acc < pow128(k),
    ensures
        match varint_step(s, pos, k, acc) {
            Some((v, e)) => pos + k < e <= pos + 9 && 0 <= v < 0x1_0000_0000_0000_0000 && e
                <= s.len(),
            None => true,
        },
    decreases 9 - k,
{
    reveal_with_fuel(pow128, 9);
    lemma_pow128_le(k);
    if k < 9 && pos >= 0 && pos + k < s.len() {
        let b = s[pos + k] as int;
        if k == 8 {
            assert(acc * 256 + b < 0x1_0000_0000_0000_0000) by (nonlinear_arith)
                requires
                    acc < 0x100_0000_0000_0000,
                    b < 256,
            ;
        } else {
            let p = pow128(k);
            assert(acc * 128 + 127 < p * 128) by (nonlinear_arith)
                requires
                    acc < p,
            ;
            if s[pos + k] >= 128 {
                lemma_varint_step_bounds(s, pos, k + 1, acc * 128 + (s[pos + k] - 128));
            }
        }
    }
}

proof fn lemma_pow128_le(k: nat)
    requires
        k <= 8,
    ensures
        pow128(k) <= 0x100_0000_0000_0000,
        k <= 7 ==> pow128(k) <= 0x2_0000_0000_0000,
{
    reveal_with_fuel(pow128, 9);
}

/// Relies on ahash's `RandomState::hash_one`, with fixed seeds, for a
/// fingerprint of a record header; nothing is assumed of its value.
#[verifier::external_body]
fn header_fingerprint(b: &[u8]) -> u64 {
    ahash::RandomState::with_seeds(0, 0, 0, 0).hash_one(b)
}

/// Relies on `Arc::clone`: the new handle shares the same vector.
#[verifier::external_body]
fn share_types(a: &Arc<Vec<SerialType>>) -> (r: Arc<Vec<SerialType>>)
    ensures
        r@ == a@,
{
    Arc::clone(a)
}

/// A record header seen before, with the serial types it lists.
pub struct CachedShape {
    pub header: Vec<u8>,
    pub types: Arc<Vec<SerialType>>,
}

/// Record shapes met so far, found by a fingerprint of their header bytes.
pub struct HeaderCache {
    pub index: std::collections::HashMap<u64, usize>,
    pub shapes: Vec<CachedShape>,
}

impl HeaderCache {
    /// Every entry points at a stored shape whose types are those its bytes list.
    pub open spec fn wf(&self) -> bool {
        &&& forall|k: u64| #[trigger]
            self.index@.contains_key(k) ==> self.index@[k] < self.shapes@.len()
        &&& forall|i: int|
            0 <= i < self.shapes@.len() ==> header_types(#[trigger] self.shapes@[i].header@)
                == Some(self.shapes@[i].types@)
    }

    pub fn new() -> (r: HeaderCache)
        ensures
            r.wf(),
    {
        HeaderCache { index: std::collections::HashMap::new(), shapes: Vec::new() }
    }

    /// The stored types of header region `h`, when `h` was met before under fingerprint `fp`.
    fn lookup(&self, fp: u64, h: &[u8]) -> (r: Option<Arc<Vec<SerialType>>>)
        requires
            self.wf(),
        ensures
            r matches Some(t) ==> header_types(h@) == Some(t@),
    {
        match self.index.get(&fp) {
            Some(i) => {
                let shape = &self.shapes[*i];
                if same_bytes(shape.header.as_slice(), h) {
                    Some(share_types(&shape.types))
                } else {
                    None
                }
            },
            None => None,
        }
    }

    /// Stores the types of header region `h` under fingerprint `fp`.
    fn install(&mut self, fp: u64, h: &[u8], types: &Arc<Vec<SerialType>>)
        requires
            old(self).wf(),
            header_types(h@) == Some(types@),
        ensures
            final(self).wf(),
            final(self).shapes@.len() == old(self).shapes@.len() + 1,
    {
        let n = self.shapes.len();
        self.shapes.push(CachedShape { header: vstd::slice::slice_to_vec(h), types: share_types(types) });
        self.index.insert(fp, n);
    }

    /// Number of record shapes held.
    pub fn len(&self) -> (r: usize)
        ensures
            r == self.shapes@.len(),
    {
        self.shapes.len()
    }
}

/// Whether two byte slices are equal.
pub fn same_bytes(a: &[u8], b: &[u8]) -> (r: bool)
    ensures
        r == (a@ == b@),
{
    if a.len() != b.len() {
        return false;
    }
    let mut i: usize = 0;
    while i < a.len()
        invariant
            i <= a@.len() == b@.len(),
            forall|j: int| 0 <= j < i ==> a@[j] == b@[j],
        decreases a.len() - i,
    {
        if a[i] != b[i] {
            return false;
        }
        i += 1;
    }
    proof {
        assert(a@ =~= b@);
    }
    true
}

/// Parses the serial types listed by the header region `h`.
fn column_types(h: &[u8]) -> (r: Result<Vec<SerialType>>)
    ensures
        match r {
            Ok(v) => header_types(h@) == Some(v@),
            Err(e) => header_types(h@) is None && e is ParsingError,
        },
{
    let mut types: Vec<SerialType> = Vec::new();
    let ghost mut codes: Seq<u64> = Seq::empty();
    let mut pos: usize = 0;
    while pos < h.len()
        invariant
            pos <= h@.len(),
            codes_from(h@, 0, Seq::empty()) == codes_from(h@, pos as int, codes),
            types@ == codes.map_values(|c: u64| serial_type_of(c)),
        decreases h@.len() - pos,
    {
        proof {
            lemma_varint_bounds(h@, pos as int);
        }
        match be_u64_varint(h, pos) {
            None => return Err(parsing_error("bad varint in record header")),
            Some((val, next)) => {
                types.push(SerialType::from_code(val));
                proof {
                    codes = codes.push(val);
                    assert(types@ =~= codes.map_values(|c: u64| serial_type_of(c)));
                }
                pos = next;
            },
        }
    }
    Ok(types)
}

/// Decodes the record whose local bytes are `rec`: its serial types, shared
/// through `cache` with earlier records of the same header bytes, and the
/// values of the columns that lie wholly within `rec`.
#[verifier::loop_isolation(false)]
pub fn table_cell_payload_cached<'a>(rec: &'a [u8], cache: &mut HeaderCache) -> (r: Result<
    (TableCellPayload, Vec<Option<Payload<'a>>>),
>)
    requires
        old(cache).wf(),
    ensures
        final(cache).wf(),
        match r {
            Ok((p, vals)) => spec_record(rec@) == Some((p.column_types@, values_view(vals@))),
            Err(e) => spec_record(rec@) is None && e is ParsingError,
        },
{
    proof {
        lemma_varint_bounds(rec@, 0);
    }
    let (header_size, p) = match be_u64_varint(rec, 0) {
        None => return Err(parsing_error("bad record header size")),
        Some(x) => x,
    };
    if header_size < p as u64 || header_size > rec.len() as u64 {
        return Err(parsing_error("record header size out of range"));
    }
    let hs = header_size as usize;
    let h = vstd::slice::slice_subrange(rec, p, hs);
    let fp = header_fingerprint(h);
    let types = match cache.lookup(fp, h) {
        Some(t) => t,
        None => {
            let v = match column_types(h) {
                Ok(v) => v,
                Err(e) => return Err(e),
            };
            let t = Arc::new(v);
            cache.install(fp, h, &t);
            t
        },
    };
    let mut i: usize = 0;
    while i < types.len()
        invariant
            i <= types@.len(),
            forall|j: int| 0 <= j < i ==> !(types@[j] is Reserved),
        decreases types@.len() - i,
    {
        if let SerialType::Reserved = types[i] {
            proof {
                assert(has_reserved(types@));
            }
            return Err(parsing_error("reserved serial type"));
        }
        i += 1;
    }
    let body = vstd::slice::slice_subrange(rec, hs, rec.len());
    let values = decode_columns(&types, body);
    Ok((TableCellPayload { column_types: types }, values))
}

/// Decodes the columns of `types` that lie wholly within `body`.
fn decode_columns<'a>(types: &Vec<SerialType>, body: &'a [u8]) -> (r: Vec<Option<Payload<'a>>>)
    requires
        forall|j: int| 0 <= j < types@.len() ==> (#[trigger] types@[j]).wf() && !(types@[j] is Reserved),
    ensures
        values_view(r@) == body_columns(types@, body@),
{
    let mut values: Vec<Option<Payload<'a>>> = Vec::new();
    let mut off: usize = 0;
    let mut past = false;
    let mut i: usize = 0;
    while i < types.len()
        invariant
            i <= types@.len(),
            forall|j: int| 0 <= j < types@.len() ==> (#[trigger] types@[j]).wf() && !(types@[j] is Reserved),
            values@.len() == i,
            !past ==> off == col_offset(types@, i as int) && off <= body@.len(),
            past ==> col_offset(types@, i as int) > body@.len(),
            forall|j: int| 0 <= j < i ==> opt_value(#[trigger] values@[j]) == body_columns(types@, body@)[j],
        decreases types@.len() - i,
    {
        let t = &types[i];
        let size = t.size();
        proof {
            assert(col_offset(types@, i + 1) == col_offset(types@, i as int) + types@[i as int].spec_size());
        }
        if !past && size <= (body.len() - off) as u64 {
            let end = off + size as usize;
            let data = vstd::slice::slice_subrange(body, off, end);
            let v = match parse_single_column(t, data) {
                Ok(v) => v,
                Err(_) => None,
            };
            values.push(v);
            off = end;
        } else {
            values.push(None);
            past = true;
        }
        i += 1;
    }
    proof {
        assert(values_view(values@) =~= body_columns(types@, body@));
    }
    values
}

/// Decodes one column value from `data`, which holds exactly its bytes.
/// A reserved serial type is a format error.
pub fn parse_single_column<'a>(serial_type: &SerialType, data: &'a [u8]) -> (r: Result<Option<Payload<'a>>>)
    requires
        serial_type.wf(),
        data@.len() == serial_type.spec_size(),
    ensures
        match r {
            Ok(v) => !(*serial_type is Reserved) && opt_value(v) == column_value(*serial_type, data@),
            Err(e) => *serial_type is Reserved && e is ParsingError,
        },
{
    proof {
        assert(data@.subrange(0, data@.len() as int) =~= data@);
    }
    let v = match serial_type {
        SerialType::Null => None,
        SerialType::I8 => match read_be_int(data, 0, 1) {
            Some(v) => Some(Payload::I64(v)),
            None => None,
        },
        SerialType::I16 => match read_be_int(data, 0, 2) {
            Some(v) => Some(Payload::I64(v)),
            None => None,
        },
        SerialType::I24 => match read_be_int(data, 0, 3) {
            Some(v) => Some(Payload::I64(v)),
            None => None,
        },
        SerialType::I32 => match read_be_int(data, 0, 4) {
            Some(v) => Some(Payload::I64(v)),
            None => None,
        },
        SerialType::I48 => match read_be_int(data, 0, 6) {
            Some(v) => Some(Payload::I64(v)),
            None => None,
        },
        SerialType::I64 => match read_be_int(data, 0, 8) {
            Some(v) => Some(Payload::I64(v)),
            None => None,
        },
        SerialType::F64 => match read_be_uint(data, 0, 8) {
            Some(v) => Some(Payload::F64(v)),
            None => None,
        },
        SerialType::Const0 => Some(Payload::I64(0)),
        SerialType::Const1 => Some(Payload::I64(1)),
        SerialType::Reserved => return Err(parsing_error("reserved serial type")),
        SerialType::Blob(_) => Some(Payload::Blob(data)),
        SerialType::Text(_) => Some(Payload::Text(RawText::new(data))),
    };
    Ok(v)
}

} // verus!
