//! The data of a database file: header, page shapes, serial types and
//! column values.

use std::sync::Arc;
use vstd::prelude::*;

use crate::bytes::{be_value, signed_of};

verus! {

/// The decoded database header.
pub struct DbHeader {
    pub page_size: PageSize,
    /// number of bytes reserved at the end of each page (usually 0)
    pub reserved_size: u8,
    pub db_text_encoding: TextEncoding,
}

/// A page size one of the powers of two from 512 to 65536.
pub open spec fn valid_page_size(n: nat) -> bool {
    n == 512 || n == 1024 || n == 2048 || n == 4096 || n == 8192 || n == 16384 || n == 32768
        || n == 65536
}

impl DbHeader {
    /// The page size is one that the format allows.
    pub open spec fn wf(&self) -> bool {
        valid_page_size(self.page_size.spec_real_size())
    }

    /// Bytes of each page that hold B-tree content.
    pub open spec fn spec_usable_page_size(&self) -> nat {
        (self.page_size.spec_real_size() - self.reserved_size) as nat
    }

    /// calculate the usable page size
    pub fn usable_page_size(&self) -> (r: usize)
        requires
            self.wf(),
        ensures
            r == self.spec_usable_page_size(),
            257 <= r <= 65536,
    {
        self.page_size.real_size() - (self.reserved_size as usize)
    }
}

/// The page size field as stored: the value 1 stands for 65536.
pub struct PageSize(pub u16);

impl PageSize {
    pub open spec fn spec_real_size(&self) -> nat {
        if self.0 == 1 {
            65536
        } else {
            self.0 as nat
        }
    }

    pub fn real_size(&self) -> (r: usize)
        ensures
            r == self.spec_real_size(),
    {
        match self.0 {
            1 => 0x1_00_00,
            _ => self.0 as usize,
        }
    }
}

/// The encoding of all text in the file.
#[derive(Copy, Clone, Debug, PartialEq, Eq, Structural)]
pub enum TextEncoding {
    Utf8,
    Utf16Le,
    Utf16Be,
}

/// The encoding that the header code `c` names.
pub open spec fn encoding_of_code(c: u32) -> Option<TextEncoding> {
    if c == 1 {
        Some(TextEncoding::Utf8)
    } else if c == 2 {
        Some(TextEncoding::Utf16Le)
    } else if c == 3 {
        Some(TextEncoding::Utf16Be)
    } else {
        None
    }
}

impl TextEncoding {
    /// The encoding of header code `value`; any code but 1, 2 and 3 is unknown.
    pub fn try_from_code(value: u32) -> (r: crate::error::Result<TextEncoding>)
        ensures
            match encoding_of_code(value) {
                Some(e) => r == Ok::<TextEncoding, crate::error::SQLiteError>(e),
                None => r matches Err(crate::error::SQLiteError::UnknownTextEncodingError(c))
                    && c == value,
            },
    {
        match value {
            1 => Ok(TextEncoding::Utf8),
            2 => Ok(TextEncoding::Utf16Le),
            3 => Ok(TextEncoding::Utf16Be),
            _ => Err(crate::error::SQLiteError::UnknownTextEncodingError(value)),
        }
    }
}

/// A parsed B-tree page. Index pages are checked and skipped.
pub enum Page<'a> {
    InteriorIndex,
    LeafIndex,
    InteriorTable(InteriorTablePage),
    LeafTable(LeafTablePage<'a>),
}

pub struct InteriorPageHeader {
    pub no_cells: u16,
    pub rightmost_pointer: u32,
}

/// Interior table B-tree page
pub struct InteriorTablePage {
    pub header: InteriorPageHeader,
    pub cells: Vec<InteriorCell>,
}

pub struct InteriorCell {
    pub left_child_page_no: u32,
}

pub struct LeafPageHeader {
    pub no_cells: u16,
}

/// Largest payload that a table leaf cell keeps whole on its page.
pub open spec fn max_local(usable: int) -> int {
    usable - 35
}

/// Smallest local part of a payload that spills.
pub open spec fn min_local(usable: int) -> int {
    (usable - 12) * 32 / 255 - 23
}

/// Bytes of a payload of `payload_size` bytes kept on the leaf page.
pub open spec fn local_size(usable: int, payload_size: int) -> int {
    if payload_size <= max_local(usable) {
        payload_size
    } else {
        let m = min_local(usable);
        let k = m + (payload_size - m) % (usable - 4);
        if k <= max_local(usable) {
            k
        } else {
            m
        }
    }
}

impl LeafPageHeader {
    /// calculate local and overflow payload sizes for a table leaf cell
    /// returns (local_size, overflow_size) where overflow_size is None if payload fits locally
    pub fn local_and_overflow_size(&self, db_header: &DbHeader, payload_size: u64) -> (r: (
        usize,
        Option<u64>,
    ))
        requires
            db_header.wf(),
        ensures
            r.0 == local_size(db_header.spec_usable_page_size() as int, payload_size as int),
            r.0 <= payload_size,
            r.0 <= max_local(db_header.spec_usable_page_size() as int),
            match r.1 {
                None => payload_size <= max_local(db_header.spec_usable_page_size() as int),
                Some(o) => payload_size > max_local(db_header.spec_usable_page_size() as int)
                    && r.0 + o == payload_size,
            },
    {
        let usable = db_header.usable_page_size();
        let max_local = usable - 35;
        if payload_size <= max_local as u64 {
            return (payload_size as usize, None);
        }
        // payload doesn't fit locally, calculate local and overflow portions

        let min_local = ((usable - 12) * 32 / 255) - 23;
        let k = min_local as u64 + ((payload_size - min_local as u64) % (usable as u64 - 4));
        let local_size: usize = if k <= max_local as u64 {
            k as usize
        } else {
            min_local
        };
        let overflow_size = payload_size - local_size as u64;
        (local_size, Some(overflow_size))
    }
}

/// A parsed leaf page of a table B-tree.
pub struct LeafTablePage<'a> {
    pub cells: Vec<LeafTableCell<'a>>,
}

/// The record shape of a cell: its serial types, shared between cells of one shape.
pub struct TableCellPayload {
    pub column_types: Arc<Vec<SerialType>>,
}

/// A cell of a table leaf page.
pub struct LeafTableCell<'a> {
    pub payload_size: u64,
    pub rowid: u64,
    pub payload: TableCellPayload,
    pub overflow_page_no: Option<u32>,
    pub column_values: Option<Vec<Option<Payload<'a>>>>,
    /// The part of the payload stored on the page.
    pub local_payload: &'a [u8],
}

/// The type and size of a record column, as the record header codes it.
#[derive(Debug, Clone, Copy, PartialEq, Eq, Structural)]
pub enum SerialType {
    Null,
    I8,
    I16,
    I24,
    I32,
    I48,
    I64,
    F64,
    Const0,
    Const1,
    Reserved,
    Blob(u64),
    Text(u64),
}

/// The serial type that the header code `n` stands for.
pub open spec fn serial_type_of(n: u64) -> SerialType {
    if n == 0 {
        SerialType::Null
    } else if n == 1 {
        SerialType::I8
    } else if n == 2 {
        SerialType::I16
    } else if n == 3 {
        SerialType::I24
    } else if n == 4 {
        SerialType::I32
    } else if n == 5 {
        SerialType::I48
    } else if n == 6 {
        SerialType::I64
    } else if n == 7 {
        SerialType::F64
    } else if n == 8 {
        SerialType::Const0
    } else if n == 9 {
        SerialType::Const1
    } else if n == 10 || n == 11 {
        SerialType::Reserved
    } else if n % 2 == 0 {
        SerialType::Blob(n)
    } else {
        SerialType::Text(n)
    }
}

impl SerialType {
    /// The serial type of header code `value`.
    pub fn from_code(value: u64) -> (r: SerialType)
        ensures
            r == serial_type_of(value),
    {
        match value {
            0 => SerialType::Null,
            1 => SerialType::I8,
            2 => SerialType::I16,
            3 => SerialType::I24,
            4 => SerialType::I32,
            5 => SerialType::I48,
            6 => SerialType::I64,
            7 => SerialType::F64,
            8 => SerialType::Const0,
            9 => SerialType::Const1,
            10 | 11 => SerialType::Reserved,
            n => if n % 2 == 0 {
                SerialType::Blob(n)
            } else {
                SerialType::Text(n)
            },
        }
    }

    /// Number of body bytes that a value of this type takes.
    pub open spec fn spec_size(&self) -> nat {
        match self {
            SerialType::Null => 0,
            SerialType::I8 => 1,
            SerialType::I16 => 2,
            SerialType::I24 => 3,
            SerialType::I32 => 4,
            SerialType::I48 => 6,
            SerialType::I64 => 8,
            SerialType::F64 => 8,
            SerialType::Const0 => 0,
            SerialType::Const1 => 0,
            SerialType::Reserved => 0,
            SerialType::Blob(n) => ((n - 12) / 2) as nat,
            SerialType::Text(n) => ((n - 13) / 2) as nat,
        }
    }

    /// A blob or text type has a code of the right parity above 11.
    pub open spec fn wf(&self) -> bool {
        match self {
            SerialType::Blob(n) => n >= 12 && n % 2 == 0,
            SerialType::Text(n) => n >= 13 && n % 2 == 1,
            _ => true,
        }
    }

    /// Number of body bytes that a value of this type takes.
    pub fn size(&self) -> (r: u64)
        requires
            self.wf(),
            !(self is Reserved),
        ensures
            r == self.spec_size(),
    {
        match self {
            SerialType::Null => 0,
            SerialType::I8 => 1,
            SerialType::I16 => 2,
            SerialType::I24 => 3,
            SerialType::I32 => 4,
            SerialType::I48 => 6,
            SerialType::I64 => 8,
            SerialType::F64 => 8,
            SerialType::Const0 => 0,
            SerialType::Const1 => 0,
            SerialType::Reserved => 0,
            SerialType::Blob(n) => (*n - 12) / 2,
            SerialType::Text(n) => (*n - 13) / 2,
        }
    }
}

/// Text as stored in the file, still in the file's encoding.
#[derive(Debug, Clone, PartialEq)]
pub struct RawText<'a>(pub &'a [u8]);

impl<'a> RawText<'a> {
    pub fn new(v: &'a [u8]) -> (r: Self)
        ensures
            r.0@ == v@,
    {
        RawText(v)
    }

    /// The stored bytes.
    pub fn as_bytes(&self) -> (r: &'a [u8])
        ensures
            r@ == self.0@,
    {
        self.0
    }
}

/// A column value. A float is held as the bits of its IEEE-754 binary64 form.
#[derive(Debug, Clone, PartialEq)]
pub enum Payload<'a> {
    I64(i64),
    F64(u64),
    Blob(&'a [u8]),
    Text(RawText<'a>),
}

/// The value of a column, as a mathematical object.
pub enum Value {
    Int(int),
    Real(u64),
    Blob(Seq<u8>),
    Text(Seq<u8>),
}

impl<'a> View for Payload<'a> {
    type V = Value;

    open spec fn view(&self) -> Value {
        match self {
            Payload::I64(v) => Value::Int(*v as int),
            Payload::F64(b) => Value::Real(*b),
            Payload::Blob(b) => Value::Blob(b@),
            Payload::Text(t) => Value::Text(t.0@),
        }
    }
}

/// The view of an optional column value.
pub open spec fn opt_value(v: Option<Payload>) -> Option<Value> {
    match v {
        Some(p) => Some(p@),
        None => None,
    }
}

/// The views of a row of optional column values.
pub open spec fn values_view(vs: Seq<Option<Payload>>) -> Seq<Option<Value>> {
    vs.map_values(|v: Option<Payload>| opt_value(v))
}

/// The value that `data`, the body bytes of one column of type `t`, stands for.
/// NULL gives no value; a blob or text of no bytes is an empty value.
pub open spec fn column_value(t: SerialType, data: Seq<u8>) -> Option<Value> {
    match t {
        SerialType::Null => None,
        SerialType::I8 => Some(Value::Int(signed_of(be_value(data), 1))),
        SerialType::I16 => Some(Value::Int(signed_of(be_value(data), 2))),
        SerialType::I24 => Some(Value::Int(signed_of(be_value(data), 3))),
        SerialType::I32 => Some(Value::Int(signed_of(be_value(data), 4))),
        SerialType::I48 => Some(Value::Int(signed_of(be_value(data), 6))),
        SerialType::I64 => Some(Value::Int(signed_of(be_value(data), 8))),
        SerialType::F64 => Some(Value::Real(be_value(data) as u64)),
        SerialType::Const0 => Some(Value::Int(0)),
        SerialType::Const1 => Some(Value::Int(1)),
        SerialType::Reserved => None,
        SerialType::Blob(_) => Some(Value::Blob(data)),
        SerialType::Text(_) => Some(Value::Text(data)),
    }
}

impl<'a> Payload<'a> {
    /// The value as a page number: an integer from 0 to `u32::MAX`.
    pub fn as_u32(&self) -> (r: Option<u32>)
        ensures
            match self {
                Payload::I64(n) => if 0 <= *n <= u32::MAX {
                    r == Some(*n as u32)
                } else {
                    r is None
                },
                _ => r is None,
            },
    {
        match self {
            Payload::I64(n) => if 0 <= *n && *n <= 0xffff_ffff {
                Some(*n as u32)
            } else {
                None
            },
            _ => None,
        }
    }
}

} // verus!
