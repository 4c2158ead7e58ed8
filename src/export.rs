//! What a columnar export of a table writes: one typed column per declared
//! column, typed after the first row, and what each row puts in each column.

use vstd::prelude::*;
use vstd::string::StringExecFns;

use crate::csv::{decimal, output_values};
use crate::error::Result;
use crate::model::{opt_value, Payload, SerialType, TextEncoding, Value};
use crate::schema::strings_view;
use crate::text::decode_text;

verus! {

/// The type of an exported column. Every column but the rowid may hold nulls.
#[derive(Debug, Clone, Copy, PartialEq, Eq, Structural)]
pub enum ColumnKind {
    Int64,
    Float64,
    Utf8,
    Binary,
}

/// The column type for values of serial type `t`: integers and constants are
/// 64-bit integers, floats 64-bit floats, text is UTF-8, all else binary.
pub open spec fn kind_of(t: SerialType) -> ColumnKind {
    match t {
        SerialType::I8 | SerialType::I16 | SerialType::I24 | SerialType::I32 | SerialType::I48
        | SerialType::I64 | SerialType::Const0 | SerialType::Const1 => ColumnKind::Int64,
        SerialType::F64 => ColumnKind::Float64,
        SerialType::Text(_) => ColumnKind::Utf8,
        _ => ColumnKind::Binary,
    }
}

/// The column type for values of serial type `serial_type`.
pub fn serial_type_to_arrow(serial_type: &SerialType) -> (r: ColumnKind)
    ensures
        r == kind_of(*serial_type),
{
    match serial_type {
        SerialType::I8
        | SerialType::I16
        | SerialType::I24
        | SerialType::I32
        | SerialType::I48
        | SerialType::I64
        | SerialType::Const0
        | SerialType::Const1 => ColumnKind::Int64,
        SerialType::F64 => ColumnKind::Float64,
        SerialType::Text(_) => ColumnKind::Utf8,
        _ => ColumnKind::Binary,
    }
}

/// The serial types of the exported columns: a leading NULL, which stands
/// for a rowid alias column, is dropped.
pub open spec fn exported_types(types: Seq<SerialType>) -> Seq<SerialType> {
    if types.len() > 0 && types[0] is Null {
        types.drop_first()
    } else {
        types
    }
}

/// The name `col_i` of exported column `i` that has no declared name.
pub open spec fn generated_name(i: int) -> Seq<char> {
    seq!['c', 'o', 'l', '_'] + decimal(i)
}

/// The name of exported column `i`: its declared name, else `col_i`.
pub open spec fn field_name(names: Option<Seq<Seq<char>>>, i: int) -> Seq<char> {
    match names {
        Some(n) => if i < n.len() {
            n[i]
        } else {
            generated_name(i)
        },
        None => generated_name(i),
    }
}

/// The name `col_i` of exported column `idx`.
fn col_name(idx: usize) -> (r: String)
    ensures
        r@ == generated_name(idx as int),
{
    let mut name = "col_".to_owned();
    let digits = crate::csv::format_u64(idx as u64);
    name.append(digits.as_str());
    proof {
        reveal_strlit("col_");
        assert("col_"@ =~= seq!['c', 'o', 'l', '_']);
    }
    name
}

/// An exported column after the rowid: its name and type.
pub struct FieldSpec {
    pub name: String,
    pub kind: ColumnKind,
}

/// The exported columns after the rowid, typed after the serial types of the
/// first row, named after the declared names where there are enough.
pub fn build_arrow_schema_from_row(column_types: &[SerialType], column_names: Option<&Vec<String>>) -> (r:
    Vec<FieldSpec>)
    ensures
        r@.len() == exported_types(column_types@).len(),
        forall|i: int|
            0 <= i < r@.len() ==> (#[trigger] r@[i]).name@ == field_name(
                match column_names {
                    Some(n) => Some(strings_view(n@)),
                    None => None,
                },
                i,
            ) && r@[i].kind == kind_of(exported_types(column_types@)[i]),
{
    let skip_first = column_types.len() > 0 && matches!(column_types[0], SerialType::Null);
    let columns = if skip_first {
        proof {
            assert(column_types@.subrange(1, column_types@.len() as int) =~= column_types@.drop_first());
        }
        vstd::slice::slice_subrange(column_types, 1, column_types.len())
    } else {
        column_types
    };
    let ghost names = match column_names {
        Some(n) => Some(strings_view(n@)),
        None => None,
    };
    let mut fields: Vec<FieldSpec> = Vec::new();
    let mut idx: usize = 0;
    while idx < columns.len()
        invariant
            columns@ == exported_types(column_types@),
            names == match column_names {
                Some(n) => Some(strings_view(n@)),
                None => None,
            },
            idx <= columns@.len(),
            fields@.len() == idx,
            forall|i: int|
                0 <= i < idx ==> (#[trigger] fields@[i]).name@ == field_name(names, i)
                    && fields@[i].kind == kind_of(columns@[i]),
        decreases columns@.len() - idx,
    {
        let kind = serial_type_to_arrow(&columns[idx]);
        let name = match column_names {
            Some(n) => if idx < n.len() {
                n[idx].clone()
            } else {
                col_name(idx)
            },
            None => col_name(idx),
        };
        fields.push(FieldSpec { name, kind });
        idx += 1;
    }
    fields
}

/// What a row puts into one exported column.
pub enum CellAction<'a> {
    Null,
    Int(i64),
    /// A float, given by its bits.
    Float(u64),
    /// A float, given by its bits, put into an integer column: truncated.
    IntFromFloat(u64),
    /// An integer put into a float column.
    FloatFromInt(i64),
    Text(String),
    Binary(&'a [u8]),
}

/// A cell action, as a mathematical object.
pub enum ActionView {
    Null,
    Int(int),
    Float(u64),
    IntFromFloat(u64),
    FloatFromInt(int),
    Text(Seq<char>),
    Binary(Seq<u8>),
}

impl<'a> CellAction<'a> {
    pub open spec fn view_action(&self) -> ActionView {
        match self {
            CellAction::Null => ActionView::Null,
            CellAction::Int(v) => ActionView::Int(*v as int),
            CellAction::Float(b) => ActionView::Float(*b),
            CellAction::IntFromFloat(b) => ActionView::IntFromFloat(*b),
            CellAction::FloatFromInt(v) => ActionView::FloatFromInt(*v as int),
            CellAction::Text(s) => ActionView::Text(s@),
            CellAction::Binary(b) => ActionView::Binary(b@),
        }
    }
}

/// What value `v` puts into a column of type `kind`: a value of another kind
/// gives a null, but for integers and floats, which are converted; an absent
/// value in a binary column gives the full payload `full` where there is one.
/// None where text does not decode.
pub open spec fn action_of(
    v: Option<Value>,
    kind: ColumnKind,
    enc: TextEncoding,
    full: Option<Seq<u8>>,
) -> Option<ActionView> {
    match v {
        None => match (kind, full) {
            (ColumnKind::Binary, Some(f)) => Some(ActionView::Binary(f)),
            _ => Some(ActionView::Null),
        },
        Some(val) => match (kind, val) {
            (ColumnKind::Int64, Value::Int(n)) => Some(ActionView::Int(n)),
            (ColumnKind::Int64, Value::Real(b)) => Some(ActionView::IntFromFloat(b)),
            (ColumnKind::Float64, Value::Real(b)) => Some(ActionView::Float(b)),
            (ColumnKind::Float64, Value::Int(n)) => Some(ActionView::FloatFromInt(n)),
            (ColumnKind::Utf8, Value::Text(b)) => match decode_text(enc, b) {
                Some(t) => Some(ActionView::Text(t)),
                None => None,
            },
            (ColumnKind::Binary, Value::Blob(b)) => Some(ActionView::Binary(b)),
            _ => Some(ActionView::Null),
        },
    }
}

/// What value `value` puts into a column of type `kind`.
fn cell_action<'a>(
    value: &Option<Payload<'a>>,
    kind: ColumnKind,
    text_encoding: TextEncoding,
    full_payload: Option<&'a Vec<u8>>,
) -> (r: Result<CellAction<'a>>)
    ensures
        match action_of(opt_value(*value), kind, text_encoding, match full_payload {
            Some(f) => Some(f@),
            None => None,
        }) {
            Some(a) => r matches Ok(c) && c.view_action() == a,
            None => r is Err,
        },
{
    match value {
        None => match (kind, full_payload) {
            (ColumnKind::Binary, Some(data)) => Ok(CellAction::Binary(data.as_slice())),
            _ => Ok(CellAction::Null),
        },
        Some(payload) => match (kind, payload) {
            (ColumnKind::Int64, Payload::I64(v)) => Ok(CellAction::Int(*v)),
            (ColumnKind::Int64, Payload::F64(b)) => Ok(CellAction::IntFromFloat(*b)),
            (ColumnKind::Float64, Payload::F64(b)) => Ok(CellAction::Float(*b)),
            (ColumnKind::Float64, Payload::I64(v)) => Ok(CellAction::FloatFromInt(*v)),
            (ColumnKind::Utf8, Payload::Text(t)) => match t.decode(text_encoding) {
                Ok(s) => Ok(CellAction::Text(crate::text::cow_str(&s).to_owned())),
                Err(e) => Err(e),
            },
            (ColumnKind::Binary, Payload::Blob(b)) => Ok(CellAction::Binary(b)),
            _ => Ok(CellAction::Null),
        },
    }
}

/// What a row puts into each exported column of type `column_kinds`: the
/// values after a leading absent one, in order; columns past the last value get nulls.
pub fn process_row_values<'a>(
    column_values: &[Option<Payload<'a>>],
    column_kinds: &[ColumnKind],
    text_encoding: TextEncoding,
    full_payload: Option<&'a Vec<u8>>,
) -> (r: Result<Vec<CellAction<'a>>>)
    ensures
        match r {
            Ok(actions) => {
                &&& actions@.len() == column_kinds@.len()
                &&& forall|i: int|
                    0 <= i < actions@.len() ==> Some((#[trigger] actions@[i]).view_action()) == if i
                        < output_values(column_values@).len() {
                        action_of(
                            opt_value(output_values(column_values@)[i]),
                            column_kinds@[i],
                            text_encoding,
                            match full_payload {
                                Some(f) => Some(f@),
                                None => None,
                            },
                        )
                    } else {
                        Some(ActionView::Null)
                    }
            },
            Err(_) => exists|i: int|
                0 <= i < output_values(column_values@).len() && i < column_kinds@.len()
                    && action_of(
                    opt_value(output_values(column_values@)[i]),
                    column_kinds@[i],
                    text_encoding,
                    match full_payload {
                        Some(f) => Some(f@),
                        None => None,
                    },
                ) is None,
        },
{
    let values = crate::csv::values_to_output(column_values);
    let ghost full = match full_payload {
        Some(f) => Some(f@),
        None => None,
    };
    let mut actions: Vec<CellAction<'a>> = Vec::new();
    let mut i: usize = 0;
    while i < column_kinds.len()
        invariant
            values@ == output_values(column_values@),
            full == match full_payload {
                Some(f) => Some(f@),
                None => None,
            },
            i <= column_kinds@.len(),
            actions@.len() == i,
            forall|j: int|
                0 <= j < i ==> Some((#[trigger] actions@[j]).view_action()) == if j < values@.len() {
                    action_of(opt_value(values@[j]), column_kinds@[j], text_encoding, full)
                } else {
                    Some(ActionView::Null)
                },
        decreases column_kinds@.len() - i,
    {
        if i < values.len() {
            match cell_action(&values[i], column_kinds[i], text_encoding, full_payload) {
                Ok(a) => actions.push(a),
                Err(e) => return Err(e),
            }
        } else {
            actions.push(CellAction::Null);
        }
        i += 1;
    }
    Ok(actions)
}

/// The file name of `path` without its extension, when it has one that is text.
pub uninterp spec fn file_stem_of(path: Seq<char>) -> Option<Seq<char>>;

/// Relies on `std::path::Path::file_stem`: the last component of the path
/// without its extension; it depends on the path text alone.
#[verifier::external_body]
fn path_file_stem(path: &str) -> (r: Option<String>)
    ensures
        match r {
            Some(s) => file_stem_of(path@) == Some(s@),
            None => file_stem_of(path@) is None,
        },
{
    std::path::Path::new(path).file_stem().and_then(|s| s.to_str()).map(|s| s.to_owned())
}

/// The name of a database, for its export directory: the stem of its file
/// name, else `database`.
pub fn get_db_name(database: &str) -> (r: String)
    ensures
        r@ == match file_stem_of(database@) {
            Some(s) => s,
            None => "database"@,
        },
{
    match path_file_stem(database) {
        Some(s) => s,
        None => "database".to_owned(),
    }
}

} // verus!
