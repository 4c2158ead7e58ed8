//! CSV rendering of rows: quoting of text, hex of blobs, decimal integers,
//! and the leading NULL column that stands for the rowid alias.

use vstd::prelude::*;
use vstd::utf8::encode_utf8;

use crate::error::Result;
use crate::model::{opt_value, values_view, Payload, TextEncoding, Value};
use crate::text::decode_text;

verus! {

/// The byte of `"`.
pub const QUOTE: u8 = 0x22;

/// The characters of the decimal form of `n`.
pub open spec fn decimal_digits(n: nat) -> Seq<char>
    decreases n,
{
    if n < 10 {
        seq![(n + 48) as char]
    } else {
        decimal_digits(n / 10).push(((n % 10) + 48) as char)
    }
}

/// The decimal form of `v`, with a minus sign when it is negative.
pub open spec fn decimal(v: int) -> Seq<char> {
    if v < 0 {
        seq!['-'] + decimal_digits((-v) as nat)
    } else {
        decimal_digits(v as nat)
    }
}

/// Relies on itoa's `Buffer::format`: the decimal form of `v`.
#[verifier::external_body]
fn itoa_i128(v: i128) -> (r: String)
    ensures
        r@ == decimal(v as int),
{
    let mut buf = itoa::Buffer::new();
    buf.format(v).to_owned()
}

/// The decimal form of `v`.
pub fn format_i64(v: i64) -> (r: String)
    ensures
        r@ == decimal(v as int),
{
    itoa_i128(v as i128)
}

/// The decimal form of `v`.
pub fn format_u64(v: u64) -> (r: String)
    ensures
        r@ == decimal(v as int),
{
    itoa_i128(v as i128)
}

/// A text field must be quoted: it holds a comma, a quote, a newline or a carriage return.
pub open spec fn needs_quoting(b: Seq<u8>) -> bool {
    exists|i: int|
        0 <= i < b.len() && (b[i] == 0x2c || b[i] == QUOTE || b[i] == 0x0a || b[i] == 0x0d)
}

/// One byte inside a quoted field: a quote is doubled; newline, carriage
/// return, tab and backslash take their two-character backslash form.
pub open spec fn escape_byte(b: u8) -> Seq<u8> {
    if b == QUOTE {
        seq![QUOTE, QUOTE]
    } else if b == 0x0a {
        seq![0x5cu8, 0x6e]
    } else if b == 0x0d {
        seq![0x5cu8, 0x72]
    } else if b == 0x09 {
        seq![0x5cu8, 0x74]
    } else if b == 0x5c {
        seq![0x5cu8, 0x5c]
    } else {
        seq![b]
    }
}

/// The bytes `b`, each escaped.
pub open spec fn escaped(b: Seq<u8>) -> Seq<u8>
    decreases b.len(),
{
    if b.len() == 0 {
        Seq::empty()
    } else {
        escaped(b.drop_last()) + escape_byte(b.last())
    }
}

/// The CSV field for the text bytes `b`: quoted and escaped where it must
/// be quoted, else as it is.
pub open spec fn csv_text(b: Seq<u8>) -> Seq<u8> {
    if needs_quoting(b) {
        seq![QUOTE] + escaped(b) + seq![QUOTE]
    } else {
        b
    }
}

/// The lowercase hex digit of `n`, below 16.
pub open spec fn hex_digit(n: nat) -> u8 {
    if n < 10 {
        (n + 0x30) as u8
    } else {
        (n - 10 + 0x61) as u8
    }
}

/// The bytes `b` as lowercase hex, two digits each, without separators.
pub open spec fn hex_of(b: Seq<u8>) -> Seq<u8>
    decreases b.len(),
{
    if b.len() == 0 {
        Seq::empty()
    } else {
        hex_of(b.drop_last()) + seq![hex_digit(b.last() as nat / 16), hex_digit(b.last() as nat % 16)]
    }
}

fn hex_char(n: u8) -> (r: u8)
    requires
        n < 16,
    ensures
        r == hex_digit(n as nat),
{
    if n < 10 {
        n + 0x30
    } else {
        n - 10 + 0x61
    }
}

/// Appends `bytes` to `output`.
fn push_bytes(bytes: &[u8], output: &mut Vec<u8>)
    ensures
        final(output)@ == old(output)@ + bytes@,
{
    let ghost start = output@;
    let mut i: usize = 0;
    while i < bytes.len()
        invariant
            i <= bytes@.len(),
            output@ == start + bytes@.subrange(0, i as int),
        decreases bytes@.len() - i,
    {
        output.push(bytes[i]);
        proof {
            assert(bytes@.subrange(0, i + 1) =~= bytes@.subrange(0, i as int).push(bytes@[i as int]));
        }
        i += 1;
    }
    proof {
        assert(bytes@.subrange(0, i as int) =~= bytes@);
    }
}

/// Appends the lowercase hex of `bytes` to `output`.
pub fn write_hex(bytes: &[u8], output: &mut Vec<u8>)
    ensures
        final(output)@ == old(output)@ + hex_of(bytes@),
{
    let ghost start = output@;
    let mut i: usize = 0;
    while i < bytes.len()
        invariant
            i <= bytes@.len(),
            output@ == start + hex_of(bytes@.subrange(0, i as int)),
        decreases bytes@.len() - i,
    {
        let b = bytes[i];
        output.push(hex_char(b / 16));
        output.push(hex_char(b % 16));
        proof {
            assert(bytes@.subrange(0, i + 1).drop_last() =~= bytes@.subrange(0, i as int));
        }
        i += 1;
    }
    proof {
        assert(bytes@.subrange(0, i as int) =~= bytes@);
    }
}

/// Whether the byte must be quoted in a CSV field.
fn is_special(b: u8) -> (r: bool)
    ensures
        r == (b == 0x2c || b == QUOTE || b == 0x0a || b == 0x0d),
{
    b == 0x2c || b == QUOTE || b == 0x0a || b == 0x0d
}

/// Appends `text` to `output` as a CSV field: quoted, with quotes doubled and
/// newline, carriage return, tab and backslash escaped, where it holds a comma,
/// a quote, a newline or a carriage return; else as it is.
pub fn write_csv_text(text: &str, output: &mut Vec<u8>)
    ensures
        final(output)@ == old(output)@ + csv_text(encode_utf8(text@)),
{
    let bytes = text.as_bytes();
    write_csv_bytes(bytes, output);
}

/// Appends the text bytes `bytes` to `output` as a CSV field.
pub fn write_csv_bytes(bytes: &[u8], output: &mut Vec<u8>)
    ensures
        final(output)@ == old(output)@ + csv_text(bytes@),
{
    let mut needs = false;
    let mut i: usize = 0;
    while i < bytes.len()
        invariant
            i <= bytes@.len(),
            needs == exists|j: int|
                0 <= j < i && (bytes@[j] == 0x2c || bytes@[j] == QUOTE || bytes@[j] == 0x0a
                    || bytes@[j] == 0x0d),
        decreases bytes@.len() - i,
    {
        if is_special(bytes[i]) {
            needs = true;
        }
        i += 1;
    }
    if !needs {
        push_bytes(bytes, output);
        return ;
    }
    let ghost start = output@;
    output.push(QUOTE);
    let mut k: usize = 0;
    while k < bytes.len()
        invariant
            k <= bytes@.len(),
            output@ == start + seq![QUOTE] + escaped(bytes@.subrange(0, k as int)),
        decreases bytes@.len() - k,
    {
        let b = bytes[k];
        let ghost before = output@;
        if b == QUOTE {
            output.push(QUOTE);
            output.push(QUOTE);
        } else if b == 0x0a {
            output.push(0x5c);
            output.push(0x6e);
        } else if b == 0x0d {
            output.push(0x5c);
            output.push(0x72);
        } else if b == 0x09 {
            output.push(0x5c);
            output.push(0x74);
        } else if b == 0x5c {
            output.push(0x5c);
            output.push(0x5c);
        } else {
            output.push(b);
        }
        proof {
            assert(output@ =~= before + escape_byte(b));
            assert(bytes@.subrange(0, k + 1).drop_last() =~= bytes@.subrange(0, k as int));
        }
        k += 1;
    }
    output.push(QUOTE);
    proof {
        assert(bytes@.subrange(0, k as int) =~= bytes@);
    }
}

/// The CSV field of a column value: nothing for an absent value (or the hex
/// of the whole payload `overflow`, where one is given for a trailing absent
/// value), decimal for an integer, the quoted text, or the hex of a blob.
/// Floats are not written here.
pub open spec fn csv_value(v: Option<Value>, enc: TextEncoding, overflow: Option<Seq<u8>>) -> Option<Seq<u8>> {
    match v {
        None => match overflow {
            Some(o) => Some(hex_of(o)),
            None => Some(Seq::empty()),
        },
        Some(Value::Int(n)) => Some(encode_utf8(decimal(n))),
        Some(Value::Real(_)) => None,
        Some(Value::Text(b)) => match decode_text(enc, b) {
            Some(t) => Some(csv_text(encode_utf8(t))),
            None => None,
        },
        Some(Value::Blob(b)) => Some(hex_of(b)),
    }
}

/// Appends the CSV field of `value` to `output`. Text that is not valid in
/// `text_encoding` is a format error.
pub fn write_value_to_csv(
    value: &Option<Payload>,
    text_encoding: TextEncoding,
    overflow_data: &Option<Vec<u8>>,
    output: &mut Vec<u8>,
) -> (r: Result<()>)
    requires
        !(value matches Some(Payload::F64(_))),
    ensures
        match csv_value(opt_value(*value), text_encoding, match overflow_data {
            Some(o) => Some(o@),
            None => None,
        }) {
            Some(f) => r is Ok && final(output)@ == old(output)@ + f,
            None => r is Err && final(output)@ == old(output)@,
        },
{
    match value {
        None => {
            match overflow_data {
                Some(data) => write_hex(data.as_slice(), output),
                None => {
                    proof {
                        assert(output@ + Seq::<u8>::empty() =~= output@);
                    }
                },
            }
            Ok(())
        },
        Some(Payload::I64(v)) => {
            let s = format_i64(*v);
            push_bytes(s.as_str().as_bytes(), output);
            Ok(())
        },
        Some(Payload::F64(_)) => Ok(()),
        Some(Payload::Text(t)) => match t.decode(text_encoding) {
            Ok(text) => {
                write_csv_text(crate::text::cow_str(&text), output);
                Ok(())
            },
            Err(e) => Err(e),
        },
        Some(Payload::Blob(b)) => {
            write_hex(b, output);
            Ok(())
        },
    }
}

/// The values that are written: all but a leading absent value, which stands
/// for a rowid alias column.
pub open spec fn output_values<T>(vs: Seq<Option<T>>) -> Seq<Option<T>> {
    if vs.len() > 0 && vs[0] is None {
        vs.drop_first()
    } else {
        vs
    }
}

/// The values of a row that are written: a leading absent value is skipped.
pub fn values_to_output<'b, 'c>(column_values: &'b [Option<Payload<'c>>]) -> (r: &'b [Option<Payload<'c>>])
    ensures
        r@ == output_values(column_values@),
{
    if column_values.len() > 0 && column_values[0].is_none() {
        proof {
            assert(column_values@.subrange(1, column_values@.len() as int) =~= column_values@.drop_first());
        }
        vstd::slice::slice_subrange(column_values, 1, column_values.len())
    } else {
        column_values
    }
}

/// Appends the rowid field of a CSV line: `rowid` in decimal.
pub fn write_rowid(rowid: u64, output: &mut Vec<u8>)
    ensures
        final(output)@ == old(output)@ + encode_utf8(decimal(rowid as int)),
{
    let s = format_u64(rowid);
    push_bytes(s.as_str().as_bytes(), output);
}

/// The CSV field of a written value; a float takes the text `float_text`.
pub open spec fn csv_field(
    v: Option<Value>,
    enc: TextEncoding,
    overflow: Option<Seq<u8>>,
    float_text: Seq<char>,
) -> Option<Seq<u8>> {
    match v {
        Some(Value::Real(_)) => Some(encode_utf8(float_text)),
        _ => csv_value(v, enc, overflow),
    }
}

/// The first `k` fields of a CSV line for the written values `vs`, each after
/// a comma; the whole payload `overflow` goes to the last field only.
pub open spec fn csv_fields(
    vs: Seq<Option<Value>>,
    enc: TextEncoding,
    overflow: Option<Seq<u8>>,
    floats: Seq<Seq<char>>,
    k: int,
) -> Option<Seq<u8>>
    decreases k,
{
    if k <= 0 {
        Some(Seq::empty())
    } else {
        match csv_fields(vs, enc, overflow, floats, k - 1) {
            None => None,
            Some(pre) => match csv_field(
                vs[k - 1],
                enc,
                if k == vs.len() {
                    overflow
                } else {
                    None
                },
                floats[k - 1],
            ) {
                None => None,
                Some(f) => Some(pre + seq![0x2cu8] + f),
            },
        }
    }
}

/// The CSV line of a row: its rowid, the fields of the written values `vs`, and a newline.
pub open spec fn csv_line(
    rowid: int,
    vs: Seq<Option<Value>>,
    enc: TextEncoding,
    overflow: Option<Seq<u8>>,
    floats: Seq<Seq<char>>,
) -> Option<Seq<u8>> {
    match csv_fields(vs, enc, overflow, floats, vs.len() as int) {
        Some(f) => Some(encode_utf8(decimal(rowid)) + f + seq![0x0au8]),
        None => None,
    }
}

/// The texts of the strings `v`.
pub open spec fn texts(v: Seq<String>) -> Seq<Seq<char>> {
    v.map_values(|s: String| s@)
}

/// Appends the CSV line of a row with rowid `rowid` whose written values are
/// `values`: the float at position `i` is written as `float_texts[i]`, and
/// `overflow_data` is the hex of a trailing absent value. Nothing is appended
/// when a text does not decode.
pub fn write_csv_line(
    rowid: u64,
    values: &[Option<Payload>],
    text_encoding: TextEncoding,
    overflow_data: &Option<Vec<u8>>,
    float_texts: &[String],
    output: &mut Vec<u8>,
) -> (r: Result<()>)
    requires
        float_texts@.len() == values@.len(),
    ensures
        match csv_line(
            rowid as int,
            values_view(values@),
            text_encoding,
            match overflow_data {
                Some(o) => Some(o@),
                None => None,
            },
            texts(float_texts@),
        ) {
            Some(l) => r is Ok && final(output)@ == old(output)@ + l,
            None => r is Err && final(output)@ == old(output)@,
        },
{
    let ghost vs = values_view(values@);
    let ghost ovf = match overflow_data {
        Some(o) => Some(o@),
        None => None,
    };
    let ghost floats = texts(float_texts@);
    let mut line: Vec<u8> = Vec::new();
    write_rowid(rowid, &mut line);
    let ghost head = line@;
    let none: Option<Vec<u8>> = None;
    let n = values.len();
    let mut i: usize = 0;
    while i < n
        invariant
            n == values@.len() == vs.len() == float_texts@.len() == floats.len(),
            vs == values_view(values@),
            floats == texts(float_texts@),
            ovf == match overflow_data {
                Some(o) => Some(o@),
                None => None,
            },
            none is None,
            i <= n,
            head == encode_utf8(decimal(rowid as int)),
            csv_fields(vs, text_encoding, ovf, floats, i as int) matches Some(f) && line@ == head + f,
        decreases n - i,
    {
        let ghost before = line@;
        line.push(0x2c);
        let is_last = i + 1 == n;
        assert(vs[i as int] == opt_value(values@[i as int]));
        assert(floats[i as int] == float_texts@[i as int]@);
        match &values[i] {
            Some(Payload::F64(_)) => {
                push_bytes(float_texts[i].as_str().as_bytes(), &mut line);
            },
            v => {
                let res = if is_last {
                    write_value_to_csv(v, text_encoding, overflow_data, &mut line)
                } else {
                    write_value_to_csv(v, text_encoding, &none, &mut line)
                };
                match res {
                    Ok(_) => {},
                    Err(e) => {
                        proof {
                            lemma_fields_stuck(vs, text_encoding, ovf, floats, i as int, n as int);
                        }
                        return Err(e);
                    },
                }
            },
        }
        proof {
            let pre = csv_fields(vs, text_encoding, ovf, floats, i as int).unwrap();
            assert(line@ =~= head + (pre + seq![0x2cu8] + csv_field(
                vs[i as int],
                text_encoding,
                if i + 1 == vs.len() {
                    ovf
                } else {
                    None
                },
                floats[i as int],
            ).unwrap()));
        }
        i += 1;
    }
    line.push(0x0a);
    push_bytes(line.as_slice(), output);
    Ok(())
}

/// Once the fields up to `i + 1` fail, so do those up to any later count.
proof fn lemma_fields_stuck(
    vs: Seq<Option<Value>>,
    enc: TextEncoding,
    overflow: Option<Seq<u8>>,
    floats: Seq<Seq<char>>,
    i: int,
    k: int,
)
    requires
        0 <= i < k,
        csv_fields(vs, enc, overflow, floats, i + 1) is None,
    ensures
        csv_fields(vs, enc, overflow, floats, k) is None,
    decreases k,
{
    if k > i + 1 {
        lemma_fields_stuck(vs, enc, overflow, floats, i, k - 1);
    }
}

} // verus!
