//! The schema table: which tables the file holds, their root pages and the
//! column names declared in their `CREATE TABLE` text.

use turso_parser::ast::{Cmd, CreateTableBody, Stmt};
use vstd::prelude::*;

use crate::error::{parsing_error, Result, SQLiteError};
use crate::model::{opt_value, values_view, Payload, TextEncoding, Value};
use crate::text::decode_text;

verus! {

/// The column names that the SQL text `sql` declares, when it parses as a
/// `CREATE TABLE` statement with a column list.
pub uninterp spec fn sql_column_names(sql: Seq<char>) -> Option<Seq<Seq<char>>>;

/// The texts of a vector of strings.
pub open spec fn strings_view(v: Seq<String>) -> Seq<Seq<char>> {
    v.map_values(|s: String| s@)
}

/// Relies on turso_parser's `Parser::next_cmd`: the first statement of `sql`,
/// and when it is a `CREATE TABLE` with a column list, the names of its
/// columns in order; the parse depends on the text alone.
#[verifier::external_body]
fn parse_create_table(sql: &str) -> (r: core::result::Result<
    Option<Vec<String>>,
    turso_parser::error::Error,
>)
    ensures
        match r {
            Ok(Some(names)) => sql_column_names(sql@) == Some(strings_view(names@)),
            _ => sql_column_names(sql@) is None,
        },
{
    let mut parser = turso_parser::parser::Parser::new(sql.as_bytes());
    match parser.next_cmd() {
        Ok(
            Some(
                Cmd::Stmt(
                    Stmt::CreateTable {
                        body: CreateTableBody::ColumnsAndConstraints { columns, .. },
                        ..
                    },
                ),
            ),
        ) => Ok(Some(columns.iter().map(|c| c.col_name.as_str().to_owned()).collect())),
        Ok(_) => Ok(None),
        Err(e) => Err(e),
    }
}

/// The declared columns of a table.
pub struct SqlSchema {
    pub columns: Vec<String>,
}

impl SqlSchema {
    pub open spec fn names(&self) -> Seq<Seq<char>> {
        strings_view(self.columns@)
    }

    /// Reads the column names from the `CREATE TABLE` text `value`.
    pub fn from_sql(value: &str) -> (r: Result<SqlSchema>)
        ensures
            match r {
                Ok(s) => sql_column_names(value@) == Some(s.names()),
                Err(e) => sql_column_names(value@) is None && (e is SqlQueryErr
                    || e is ParsingError),
            },
    {
        match parse_create_table(value) {
            Ok(Some(columns)) => Ok(SqlSchema { columns }),
            Ok(None) => Err(parsing_error("not a CREATE TABLE statement with columns")),
            Err(err) => Err(SQLiteError::SqlQueryErr(err)),
        }
    }

    /// The declared column names, in order.
    pub fn get_column_names(&self) -> (r: Vec<String>)
        ensures
            strings_view(r@) == self.names(),
    {
        let mut names: Vec<String> = Vec::new();
        let mut i: usize = 0;
        while i < self.columns.len()
            invariant
                i <= self.columns@.len(),
                strings_view(names@) =~= self.names().subrange(0, i as int),
            decreases self.columns@.len() - i,
        {
            let n = self.columns[i].clone();
            let ghost before = names@;
            names.push(n);
            proof {
                assert(names@ == before.push(n));
                assert(strings_view(names@) =~= strings_view(before).push(n@));
            }
            i += 1;
        }
        names
    }
}

/// The view of an optional schema: its column names, if any.
pub open spec fn schema_view(s: Option<SqlSchema>) -> Option<Seq<Seq<char>>> {
    match s {
        Some(s) => Some(s.names()),
        None => None,
    }
}

/// A table of the schema and its declared columns, where they could be read.
pub struct TableEntry {
    pub name: String,
    pub schema: Option<SqlSchema>,
}

/// The map that a sequence of entries stands for; a later entry wins.
pub open spec fn entries_map(es: Seq<TableEntry>) -> Map<Seq<char>, Option<Seq<Seq<char>>>>
    decreases es.len(),
{
    if es.len() == 0 {
        Map::empty()
    } else {
        entries_map(es.drop_last()).insert(es.last().name@, schema_view(es.last().schema))
    }
}

/// No two entries share a name.
pub open spec fn names_unique(es: Seq<TableEntry>) -> bool {
    forall|i: int, j: int|
        0 <= i < es.len() && 0 <= j < es.len() && i != j ==> es[i].name@ != es[j].name@
}

proof fn lemma_entries_map_keys(es: Seq<TableEntry>, k: Seq<char>)
    ensures
        entries_map(es).contains_key(k) <==> exists|i: int| 0 <= i < es.len() && es[i].name@ == k,
    decreases es.len(),
{
    if es.len() > 0 {
        lemma_entries_map_keys(es.drop_last(), k);
        if entries_map(es).contains_key(k) && k != es.last().name@ {
            let i = choose|i: int| 0 <= i < es.drop_last().len() && es.drop_last()[i].name@ == k;
            assert(es[i].name@ == k);
        }
        if exists|i: int| 0 <= i < es.len() && es[i].name@ == k {
            let i = choose|i: int| 0 <= i < es.len() && es[i].name@ == k;
            if i < es.len() - 1 {
                assert(es.drop_last()[i].name@ == k);
            }
        }
    }
}

proof fn lemma_entries_map_index(es: Seq<TableEntry>, i: int)
    requires
        names_unique(es),
        0 <= i < es.len(),
    ensures
        entries_map(es).contains_key(es[i].name@),
        entries_map(es)[es[i].name@] == schema_view(es[i].schema),
    decreases es.len(),
{
    if i < es.len() - 1 {
        lemma_entries_map_index(es.drop_last(), i);
    }
}

proof fn lemma_entries_map_update(es: Seq<TableEntry>, j: int, e: TableEntry)
    requires
        names_unique(es),
        0 <= j < es.len(),
        es[j].name@ == e.name@,
    ensures
        entries_map(es.update(j, e)) == entries_map(es).insert(e.name@, schema_view(e.schema)),
    decreases es.len(),
{
    let k = e.name@;
    let v = schema_view(e.schema);
    if j == es.len() - 1 {
        assert(es.update(j, e).drop_last() =~= es.drop_last());
        assert(entries_map(es.update(j, e)) =~= entries_map(es).insert(k, v));
    } else {
        assert(es.update(j, e).drop_last() =~= es.drop_last().update(j, e));
        lemma_entries_map_update(es.drop_last(), j, e);
        assert(es.last().name@ != k);
        assert(entries_map(es.update(j, e)) =~= entries_map(es).insert(k, v));
    }
}

/// The tables of a database, keyed by name.
pub struct TablesMap {
    entries: Vec<TableEntry>,
}

impl TablesMap {
    pub closed spec fn view(&self) -> Map<Seq<char>, Option<Seq<Seq<char>>>> {
        entries_map(self.entries@)
    }

    pub closed spec fn wf(&self) -> bool {
        names_unique(self.entries@)
    }

    pub fn new() -> (r: TablesMap)
        ensures
            r.wf(),
            r.view() == Map::<Seq<char>, Option<Seq<Seq<char>>>>::empty(),
    {
        TablesMap { entries: Vec::new() }
    }

    /// Position of the entry named `name`.
    fn position(&self, name: &String) -> (r: Option<usize>)
        requires
            self.wf(),
        ensures
            match r {
                Some(i) => i < self.entries@.len() && self.entries@[i as int].name@ == name@,
                None => forall|i: int|
                    0 <= i < self.entries@.len() ==> self.entries@[i].name@ != name@,
            },
    {
        let mut i: usize = 0;
        while i < self.entries.len()
            invariant
                i <= self.entries@.len(),
                forall|j: int| 0 <= j < i ==> self.entries@[j].name@ != name@,
            decreases self.entries@.len() - i,
        {
            if self.entries[i].name == *name {
                return Some(i);
            }
            i += 1;
        }
        None
    }

    /// Sets the entry named `name`, replacing any entry of that name.
    pub fn insert(&mut self, name: String, schema: Option<SqlSchema>)
        requires
            old(self).wf(),
        ensures
            final(self).wf(),
            final(self).view() == old(self).view().insert(name@, schema_view(schema)),
    {
        let ghost k = name@;
        let ghost v = schema_view(schema);
        match self.position(&name) {
            Some(i) => {
                let ghost es = self.entries@;
                let e = TableEntry { name, schema };
                proof {
                    lemma_entries_map_update(es, i as int, e);
                }
                self.entries.set(i, e);
                proof {
                    assert(self.entries@ == es.update(i as int, e));
                }
            },
            None => {
                let ghost es = self.entries@;
                self.entries.push(TableEntry { name, schema });
                proof {
                    assert(self.entries@.drop_last() =~= es);
                }
            },
        }
    }

    /// The entry of the table named `name`.
    pub fn get(&self, name: &str) -> (r: Option<&TableEntry>)
        requires
            self.wf(),
        ensures
            match r {
                Some(e) => self.view().contains_key(name@) && e.name@ == name@
                    && self.view()[name@] == schema_view(e.schema),
                None => !self.view().contains_key(name@),
            },
    {
        let key = name.to_owned();
        match self.position(&key) {
            Some(i) => {
                proof {
                    lemma_entries_map_index(self.entries@, i as int);
                }
                Some(&self.entries[i])
            },
            None => {
                proof {
                    lemma_entries_map_keys(self.entries@, name@);
                }
                None
            },
        }
    }

    /// Whether a table named `name` is present.
    pub fn contains_key(&self, name: &str) -> (r: bool)
        requires
            self.wf(),
        ensures
            r == self.view().contains_key(name@),
    {
        self.get(name).is_some()
    }

    /// Number of tables.
    pub fn len(&self) -> (r: usize)
        requires
            self.wf(),
        ensures
            r == self.view().dom().len(),
    {
        proof {
            lemma_entries_map_len(self.entries@);
        }
        self.entries.len()
    }

    /// Whether no table is present.
    pub fn is_empty(&self) -> (r: bool)
        requires
            self.wf(),
        ensures
            r == (self.view().dom().len() == 0),
    {
        self.len() == 0
    }

    /// The entries, one per table, in no particular order.
    pub fn entries(&self) -> (r: &Vec<TableEntry>)
        requires
            self.wf(),
        ensures
            r@.len() == self.view().dom().len(),
            forall|i: int|
                0 <= i < r@.len() ==> self.view().contains_key(#[trigger] r@[i].name@)
                    && self.view()[r@[i].name@] == schema_view(r@[i].schema),
    {
        proof {
            lemma_entries_map_len(self.entries@);
            assert forall|i: int| 0 <= i < self.entries@.len() implies self.view().contains_key(
                #[trigger] self.entries@[i].name@,
            ) && self.view()[self.entries@[i].name@] == schema_view(self.entries@[i].schema) by {
                lemma_entries_map_index(self.entries@, i);
            }
        }
        &self.entries
    }
}

proof fn lemma_entries_map_len(es: Seq<TableEntry>)
    requires
        names_unique(es),
    ensures
        entries_map(es).dom().len() == es.len(),
        entries_map(es).dom().finite(),
    decreases es.len(),
{
    if es.len() > 0 {
        let init = es.drop_last();
        lemma_entries_map_len(init);
        lemma_entries_map_keys(init, es.last().name@);
        assert(!entries_map(init).contains_key(es.last().name@));
    }
}

/// The word that marks a schema row describing a table.
pub open spec fn table_word() -> Seq<char> {
    seq!['t', 'a', 'b', 'l', 'e']
}

/// The column names declared by the SQL text value `v`, read in encoding `enc`.
pub open spec fn sql_schema_of(v: Option<Value>, enc: TextEncoding) -> Option<Seq<Seq<char>>> {
    match v {
        Some(Value::Text(s)) => match decode_text(enc, s) {
            Some(sql) => sql_column_names(sql),
            None => None,
        },
        _ => None,
    }
}

/// The table that a schema row of five columns `type, name, tbl_name,
/// rootpage, sql` describes: its name and declared columns. Rows of other
/// kinds, rows whose root page is not a `u32`, and rows whose texts cannot be
/// decoded, describe none.
pub open spec fn master_entry(values: Seq<Option<Value>>, enc: TextEncoding) -> Option<
    (Seq<char>, Option<Seq<Seq<char>>>),
> {
    if values.len() != 5 {
        None
    } else {
        match (values[0], values[1]) {
            (Some(Value::Text(t)), Some(Value::Text(n))) => if decode_text(enc, t) == Some(
                table_word(),
            ) && (values[3] matches Some(Value::Int(root)) && 0 <= root <= u32::MAX) {
                match decode_text(enc, n) {
                    Some(name) => Some((name, sql_schema_of(values[4], enc))),
                    None => None,
                }
            } else {
                None
            },
            _ => None,
        }
    }
}

/// The root page that a schema row gives for the table named `name`.
pub open spec fn master_root(values: Seq<Option<Value>>, enc: TextEncoding, name: Seq<char>) -> Option<u32> {
    if values.len() != 5 {
        None
    } else {
        match (values[0], values[1], values[3]) {
            (Some(Value::Text(t)), Some(Value::Text(n)), Some(Value::Int(root))) => if decode_text(
                enc,
                t,
            ) == Some(table_word()) && decode_text(enc, n) == Some(name) && 0 <= root
                <= u32::MAX {
                Some(root as u32)
            } else {
                None
            },
            _ => None,
        }
    }
}

/// `m` with the table that schema row `row` describes set in it.
pub open spec fn apply_row(
    m: Map<Seq<char>, Option<Seq<Seq<char>>>>,
    row: Seq<Option<Value>>,
    enc: TextEncoding,
) -> Map<Seq<char>, Option<Seq<Seq<char>>>> {
    match master_entry(row, enc) {
        Some((k, v)) => m.insert(k, v),
        None => m,
    }
}

/// `m` with the tables of the schema rows `rows` set in it, in order; a later row wins.
pub open spec fn tables_from(
    m: Map<Seq<char>, Option<Seq<Seq<char>>>>,
    rows: Seq<Seq<Option<Value>>>,
    enc: TextEncoding,
) -> Map<Seq<char>, Option<Seq<Seq<char>>>>
    decreases rows.len(),
{
    if rows.len() == 0 {
        m
    } else {
        tables_from(apply_row(m, rows[0], enc), rows.drop_first(), enc)
    }
}

/// Setting the rows of `a + b` is setting those of `a`, then those of `b`.
pub proof fn lemma_tables_from_concat(
    m: Map<Seq<char>, Option<Seq<Seq<char>>>>,
    a: Seq<Seq<Option<Value>>>,
    b: Seq<Seq<Option<Value>>>,
    enc: TextEncoding,
)
    ensures
        tables_from(m, a + b, enc) == tables_from(tables_from(m, a, enc), b, enc),
    decreases a.len(),
{
    if a.len() == 0 {
        assert(a + b =~= b);
    } else {
        assert((a + b).drop_first() =~= a.drop_first() + b);
        lemma_tables_from_concat(apply_row(m, a[0], enc), a.drop_first(), b, enc);
    }
}

/// Whether `s` is the word `table`.
fn is_table_word(s: &String) -> (r: bool)
    ensures
        r == (s@ == table_word()),
{
    let word = "table".to_owned();
    proof {
        reveal_strlit("table");
        assert("table"@ =~= table_word());
    }
    *s == word
}

/// Decodes a text column value, when the value is text and decodes.
fn text_of(v: &Option<Payload>, enc: TextEncoding) -> (r: Option<String>)
    ensures
        match opt_value(*v) {
            Some(Value::Text(b)) => match decode_text(enc, b) {
                Some(t) => r matches Some(s) && s@ == t,
                None => r is None,
            },
            _ => r is None,
        },
{
    match v {
        Some(Payload::Text(t)) => match t.decode(enc) {
            Ok(s) => Some(crate::text::cow_str(&s).to_owned()),
            Err(_) => None,
        },
        _ => None,
    }
}

/// Adds to `tables` the table that the schema row `column_values` describes, if any.
pub fn extract_tables_from_column_values(
    column_values: &[Option<Payload>],
    enc: TextEncoding,
    tables: &mut TablesMap,
)
    requires
        old(tables).wf(),
    ensures
        final(tables).wf(),
        final(tables).view() == apply_row(old(tables).view(), values_view(column_values@), enc),
{
    let ghost vals = values_view(column_values@);
    if column_values.len() != 5 {
        return ;
    }
    assert(vals[0] == opt_value(column_values@[0]));
    assert(vals[1] == opt_value(column_values@[1]));
    assert(vals[3] == opt_value(column_values@[3]));
    assert(vals[4] == opt_value(column_values@[4]));
    let root_ok = match &column_values[3] {
        Some(p) => p.as_u32().is_some(),
        None => false,
    };
    if !root_ok {
        return ;
    }
    let type_text = match text_of(&column_values[0], enc) {
        Some(t) => t,
        None => return ,
    };
    if !is_table_word(&type_text) {
        return ;
    }
    let name = match text_of(&column_values[1], enc) {
        Some(n) => n,
        None => return ,
    };
    let schema = match text_of(&column_values[4], enc) {
        Some(sql) => match SqlSchema::from_sql(sql.as_str()) {
            Ok(s) => Some(s),
            Err(_) => None,
        },
        None => None,
    };
    tables.insert(name, schema);
}

/// The root page of the table named `table_name`, if the schema row
/// `column_values` describes it.
pub fn find_table_root_in_column_values(
    column_values: &[Option<Payload>],
    enc: TextEncoding,
    table_name: &str,
) -> (r: Option<u32>)
    ensures
        r == master_root(values_view(column_values@), enc, table_name@),
{
    let ghost vals = values_view(column_values@);
    if column_values.len() != 5 {
        return None;
    }
    assert(vals[0] == opt_value(column_values@[0]));
    assert(vals[1] == opt_value(column_values@[1]));
    assert(vals[3] == opt_value(column_values@[3]));
    let type_text = match text_of(&column_values[0], enc) {
        Some(t) => t,
        None => return None,
    };
    if !is_table_word(&type_text) {
        return None;
    }
    let name = match text_of(&column_values[1], enc) {
        Some(n) => n,
        None => return None,
    };
    let wanted = table_name.to_owned();
    if name != wanted {
        return None;
    }
    match &column_values[3] {
        Some(p) => p.as_u32(),
        None => None,
    }
}

} // verus!
