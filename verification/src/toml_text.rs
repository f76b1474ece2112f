//! Reading TOML text.
use vstd::prelude::*;

use crate::value;
use crate::value::{Table, TomlValue, TomlView};

verus! {

/// `toml::Value`, the tree that the `toml` crate reads a document into.
#[verifier::external_type_specification]
#[verifier::external_body]
pub struct ExTomlValue(toml::Value);

/// What a `toml::Value` holds: a float by its bits, a date or time by its text, a table by its
/// entries in order.
pub uninterp spec fn tree(source: toml::Value) -> TomlView;

/// What `toml::from_str` reads a document as when it is asked for a `toml::Value`, or the text of
/// its error.
pub uninterp spec fn toml_value(document: Seq<char>) -> Result<TomlView, Seq<char>>;

/// What `toml::from_str` reads a document as when it is asked for a `toml::Table`, or the text of
/// its error.
pub uninterp spec fn toml_table(document: Seq<char>) -> Result<
    Seq<(Seq<char>, TomlView)>,
    Seq<char>,
>;

/// A `toml::Value`, opened by one level.
pub enum Opened {
    String(String),
    Integer(i64),
    Float(u64),
    Boolean(bool),
    Datetime(String),
    Array(Vec<toml::Value>),
    Table(Vec<(String, toml::Value)>),
}

impl Opened {
    /// What the opened value holds.
    pub open spec fn content(self) -> TomlView {
        match self {
            Opened::String(s) => TomlView::String(s@),
            Opened::Integer(n) => TomlView::Integer(n),
            Opened::Float(bits) => TomlView::Float(bits),
            Opened::Boolean(b) => TomlView::Boolean(b),
            Opened::Datetime(s) => TomlView::Datetime(s@),
            Opened::Array(items) => TomlView::Array(items@.map_values(|v: toml::Value| tree(v))),
            Opened::Table(rows) => TomlView::Table(
                rows@.map_values(|row: (String, toml::Value)| (row.0@, tree(row.1))),
            ),
        }
    }
}

/// Opens a `toml::Value` by matching on its variant. A float is handed out by `f64::to_bits`, a
/// date or time by its `to_string`, a table by its `into_iter`.
#[verifier::external_body]
pub(crate) fn open_value(source: toml::Value) -> (r: Opened)
    ensures
        r.content() == tree(source),
{
    match source {
        toml::Value::String(s) => Opened::String(s),
        toml::Value::Integer(n) => Opened::Integer(n),
        toml::Value::Float(f) => Opened::Float(f.to_bits()),
        toml::Value::Boolean(b) => Opened::Boolean(b),
        toml::Value::Datetime(d) => Opened::Datetime(d.to_string()),
        toml::Value::Array(items) => Opened::Array(items),
        toml::Value::Table(rows) => Opened::Table(rows.into_iter().collect()),
    }
}

/// Calls `toml::from_str::<toml::Value>`. What it reads, and what its error says, depends on the
/// document alone. A `toml` table is a map, so no key stands twice in a table that was read.
#[verifier::external_body]
pub(crate) fn parse_value(document: &str) -> (r: Result<toml::Value, String>)
    ensures
        match r {
            Ok(read) => toml_value(document@) == Ok::<TomlView, Seq<char>>(tree(read))
                && value::well_formed(tree(read)),
            Err(error) => toml_value(document@) == Err::<TomlView, Seq<char>>(error@),
        },
{
    match toml::from_str::<toml::Value>(document) {
        Ok(read) => Ok(read),
        Err(error) => Err(error.to_string()),
    }
}

/// Calls `toml::from_str::<toml::Table>` and hands the table out as a `toml::Value`. What it
/// reads, and what its error says, depends on the document alone. A `toml` table is a map, so no
/// key stands twice in a table that was read.
#[verifier::external_body]
pub(crate) fn parse_table(document: &str) -> (r: Result<toml::Value, String>)
    ensures
        match r {
            Ok(read) => {
                &&& tree(read) is Table
                &&& toml_table(document@) == Ok::<Seq<(Seq<char>, TomlView)>, Seq<char>>(
                    tree(read)->Table_0,
                )
                &&& value::well_formed(tree(read))
            },
            Err(error) => toml_table(document@) == Err::<Seq<(Seq<char>, TomlView)>, Seq<char>>(
                error@,
            ),
        },
{
    match toml::from_str::<toml::Table>(document) {
        Ok(read) => Ok(toml::Value::Table(read)),
        Err(error) => Err(error.to_string()),
    }
}

/// Turns a `toml::Value` into a [`TomlValue`].
fn value_of(source: toml::Value) -> (r: TomlValue)
    ensures
        r@ == tree(source),
    decreases tree(source),
{
    let ghost whole = tree(source);
    match open_value(source) {
        Opened::String(s) => TomlValue::String(s),
        Opened::Integer(n) => TomlValue::Integer(n),
        Opened::Float(bits) => TomlValue::Float(bits),
        Opened::Boolean(b) => TomlValue::Boolean(b),
        Opened::Datetime(s) => TomlValue::Datetime(s),
        Opened::Array(items) => {
            let ghost given = items@;
            let mut list: Vec<TomlValue> = Vec::new();
            for item in it: items.into_iter()
                invariant
                    it.seq() == given,
                    whole == tree(source),
                    whole == TomlView::Array(given.map_values(|v: toml::Value| tree(v))),
                    list.len() == it.index(),
                    forall|k: int| 0 <= k < list.len() ==> (#[trigger] list@[k])@ == tree(given[k]),
            {
                assert(whole->Array_0[it.index() as int] == tree(item));
                list.push(value_of(item));
            }
            let r = TomlValue::Array(list);
            assert(r@->Array_0 =~= whole->Array_0);
            r
        },
        Opened::Table(rows) => {
            let ghost given = rows@;
            let mut entries: Vec<(String, TomlValue)> = Vec::new();
            for row in it: rows.into_iter()
                invariant
                    it.seq() == given,
                    whole == tree(source),
                    whole == TomlView::Table(
                        given.map_values(|row: (String, toml::Value)| (row.0@, tree(row.1))),
                    ),
                    entries.len() == it.index(),
                    forall|k: int|
                        0 <= k < entries.len() ==> (#[trigger] entries@[k]).0@ == given[k].0@
                            && entries@[k].1@ == tree(given[k].1),
            {
                let (key, item) = row;
                proof {
                    let k = it.index() as int;
                    assert(whole->Table_0[k] == (key@, tree(item)));
                    assert(decreases_to!(whole => whole->Table_0));
                    assert(decreases_to!(whole->Table_0 => whole->Table_0[k]));
                    assert(decreases_to!(whole->Table_0[k] => whole->Table_0[k].1));
                }
                entries.push((key, value_of(item)));
            }
            let table = Table::from_entries(entries);
            assert(table@ =~= whole->Table_0);
            TomlValue::Table(table)
        },
    }
}

/// Reads a document as a value.
pub fn read_value(document: &str) -> (r: Result<TomlValue, String>)
    ensures
        match r {
            Ok(read) => toml_value(document@) == Ok::<TomlView, Seq<char>>(read@)
                && value::well_formed(read@),
            Err(error) => toml_value(document@) == Err::<TomlView, Seq<char>>(error@),
        },
{
    match parse_value(document) {
        Ok(read) => Ok(value_of(read)),
        Err(error) => Err(error),
    }
}

/// Reads a document as a table.
pub fn read_table(document: &str) -> (r: Result<Table, String>)
    ensures
        match r {
            Ok(read) => toml_table(document@) == Ok::<Seq<(Seq<char>, TomlView)>, Seq<char>>(read@)
                && value::well_formed_rows(read@),
            Err(error) => toml_table(document@) == Err::<Seq<(Seq<char>, TomlView)>, Seq<char>>(
                error@,
            ),
        },
{
    match parse_table(document) {
        Ok(read) => match value_of(read) {
            TomlValue::Table(table) => Ok(table),
            _ => Err(String::new()),
        },
        Err(error) => Err(error),
    }
}

} // verus!
