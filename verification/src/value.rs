//! TOML values, and what merging and comparing them means.
use vstd::prelude::*;

use crate::text;

verus! {

/// A TOML value.
///
/// A float is held by its bits, a date or time by its text.
#[derive(Debug)]
pub enum TomlValue {
    String(String),
    Integer(i64),
    Float(u64),
    Boolean(bool),
    Datetime(String),
    Array(Vec<TomlValue>),
    Table(Table),
}

/// A TOML table: keys and their values, in the order in which the keys came.
///
/// No key stands in it twice, which [`well_formed_rows`] says of the table and of all tables below
/// it. It holds of the empty table and of what is read from a document, and inserting and merging
/// keep it.
#[derive(Debug)]
pub struct Table {
    entries: Vec<(String, TomlValue)>,
}

/// What a [`TomlValue`] holds.
pub enum TomlView {
    String(Seq<char>),
    Integer(i64),
    Float(u64),
    Boolean(bool),
    Datetime(Seq<char>),
    Array(Seq<TomlView>),
    Table(Seq<(Seq<char>, TomlView)>),
}

impl TomlValue {
    /// What the value holds.
    pub open spec fn tree(self) -> TomlView
        decreases self,
    {
        match self {
            TomlValue::String(s) => TomlView::String(s@),
            TomlValue::Integer(n) => TomlView::Integer(n),
            TomlValue::Float(bits) => TomlView::Float(bits),
            TomlValue::Boolean(b) => TomlView::Boolean(b),
            TomlValue::Datetime(s) => TomlView::Datetime(s@),
            TomlValue::Array(items) => TomlView::Array(
                Seq::new(
                    items@.len(),
                    |i: int|
                        if 0 <= i < items@.len() {
                            items@[i].tree()
                        } else {
                            arbitrary()
                        },
                ),
            ),
            TomlValue::Table(table) => TomlView::Table(table.rows()),
        }
    }
}

impl Table {
    /// The keys and values of the table, in order.
    pub closed spec fn rows(self) -> Seq<(Seq<char>, TomlView)>
        decreases self,
    {
        Seq::new(
            self.entries@.len(),
            |i: int|
                if 0 <= i < self.entries@.len() {
                    (self.entries@[i].0@, self.entries@[i].1.tree())
                } else {
                    arbitrary()
                },
        )
    }
}

impl View for TomlValue {
    type V = TomlView;

    open spec fn view(&self) -> TomlView {
        self.tree()
    }
}

impl View for Table {
    type V = Seq<(Seq<char>, TomlView)>;

    open spec fn view(&self) -> Seq<(Seq<char>, TomlView)> {
        self.rows()
    }
}

/// Where `key` stands first in `rows`.
pub open spec fn find(rows: Seq<(Seq<char>, TomlView)>, key: Seq<char>) -> Option<int>
    decreases rows.len(),
{
    if rows.len() == 0 {
        None
    } else {
        match find(rows.drop_last(), key) {
            Some(i) => Some(i),
            None => if rows.last().0 == key {
                Some(rows.len() - 1)
            } else {
                None
            },
        }
    }
}

/// The value that `rows` holds for `key`.
pub open spec fn lookup(rows: Seq<(Seq<char>, TomlView)>, key: Seq<char>) -> Option<TomlView> {
    match find(rows, key) {
        Some(i) => Some(rows[i].1),
        None => None,
    }
}

/// `rows` with `value` for `key`: in the place that `key` has, or else at the end.
pub open spec fn put(
    rows: Seq<(Seq<char>, TomlView)>,
    key: Seq<char>,
    value: TomlView,
) -> Seq<(Seq<char>, TomlView)> {
    match find(rows, key) {
        Some(i) => rows.update(i, (key, value)),
        None => rows.push((key, value)),
    }
}

/// What merging `overlay` into `base` gives.
///
/// Two tables are merged key by key. In every other case `overlay` replaces `base`.
pub open spec fn merged(base: TomlView, overlay: TomlView) -> TomlView
    decreases overlay,
{
    match (base, overlay) {
        (TomlView::Table(under), TomlView::Table(over)) => TomlView::Table(
            merged_rows(under, over),
        ),
        _ => overlay,
    }
}

/// What merging the rows of `over` into `under`, one after the other, gives.
pub open spec fn merged_rows(
    under: Seq<(Seq<char>, TomlView)>,
    over: Seq<(Seq<char>, TomlView)>,
) -> Seq<(Seq<char>, TomlView)>
    decreases over,
{
    if over.len() == 0 {
        under
    } else {
        let rows = merged_rows(under, over.drop_last());
        let (key, value) = over[over.len() - 1];
        match find(rows, key) {
            Some(i) => rows.update(i, (key, merged(rows[i].1, value))),
            None => rows.push((key, value)),
        }
    }
}

pub(crate) proof fn lemma_find(rows: Seq<(Seq<char>, TomlView)>, key: Seq<char>)
    ensures
        match find(rows, key) {
            Some(i) => 0 <= i < rows.len() && rows[i].0 == key && forall|k: int|
                0 <= k < i ==> (#[trigger] rows[k]).0 != key,
            None => forall|k: int| 0 <= k < rows.len() ==> (#[trigger] rows[k]).0 != key,
        },
    decreases rows.len(),
{
    if rows.len() > 0 {
        let front = rows.drop_last();
        lemma_find(front, key);
        assert forall|k: int| 0 <= k < rows.len() - 1 implies front[k] == rows[k] by {}
        match find(front, key) {
            Some(i) => {
                assert(front[i] == rows[i]);
                assert forall|k: int| 0 <= k < i implies (#[trigger] rows[k]).0 != key by {
                    assert(front[k] == rows[k]);
                }
            },
            None => {
                assert forall|k: int| 0 <= k < rows.len() - 1 implies (#[trigger] rows[k]).0
                    != key by {
                    assert(front[k] == rows[k]);
                }
            },
        }
    }
}

impl Table {
    /// A table with nothing in it.
    pub fn new() -> (r: Table)
        ensures
            r@ == Seq::<(Seq<char>, TomlView)>::empty(),
    {
        let r = Table { entries: Vec::new() };
        assert(r@ =~= Seq::<(Seq<char>, TomlView)>::empty());
        r
    }

    /// The table with the given keys and values.
    pub(crate) fn from_entries(entries: Vec<(String, TomlValue)>) -> (r: Table)
        ensures
            r@ == entries@.map_values(|entry: (String, TomlValue)| (entry.0@, entry.1@)),
    {
        let r = Table { entries };
        assert(r@ =~= entries@.map_values(|entry: (String, TomlValue)| (entry.0@, entry.1@)));
        r
    }

    /// How many keys the table has.
    pub fn len(&self) -> (r: usize)
        ensures
            r == self@.len(),
    {
        self.entries.len()
    }

    /// The key at `i`.
    pub fn key_at(&self, i: usize) -> (r: &str)
        requires
            i < self@.len(),
        ensures
            r@ == self@[i as int].0,
    {
        self.entries[i].0.as_str()
    }

    /// The value at `i`.
    pub fn value_at(&self, i: usize) -> (r: &TomlValue)
        requires
            i < self@.len(),
        ensures
            r@ == self@[i as int].1,
    {
        &self.entries[i].1
    }

    fn position(&self, key: &str) -> (r: Option<usize>)
        ensures
            match r {
                Some(i) => i < self.entries.len() && find(self@, key@) == Some(i as int),
                None => find(self@, key@) is None,
            },
    {
        proof {
            lemma_find(self@, key@);
        }
        let mut i: usize = 0;
        while i < self.entries.len()
            invariant
                i <= self.entries.len(),
                forall|k: int| 0 <= k < i ==> (#[trigger] self@[k]).0 != key@,
            decreases self.entries.len() - i,
        {
            if text::same_text(self.entries[i].0.as_str(), key) {
                proof {
                    lemma_find(self@, key@);
                    assert(self@[i as int].0 == key@);
                }
                return Some(i);
            }
            assert(self@[i as int].0 != key@);
            i = i + 1;
        }
        None
    }

    /// The value that the table holds for `key`.
    pub fn get(&self, key: &str) -> (r: Option<&TomlValue>)
        ensures
            match r {
                Some(value) => lookup(self@, key@) == Some(value@),
                None => lookup(self@, key@) is None,
            },
    {
        match self.position(key) {
            Some(i) => Some(&self.entries[i].1),
            None => None,
        }
    }

    /// Puts `value` under `key`, in the place of what stood there.
    pub fn insert(&mut self, key: String, value: TomlValue)
        ensures
            final(self)@ == put(old(self)@, key@, value@),
    {
        match self.position(key.as_str()) {
            Some(i) => {
                self.entries.set(i, (key, value));
            },
            None => {
                self.entries.push((key, value));
            },
        }
        assert(self@ =~= put(old(self)@, key@, value@));
    }
}

/// Merges `overlay` into `base`, with `overlay` taking precedence.
///
/// Tables are merged key by key. Any other value replaces what stood there before.
pub fn merge_toml(base: &mut TomlValue, overlay: TomlValue)
    ensures
        final(base)@ == merged(old(base)@, overlay@),
    decreases overlay,
{
    match overlay {
        TomlValue::Table(over) => match base {
            TomlValue::Table(under) => {
                merge_tables(under, over);
            },
            _ => {
                *base = TomlValue::Table(over);
            },
        },
        other => {
            *base = other;
        },
    }
}

/// Merges the table `over` into `under`, key by key, with `over` taking precedence.
pub fn merge_tables(under: &mut Table, over: Table)
    ensures
        final(under)@ == merged_rows(old(under)@, over@),
    decreases over,
{
    let ghost rows = over@;
    let ghost given = over.entries@;
    for entry in it: over.entries.into_iter()
        invariant
            given == over.entries@,
            it.seq() == given,
            rows == over@,
            under@ == merged_rows(old(under)@, rows.take(it.index() as int)),
    {
        let ghost k = it.index() as int;
        let ghost before = under@;
        let (key, value) = entry;
        proof {
            assert(rows.take(k + 1).drop_last() =~= rows.take(k));
            lemma_find(under@, key@);
        }
        match under.position(key.as_str()) {
            Some(i) => {
                merge_toml(&mut under.entries[i].1, value);
            },
            None => {
                under.entries.push((key, value));
            },
        }
        assert(under@ =~= merged_rows(old(under)@, rows.take(k + 1)));
    }
    assert(rows.take(rows.len() as int) =~= rows);
}

/// The bits of a float without its sign.
pub open spec fn magnitude(bits: u64) -> u64 {
    bits % 0x8000_0000_0000_0000
}

/// Whether the bits are those of a float that is not a number.
pub open spec fn is_nan(bits: u64) -> bool {
    magnitude(bits) > 0x7ff0_0000_0000_0000
}

/// Whether two floats compare as equal: neither is NaN, and they have the same bits or are zeros.
pub open spec fn same_float(a: u64, b: u64) -> bool {
    &&& !is_nan(a)
    &&& !is_nan(b)
    &&& a == b || magnitude(a) == 0 && magnitude(b) == 0
}

/// Whether two values compare as equal. The order of the keys in a table does not count.
pub open spec fn same_value(a: TomlView, b: TomlView) -> bool
    decreases a,
{
    match (a, b) {
        (TomlView::String(x), TomlView::String(y)) => x == y,
        (TomlView::Integer(x), TomlView::Integer(y)) => x == y,
        (TomlView::Float(x), TomlView::Float(y)) => same_float(x, y),
        (TomlView::Boolean(x), TomlView::Boolean(y)) => x == y,
        (TomlView::Datetime(x), TomlView::Datetime(y)) => x == y,
        (TomlView::Array(x), TomlView::Array(y)) => {
            &&& x.len() == y.len()
            &&& forall|i: int| 0 <= i < x.len() ==> same_value(#[trigger] x[i], y[i])
        },
        (TomlView::Table(x), TomlView::Table(y)) => {
            &&& x.len() == y.len()
            &&& forall|i: int|
                0 <= i < x.len() ==> {
                    let row = #[trigger] x[i];
                    match find(y, row.0) {
                        Some(j) => same_value(row.1, y[j].1),
                        None => false,
                    }
                }
        },
        _ => false,
    }
}

/// Whether no key stands twice in `rows`.
pub open spec fn distinct_keys(rows: Seq<(Seq<char>, TomlView)>) -> bool {
    forall|i: int, j: int|
        0 <= i < j < rows.len() ==> (#[trigger] rows[i]).0 != (#[trigger] rows[j]).0
}

/// Whether no key stands twice in any table of `value`, however deep.
pub open spec fn well_formed(value: TomlView) -> bool
    decreases value,
{
    match value {
        TomlView::Array(items) => forall|i: int|
            0 <= i < items.len() ==> well_formed(#[trigger] items[i]),
        TomlView::Table(rows) => {
            &&& distinct_keys(rows)
            &&& forall|i: int| 0 <= i < rows.len() ==> well_formed((#[trigger] rows[i]).1)
        },
        _ => true,
    }
}

/// Whether no key stands twice in `rows` or in any table below.
pub open spec fn well_formed_rows(rows: Seq<(Seq<char>, TomlView)>) -> bool {
    well_formed(TomlView::Table(rows))
}

fn floats_match(a: u64, b: u64) -> (r: bool)
    ensures
        r == same_float(a, b),
{
    let x: u64 = a % 0x8000_0000_0000_0000;
    let y: u64 = b % 0x8000_0000_0000_0000;
    x <= 0x7ff0_0000_0000_0000 && y <= 0x7ff0_0000_0000_0000 && (a == b || (x == 0 && y == 0))
}

impl TomlValue {
    /// Whether the two values compare as equal.
    pub fn same_as(&self, other: &TomlValue) -> (r: bool)
        ensures
            r == same_value(self@, other@),
        decreases self,
    {
        match (self, other) {
            (TomlValue::String(x), TomlValue::String(y)) => text::same_text(x.as_str(), y.as_str()),
            (TomlValue::Integer(x), TomlValue::Integer(y)) => *x == *y,
            (TomlValue::Float(x), TomlValue::Float(y)) => floats_match(*x, *y),
            (TomlValue::Boolean(x), TomlValue::Boolean(y)) => *x == *y,
            (TomlValue::Datetime(x), TomlValue::Datetime(y)) => text::same_text(x.as_str(), y.as_str()),
            (TomlValue::Array(x), TomlValue::Array(y)) => arrays_match(x, y),
            (TomlValue::Table(x), TomlValue::Table(y)) => x.same_as(y),
            _ => false,
        }
    }
}

fn arrays_match(x: &Vec<TomlValue>, y: &Vec<TomlValue>) -> (r: bool)
    ensures
        r == same_value(TomlValue::Array(*x)@, TomlValue::Array(*y)@),
    decreases x,
{
    if x.len() != y.len() {
        return false;
    }
    let ghost a = TomlValue::Array(*x)@->Array_0;
    let ghost b = TomlValue::Array(*y)@->Array_0;
    let mut i: usize = 0;
    while i < x.len()
        invariant
            x.len() == y.len(),
            i <= x.len(),
            a == TomlValue::Array(*x)@->Array_0,
            b == TomlValue::Array(*y)@->Array_0,
            forall|k: int| 0 <= k < i ==> same_value(#[trigger] a[k], b[k]),
        decreases x.len() - i,
    {
        assert(a[i as int] == x@[i as int]@ && b[i as int] == y@[i as int]@);
        if !x[i].same_as(&y[i]) {
            return false;
        }
        i = i + 1;
    }
    true
}

impl Table {
    /// Whether the two tables hold the same keys with values that compare as equal.
    pub fn same_as(&self, other: &Table) -> (r: bool)
        ensures
            r == same_value(TomlView::Table(self@), TomlView::Table(other@)),
        decreases self,
    {
        if self.entries.len() != other.entries.len() {
            return false;
        }
        let mut i: usize = 0;
        while i < self.entries.len()
            invariant
                self.entries.len() == other.entries.len(),
                i <= self.entries.len(),
                forall|k: int|
                    0 <= k < i ==> {
                        let row = #[trigger] self@[k];
                        match find(other@, row.0) {
                            Some(j) => same_value(row.1, other@[j].1),
                            None => false,
                        }
                    },
            decreases self.entries.len() - i,
        {
            let ghost row = self@[i as int];
            match other.get(self.entries[i].0.as_str()) {
                Some(value) => {
                    if !self.entries[i].1.same_as(value) {
                        return false;
                    }
                },
                None => {
                    return false;
                },
            }
            i = i + 1;
        }
        true
    }
}

impl Clone for TomlValue {
    fn clone(&self) -> (r: TomlValue)
        ensures
            r@ == self@,
        decreases self,
    {
        match self {
            TomlValue::String(s) => TomlValue::String(s.clone()),
            TomlValue::Integer(n) => TomlValue::Integer(*n),
            TomlValue::Float(bits) => TomlValue::Float(*bits),
            TomlValue::Boolean(b) => TomlValue::Boolean(*b),
            TomlValue::Datetime(s) => TomlValue::Datetime(s.clone()),
            TomlValue::Array(items) => TomlValue::Array(clone_items(items)),
            TomlValue::Table(table) => TomlValue::Table(table.clone()),
        }
    }
}

fn clone_items(items: &Vec<TomlValue>) -> (r: Vec<TomlValue>)
    ensures
        TomlValue::Array(r)@ == TomlValue::Array(*items)@,
    decreases items,
{
    let mut list: Vec<TomlValue> = Vec::new();
    let mut i: usize = 0;
    while i < items.len()
        invariant
            i <= items.len(),
            list.len() == i,
            forall|k: int| 0 <= k < i ==> (#[trigger] list@[k])@ == items@[k]@,
        decreases items.len() - i,
    {
        let item = items[i].clone();
        list.push(item);
        i = i + 1;
    }
    assert(TomlValue::Array(list)@->Array_0 =~= TomlValue::Array(*items)@->Array_0);
    list
}

impl Clone for Table {
    fn clone(&self) -> (r: Table)
        ensures
            r@ == self@,
        decreases self,
    {
        let mut entries: Vec<(String, TomlValue)> = Vec::new();
        let mut i: usize = 0;
        while i < self.entries.len()
            invariant
                i <= self.entries.len(),
                entries.len() == i,
                forall|k: int|
                    0 <= k < i ==> (#[trigger] entries@[k]).0@ == self.entries@[k].0@
                        && entries@[k].1@ == self.entries@[k].1@,
            decreases self.entries.len() - i,
        {
            let value = self.entries[i].1.clone();
            entries.push((self.entries[i].0.clone(), value));
            i = i + 1;
        }
        let r = Table { entries };
        assert(r@ =~= self@);
        r
    }
}

} // verus!
