//! What holds of merging and comparing TOML values.
use vstd::prelude::*;

use crate::value;
use crate::value::TomlView;

verus! {

/// `put` is seen by a look-up of its own key and by no other.
pub proof fn law_put_lookup(
    rows: Seq<(Seq<char>, TomlView)>,
    key: Seq<char>,
    item: TomlView,
    other: Seq<char>,
)
    ensures
        value::lookup(value::put(rows, key, item), other) == (if other == key {
            Some(item)
        } else {
            value::lookup(rows, other)
        }),
{
    let after = value::put(rows, key, item);
    value::lemma_find(rows, key);
    value::lemma_find(rows, other);
    value::lemma_find(after, other);
    match value::find(rows, key) {
        Some(i) => {
            assert(after[i] == (key, item));
            assert forall|k: int| 0 <= k < rows.len() && k != i implies after[k] == rows[k] by {}
        },
        None => {
            assert(after[rows.len() as int] == (key, item));
            assert forall|k: int| 0 <= k < rows.len() implies after[k] == rows[k] by {}
        },
    }
    match (value::find(rows, other), value::find(after, other)) {
        (Some(i), Some(j)) => {
            assert(rows[i].0 == other);
            assert(after[i].0 == other);
            assert(after[j].0 == other);
            if j < rows.len() {
                assert(rows[j].0 == other);
            }
        },
        (Some(i), None) => {
            assert(after[i].0 == other);
        },
        (None, Some(j)) => {
            assert(after[j].0 == other);
            if j < rows.len() {
                assert(rows[j].0 == other);
            }
        },
        (None, None) => {},
    }
}

/// `put` keeps the keys of a table apart.
pub proof fn law_put_distinct(rows: Seq<(Seq<char>, TomlView)>, key: Seq<char>, item: TomlView)
    requires
        value::distinct_keys(rows),
    ensures
        value::distinct_keys(value::put(rows, key, item)),
{
    value::lemma_find(rows, key);
}

/// `put` keeps a table well formed.
pub proof fn law_put_well_formed(rows: Seq<(Seq<char>, TomlView)>, key: Seq<char>, item: TomlView)
    requires
        value::well_formed_rows(rows),
        value::well_formed(item),
    ensures
        value::well_formed_rows(value::put(rows, key, item)),
{
    let after = value::put(rows, key, item);
    law_put_distinct(rows, key, item);
    value::lemma_find(rows, key);
    assert forall|i: int| 0 <= i < after.len() implies value::well_formed((#[trigger] after[i]).1) by {
        if i < rows.len() {
            assert(value::well_formed(rows[i].1));
        }
    }
}

/// What a merge of two tables holds for a key: the merge of what both hold for it, or what the
/// only one that has it holds. So a later table overrides an earlier one key by key, and what it
/// does not mention stays.
pub proof fn law_merge_lookup(
    under: Seq<(Seq<char>, TomlView)>,
    over: Seq<(Seq<char>, TomlView)>,
    key: Seq<char>,
)
    requires
        value::distinct_keys(over),
    ensures
        value::lookup(value::merged_rows(under, over), key) == (match (
            value::lookup(under, key),
            value::lookup(over, key),
        ) {
            (Some(base), Some(overlay)) => Some(value::merged(base, overlay)),
            (None, Some(overlay)) => Some(overlay),
            (base, None) => base,
        }),
    decreases over.len(),
{
    if over.len() > 0 {
        let front = over.drop_last();
        let (last, item) = over[over.len() - 1];
        let rows = value::merged_rows(under, front);
        assert(value::distinct_keys(front)) by {
            assert forall|i: int, j: int| 0 <= i < j < front.len() implies (#[trigger] front[i]).0
                != (#[trigger] front[j]).0 by {
                assert(front[i] == over[i] && front[j] == over[j]);
            }
        }
        law_merge_lookup(under, front, key);
        law_merge_lookup(under, front, last);
        value::lemma_find(front, last);
        value::lemma_find(front, key);
        value::lemma_find(rows, last);
        assert(value::find(front, last) is None) by {
            if let Some(i) = value::find(front, last) {
                assert(front[i] == over[i]);
            }
        }
        let merged_item = match value::find(rows, last) {
            Some(i) => value::merged(rows[i].1, item),
            None => item,
        };
        assert(value::merged_rows(under, over) == value::put(rows, last, merged_item));
        law_put_lookup(rows, last, merged_item, key);
    }
}

/// Merging two well-formed values gives a well-formed value.
pub proof fn law_merge_well_formed(base: TomlView, overlay: TomlView)
    requires
        value::well_formed(base),
        value::well_formed(overlay),
    ensures
        value::well_formed(value::merged(base, overlay)),
    decreases overlay,
{
    if let (TomlView::Table(under), TomlView::Table(over)) = (base, overlay) {
        law_merge_rows_well_formed(under, over);
    }
}

/// Merging two well-formed tables gives a well-formed table.
pub proof fn law_merge_rows_well_formed(
    under: Seq<(Seq<char>, TomlView)>,
    over: Seq<(Seq<char>, TomlView)>,
)
    requires
        value::well_formed_rows(under),
        value::well_formed_rows(over),
    ensures
        value::well_formed_rows(value::merged_rows(under, over)),
    decreases over,
{
    if over.len() > 0 {
        let front = over.drop_last();
        let (last, item) = over[over.len() - 1];
        let rows = value::merged_rows(under, front);
        assert(value::well_formed_rows(front)) by {
            assert forall|i: int, j: int| 0 <= i < j < front.len() implies (#[trigger] front[i]).0
                != (#[trigger] front[j]).0 by {
                assert(front[i] == over[i] && front[j] == over[j]);
            }
            assert forall|i: int| 0 <= i < front.len() implies value::well_formed(
                (#[trigger] front[i]).1,
            ) by {
                assert(front[i] == over[i]);
            }
        }
        law_merge_rows_well_formed(under, front);
        value::lemma_find(rows, last);
        assert(value::well_formed(over[over.len() - 1].1));
        let merged_item = match value::find(rows, last) {
            Some(i) => value::merged(rows[i].1, item),
            None => item,
        };
        if let Some(i) = value::find(rows, last) {
            assert(value::well_formed(rows[i].1));
            law_merge_well_formed(rows[i].1, item);
        }
        assert(value::merged_rows(under, over) == value::put(rows, last, merged_item));
        law_put_well_formed(rows, last, merged_item);
    }
}

/// Merging an empty table changes nothing, and merging into an empty table gives what is merged.
pub proof fn law_merge_with_empty(rows: Seq<(Seq<char>, TomlView)>)
    requires
        value::distinct_keys(rows),
    ensures
        value::merged_rows(rows, seq![]) == rows,
        value::merged_rows(seq![], rows) == rows,
    decreases rows.len(),
{
    if rows.len() > 0 {
        let front = rows.drop_last();
        assert(value::distinct_keys(front)) by {
            assert forall|i: int, j: int| 0 <= i < j < front.len() implies (#[trigger] front[i]).0
                != (#[trigger] front[j]).0 by {
                assert(front[i] == rows[i] && front[j] == rows[j]);
            }
        }
        law_merge_with_empty(front);
        let (last, item) = rows[rows.len() - 1];
        value::lemma_find(front, last);
        assert(value::find(front, last) is None) by {
            if let Some(i) = value::find(front, last) {
                assert(front[i] == rows[i]);
            }
        }
        assert(value::merged_rows(seq![], rows) =~= rows);
    }
}

/// Whether a float that is not a number stands anywhere in `item`.
pub open spec fn holds_nan(item: TomlView) -> bool
    decreases item,
{
    match item {
        TomlView::Float(bits) => value::is_nan(bits),
        TomlView::Array(items) => exists|i: int| 0 <= i < items.len() && holds_nan(#[trigger] items[i]),
        TomlView::Table(rows) => exists|i: int|
            0 <= i < rows.len() && holds_nan((#[trigger] rows[i]).1),
        _ => false,
    }
}

/// A well-formed value compares as equal to itself, unless it holds a float that is not a number.
pub proof fn law_same_value_reflexive(item: TomlView)
    requires
        value::well_formed(item),
    ensures
        value::same_value(item, item) == !holds_nan(item),
    decreases item,
{
    match item {
        TomlView::Array(items) => {
            assert forall|i: int| 0 <= i < items.len() implies value::same_value(
                #[trigger] items[i],
                items[i],
            ) == !holds_nan(items[i]) by {
                law_same_value_reflexive(items[i]);
            }
        },
        TomlView::Table(rows) => {
            assert forall|i: int| 0 <= i < rows.len() implies value::find(
                rows,
                (#[trigger] rows[i]).0,
            ) == Some(i) && value::same_value(rows[i].1, rows[i].1) == !holds_nan(rows[i].1) by {
                value::lemma_find(rows, rows[i].0);
                let row = rows[i];
                assert(decreases_to!(item => rows));
                assert(decreases_to!(rows => rows[i]));
                law_same_value_reflexive(row.1);
            }
        },
        _ => {},
    }
}

/// A table with each key once holds for a key what stands with it, and nothing for other keys.
pub proof fn law_lookup(rows: Seq<(Seq<char>, TomlView)>, key: Seq<char>, i: int)
    requires
        value::distinct_keys(rows),
    ensures
        0 <= i < rows.len() && rows[i].0 == key ==> value::lookup(rows, key) == Some(rows[i].1),
        value::lookup(rows, key) is Some ==> exists|k: int|
            0 <= k < rows.len() && (#[trigger] rows[k]).0 == key,
{
    value::lemma_find(rows, key);
    if 0 <= i < rows.len() && rows[i].0 == key {
        let k = value::find(rows, key)->Some_0;
        assert(rows[k].0 == rows[i].0);
    }
}

/// Only two tables are merged. In every other case the later value stands alone.
pub proof fn law_other_values_are_replaced(base: TomlView, overlay: TomlView)
    requires
        !(base is Table) || !(overlay is Table),
    ensures
        value::merged(base, overlay) == overlay,
{
}

/// Merging two tables gives a table.
pub proof fn law_tables_merge_to_a_table(
    under: Seq<(Seq<char>, TomlView)>,
    over: Seq<(Seq<char>, TomlView)>,
)
    ensures
        value::merged(TomlView::Table(under), TomlView::Table(over)) == TomlView::Table(
            value::merged_rows(under, over),
        ),
{
}

/// The keys of a table.
pub open spec fn keys_of(rows: Seq<(Seq<char>, TomlView)>) -> Seq<Seq<char>> {
    rows.map_values(|row: (Seq<char>, TomlView)| row.0)
}

/// A merged table has the keys of the earlier table in their order, and after them those keys of
/// the later one that are new, in their order.
pub proof fn law_order_of_merged_keys(
    under: Seq<(Seq<char>, TomlView)>,
    over: Seq<(Seq<char>, TomlView)>,
)
    requires
        value::distinct_keys(over),
    ensures
        keys_of(value::merged_rows(under, over)) == keys_of(under) + keys_of(over).filter(
            |key: Seq<char>| !keys_of(under).contains(key),
        ),
    decreases over.len(),
{
    reveal(Seq::filter);
    let is_new = |key: Seq<char>| !keys_of(under).contains(key);
    let all = value::merged_rows(under, over);
    if over.len() == 0 {
        assert(keys_of(over) =~= Seq::<Seq<char>>::empty());
        assert(keys_of(all) =~= keys_of(under) + keys_of(over).filter(is_new));
    } else {
        let front = over.drop_last();
        let last = over[over.len() - 1];
        assert forall|i: int, j: int| 0 <= i < j < front.len() implies (#[trigger] front[i]).0 != (
        #[trigger] front[j]).0 by {
            assert(front[i] == over[i] && front[j] == over[j]);
        }
        law_order_of_merged_keys(under, front);
        let rows = value::merged_rows(under, front);
        assert(keys_of(over).drop_last() =~= keys_of(front));
        assert(keys_of(over).last() == last.0);
        value::lemma_find(rows, last.0);
        law_merge_lookup(under, front, last.0);
        value::lemma_find(under, last.0);
        value::lemma_find(front, last.0);
        assert(value::find(front, last.0) is None) by {
            if let Some(i) = value::find(front, last.0) {
                assert(front[i] == over[i]);
            }
        }
        if let Some(i) = value::find(under, last.0) {
            assert(keys_of(under)[i] == last.0);
            assert(keys_of(under).contains(last.0));
            assert(value::find(rows, last.0) is Some);
            assert(keys_of(all) =~= keys_of(rows));
        } else {
            assert(!keys_of(under).contains(last.0)) by {
                if keys_of(under).contains(last.0) {
                    let k = choose|k: int| 0 <= k < under.len() && keys_of(under)[k] == last.0;
                    assert(under[k].0 == last.0);
                }
            }
            assert(value::find(rows, last.0) is None);
            assert(keys_of(all) =~= keys_of(rows).push(last.0));
        }
        assert(keys_of(all) =~= keys_of(under) + keys_of(over).filter(is_new));
    }
}

/// Text, whole numbers, truth values and dates compare as equal to themselves alone.
pub proof fn law_same_plain_value(a: TomlView, b: TomlView)
    requires
        !(a is Float),
        !(a is Array),
        !(a is Table),
    ensures
        value::same_value(a, b) <==> a == b,
        value::same_value(b, a) <==> a == b,
{
}

/// Lists compare as equal exactly if they are equally long and equal item by item, and never to
/// anything else.
pub proof fn law_same_list(items: Seq<TomlView>, other: TomlView)
    ensures
        value::same_value(TomlView::Array(items), other) <==> {
            &&& other is Array
            &&& other->Array_0.len() == items.len()
            &&& forall|i: int|
                0 <= i < items.len() ==> value::same_value(
                    #[trigger] items[i],
                    other->Array_0[i],
                )
        },
{
}

/// The bits of a float that is not a number: the exponent is all ones, and the fraction is not
/// zero.
pub proof fn law_not_a_number(bits: u64)
    ensures
        value::is_nan(bits) <==> (bits >> 52) & 0x7ff == 0x7ff && bits & 0xf_ffff_ffff_ffff != 0,
{
    assert(bits % 0x8000_0000_0000_0000 > 0x7ff0_0000_0000_0000 <==> (bits >> 52) & 0x7ff == 0x7ff
        && bits & 0xf_ffff_ffff_ffff != 0) by (bit_vector);
}

/// Floats compare as equal exactly if neither is not a number and they have the same bits or are
/// the two zeros, and never to anything else.
pub proof fn law_same_float(x: u64, other: TomlView)
    ensures
        value::same_value(TomlView::Float(x), other) <==> {
            &&& other is Float
            &&& !value::is_nan(x)
            &&& !value::is_nan(other->Float_0)
            &&& x == other->Float_0 || (x == 0 || x == 0x8000_0000_0000_0000) && (other->Float_0
                == 0 || other->Float_0 == 0x8000_0000_0000_0000)
        },
{
    if let TomlView::Float(y) = other {
        assert(x % 0x8000_0000_0000_0000 == 0 <==> x == 0 || x == 0x8000_0000_0000_0000)
            by (bit_vector);
        assert(y % 0x8000_0000_0000_0000 == 0 <==> y == 0 || y == 0x8000_0000_0000_0000)
            by (bit_vector);
    }
}

proof fn lemma_keys(rows: Seq<(Seq<char>, TomlView)>)
    requires
        value::distinct_keys(rows),
    ensures
        keys_of(rows).no_duplicates(),
        keys_of(rows).to_set().len() == rows.len(),
        keys_of(rows).to_set().finite(),
        forall|key: Seq<char>| #[trigger]
            keys_of(rows).to_set().contains(key) <==> value::lookup(rows, key) is Some,
{
    let keys = keys_of(rows);
    assert forall|i: int, j: int| 0 <= i < j < keys.len() implies keys[i] != keys[j] by {
        assert(rows[i].0 != rows[j].0);
    }
    keys.unique_seq_to_set();
    assert forall|key: Seq<char>| #[trigger]
        keys.to_set().contains(key) <==> value::lookup(rows, key) is Some by {
        value::lemma_find(rows, key);
        if keys.contains(key) {
            let k = choose|k: int| 0 <= k < keys.len() && keys[k] == key;
            assert(rows[k].0 == key);
        }
        if let Some(i) = value::find(rows, key) {
            assert(keys[i] == key);
        }
    }
}

/// What two tables hold for a key compares as equal, or both hold nothing for it.
pub open spec fn same_at(
    x: Seq<(Seq<char>, TomlView)>,
    y: Seq<(Seq<char>, TomlView)>,
    key: Seq<char>,
) -> bool {
    match (value::lookup(x, key), value::lookup(y, key)) {
        (Some(a), Some(b)) => value::same_value(a, b),
        (None, None) => true,
        _ => false,
    }
}

/// Tables compare as equal exactly if they hold the same keys, with values that compare as equal.
/// The order of the keys does not count.
pub proof fn law_same_table(x: Seq<(Seq<char>, TomlView)>, y: Seq<(Seq<char>, TomlView)>)
    requires
        value::distinct_keys(x),
        value::distinct_keys(y),
    ensures
        value::same_value(TomlView::Table(x), TomlView::Table(y)) <==> forall|key: Seq<char>|
            #[trigger] same_at(x, y, key),
{
    lemma_keys(x);
    lemma_keys(y);
    let p = keys_of(x).to_set();
    let q = keys_of(y).to_set();
    if value::same_value(TomlView::Table(x), TomlView::Table(y)) {
        assert forall|key: Seq<char>| p.contains(key) implies q.contains(key) && same_at(
            x,
            y,
            key,
        ) by {
            value::lemma_find(x, key);
            value::lemma_find(y, key);
            let i = value::find(x, key)->Some_0;
            let row = x[i];
            assert(row.0 == key);
        }
        assert(p.subset_of(q));
        vstd::set_lib::lemma_subset_equality(p, q);
        assert forall|key: Seq<char>| #[trigger] same_at(x, y, key) by {
            assert(p.contains(key) <==> value::lookup(x, key) is Some);
            assert(q.contains(key) <==> value::lookup(y, key) is Some);
            assert(p.contains(key) <==> q.contains(key));
        }
    }
    if forall|key: Seq<char>| #[trigger] same_at(x, y, key) {
        assert(p =~= q) by {
            assert forall|key: Seq<char>| p.contains(key) <==> q.contains(key) by {
                assert(same_at(x, y, key));
                assert(p.contains(key) <==> value::lookup(x, key) is Some);
                assert(q.contains(key) <==> value::lookup(y, key) is Some);
            }
        }
        assert forall|i: int| 0 <= i < x.len() implies ({
            let row = #[trigger] x[i];
            match value::find(y, row.0) {
                Some(j) => value::same_value(row.1, y[j].1),
                None => false,
            }
        }) by {
            law_lookup(x, x[i].0, i);
            assert(same_at(x, y, x[i].0));
        }
    }
}

/// A table compares as equal to nothing but a table.
pub proof fn law_table_is_no_other_value(x: Seq<(Seq<char>, TomlView)>, other: TomlView)
    requires
        !(other is Table),
    ensures
        !value::same_value(TomlView::Table(x), other),
        !value::same_value(other, TomlView::Table(x)),
{
}

/// A value that is put into a table takes the place of the one under the same key, and comes last
/// if there is none. The other keys keep their places.
pub proof fn law_order_of_put_keys(
    rows: Seq<(Seq<char>, TomlView)>,
    key: Seq<char>,
    item: TomlView,
)
    ensures
        value::lookup(rows, key) is Some ==> keys_of(value::put(rows, key, item)) == keys_of(rows),
        value::lookup(rows, key) is None ==> keys_of(value::put(rows, key, item)) == keys_of(
            rows,
        ).push(key),
{
    value::lemma_find(rows, key);
    if value::lookup(rows, key) is Some {
        assert(keys_of(value::put(rows, key, item)) =~= keys_of(rows));
    } else {
        assert(keys_of(value::put(rows, key, item)) =~= keys_of(rows).push(key));
    }
}

} // verus!
