//! What holds of configurations, and of those that are merged from several files.
use vstd::prelude::*;

use crate::config;
use crate::config::{Either, StarshipConfig};
use crate::text;
use crate::text_laws;
use crate::toml_text;
use crate::value;
use crate::value::{Table, TomlView};
use crate::value_laws;

verus! {

/// A path leads first to the table that its first keys lead to, and from there on by the others.
pub proof fn law_path_in_two_steps(
    rows: Seq<(Seq<char>, TomlView)>,
    first: Seq<Seq<char>>,
    second: Seq<Seq<char>>,
)
    requires
        first.len() > 0,
        second.len() > 0,
    ensures
        config::config_at(rows, first + second) == (match config::config_at(rows, first) {
            Some(TomlView::Table(inner)) => config::config_at(inner, second),
            _ => None,
        }),
    decreases first.len(),
{
    let path = first + second;
    assert(path[0] == first[0]);
    if first.len() == 1 {
        assert(path.skip(1) =~= second);
    } else {
        assert(path.skip(1) =~= first.skip(1) + second);
        if let Some(TomlView::Table(inner)) = value::lookup(rows, first[0]) {
            law_path_in_two_steps(inner, first.skip(1), second);
        }
    }
}

/// A path of one key leads to what the table holds for it.
pub proof fn law_path_of_one_key(rows: Seq<(Seq<char>, TomlView)>, key: Seq<char>)
    ensures
        config::config_at(rows, seq![key]) == value::lookup(rows, key),
{
}

/// What is put under a key is what the configuration holds for the module of that name, and as a
/// table if it is one. The other modules do not see it.
pub proof fn law_module_config(
    config: StarshipConfig,
    changed: StarshipConfig,
    name: Seq<char>,
    item: TomlView,
    other: Seq<char>,
)
    requires
        config.config is Some,
        changed.config is Some,
        changed.config->Some_0@ == value::put(config.config->Some_0@, name, item),
    ensures
        changed.module_config(name) == Some(item),
        item matches TomlView::Table(rows) ==> changed.table_at(seq![name]) == Some(rows),
        !(item is Table) ==> changed.table_at(seq![name]) is None,
        other != name ==> changed.module_config(other) == config.module_config(other),
        other != name ==> changed.table_at(seq![other]) == config.table_at(seq![other]),
{
    value_laws::law_put_lookup(config.config->Some_0@, name, item, name);
    value_laws::law_put_lookup(config.config->Some_0@, name, item, other);
}

/// Nothing is found without a configuration.
pub proof fn law_without_a_config(config: StarshipConfig, path: Seq<Seq<char>>)
    requires
        config.config is None,
    ensures
        config.at(path) is None,
        config.table_at(path) is None,
{
}

/// A reading is repeated exactly if it failed and the error speaks of an unknown key, wherever in
/// its text.
pub proof fn law_read_again<T>(read: Result<T, String>)
    ensures
        config::refused_for_key(read) <==> exists|before: Seq<char>, after: Seq<char>|
            read is Err && (#[trigger] (before + "Unknown key"@ + after)) == read->Err_0@,
{
    if let Err(error) = read {
        text_laws::law_contains_text(error@, "Unknown key"@);
    }
}

/// The name of the schema of a list is that of what it holds after `VecOr_`, and its id is that of
/// what it holds in angle brackets after the path of the type.
pub proof fn law_schema_texts(inner: Seq<char>)
    ensures
        config::vec_or_name(inner) == text::joined(seq!["VecOr"@, inner], "_"@),
        config::vec_or_id(inner) == text::joined(
            seq!["starship::config::VecOr"@, inner + ">"@],
            "<"@,
        ),
{
    reveal_strlit("VecOr");
    reveal_strlit("_");
    reveal_strlit("VecOr_");
    reveal_strlit("starship::config::VecOr");
    reveal_strlit("<");
    reveal_strlit("starship::config::VecOr<");
    assert("VecOr"@ + "_"@ =~= "VecOr_"@);
    assert("starship::config::VecOr"@ + "<"@ =~= "starship::config::VecOr<"@);
    let a = seq!["VecOr"@, inner];
    let b = seq!["starship::config::VecOr"@, inner + ">"@];
    assert(a.drop_last() =~= seq!["VecOr"@]);
    assert(b.drop_last() =~= seq!["starship::config::VecOr"@]);
    assert(text::joined(a.drop_last(), "_"@) == "VecOr"@);
    assert(text::joined(b.drop_last(), "<"@) == "starship::config::VecOr"@);
    assert(config::vec_or_id(inner) =~= "starship::config::VecOr"@ + "<"@ + (inner + ">"@));
}

/// Documents are read one by one: those that are TOML give their values, in their order.
pub proof fn law_documents_are_read_one_by_one(
    first: Seq<Option<Seq<char>>>,
    second: Seq<Option<Seq<char>>>,
    document: Seq<char>,
)
    ensures
        config::readable(first + second) == config::readable(first) + config::readable(second),
        config::readable(seq![Some(document)]) == (match toml_text::toml_value(document) {
            Ok(item) => seq![item],
            Err(_) => seq![],
        }),
        config::readable(seq![None]) == Seq::<TomlView>::empty(),
    decreases second.len(),
{
    let one = seq![Some(document)];
    let none = seq![None::<Seq<char>>];
    let nothing = Seq::<Option<Seq<char>>>::empty();
    assert(one.drop_last() =~= nothing);
    assert(none.drop_last() =~= nothing);
    assert(config::readable(nothing) =~= Seq::<TomlView>::empty());
    assert(config::readable(one) =~= (match toml_text::toml_value(document) {
        Ok(item) => seq![item],
        Err(_) => seq![],
    }));
    if second.len() == 0 {
        assert(first + second =~= first);
        assert(config::readable(first) + config::readable(second) =~= config::readable(first));
    } else {
        law_documents_are_read_one_by_one(first, second.drop_last(), document);
        assert((first + second).drop_last() =~= first + second.drop_last());
        assert((first + second).last() == second.last());
        assert(config::readable(first + second) =~= config::readable(first) + config::readable(
            second,
        ));
    }
}

/// There is a configuration exactly if there is a value. One value that is a table is the whole
/// configuration.
pub proof fn law_one_file(values: Seq<TomlView>, rows: Seq<(Seq<char>, TomlView)>)
    requires
        value::distinct_keys(rows),
    ensures
        config::merged_config(values) is None <==> values.len() == 0,
        config::merged_config(seq![TomlView::Table(rows)]) == Some(rows),
{
    let one = seq![TomlView::Table(rows)];
    let nothing = Seq::<TomlView>::empty();
    assert(one.drop_last() =~= nothing);
    assert(config::merged_values(nothing) == TomlView::Table(seq![]));
    value_laws::law_merge_with_empty(rows);
}

/// A value that is no table replaces all before it, and then the configuration is empty until a
/// table comes.
pub proof fn law_file_that_is_no_table(
    values: Seq<TomlView>,
    item: TomlView,
    rows: Seq<(Seq<char>, TomlView)>,
)
    requires
        !(item is Table),
    ensures
        config::merged_config(values.push(item)) == Some(Seq::<(Seq<char>, TomlView)>::empty()),
        config::merged_config(values.push(item).push(TomlView::Table(rows))) == Some(rows),
{
    let one = values.push(item);
    let two = one.push(TomlView::Table(rows));
    assert(one.drop_last() =~= values);
    assert(two.drop_last() =~= one);
}

/// The config of a custom module is what the table of all custom modules holds for its name.
pub proof fn law_custom_module(config: StarshipConfig, name: Seq<char>)
    ensures
        config.custom_module_config(name) == (match config.custom_modules() {
            Some(rows) => value::lookup(rows, name),
            None => None,
        }),
{
    assert(seq!["custom"@, name] =~= seq!["custom"@] + seq![name]);
    if let Some(table) = config.config {
        law_path_in_two_steps(table@, seq!["custom"@], seq![name]);
    }
}

/// The custom modules are the table that stands under `custom`, the `env_var` modules that under
/// `env_var`, and there are none where something else stands there. Any other module is what stands
/// under its name.
pub proof fn law_modules(config: StarshipConfig, table: Table, name: Seq<char>)
    requires
        config.config == Some(table),
    ensures
        config.module_config(name) == value::lookup(table@, name),
        config.custom_modules() == (match value::lookup(table@, "custom"@) {
            Some(TomlView::Table(rows)) => Some(rows),
            _ => None,
        }),
        config.env_var_modules() == (match value::lookup(table@, "env_var"@) {
            Some(TomlView::Table(rows)) => Some(rows),
            _ => None,
        }),
{
}

/// A file is the configuration if it could be read and is TOML, and there is none otherwise.
pub proof fn law_config_in_a_file(document: Seq<char>)
    ensures
        config::read_config(None) is None,
        config::read_config(Some(document)) is Some <==> toml_text::toml_table(document) is Ok,
        toml_text::toml_table(document) matches Ok(rows) ==> config::read_config(Some(document))
            == Some(rows),
{
}

/// A list is read as it is, and one value as the list that holds just that.
pub proof fn law_one_or_many<T>(list: Vec<T>, item: T, i: int)
    ensures
        config::list_of(Either::First(list)).len() == list@.len(),
        0 <= i < list@.len() ==> config::list_of(Either::First(list))[i] == list@[i],
        config::list_of(Either::<Vec<T>, T>::Second(item)).len() == 1,
        config::list_of(Either::<Vec<T>, T>::Second(item))[0] == item,
{
}

/// Whether a table says nothing of what stands at `path`: going down the path, a key is missing
/// before anything but a table is met.
pub open spec fn leaves_alone(rows: Seq<(Seq<char>, TomlView)>, path: Seq<Seq<char>>) -> bool
    decreases path.len(),
{
    if path.len() == 0 {
        false
    } else {
        match value::lookup(rows, path[0]) {
            None => true,
            Some(TomlView::Table(inner)) => leaves_alone(inner, path.skip(1)),
            Some(_) => false,
        }
    }
}

proof fn lemma_leaves_alone(rows: Seq<(Seq<char>, TomlView)>, path: Seq<Seq<char>>)
    requires
        leaves_alone(rows, path),
    ensures
        config::config_at(rows, path) is None,
    decreases path.len(),
{
    if let Some(TomlView::Table(inner)) = value::lookup(rows, path[0]) {
        lemma_leaves_alone(inner, path.skip(1));
    }
}

proof fn lemma_lookup_well_formed(rows: Seq<(Seq<char>, TomlView)>, key: Seq<char>)
    requires
        value::well_formed_rows(rows),
    ensures
        value::lookup(rows, key) matches Some(item) ==> value::well_formed(item),
{
    value::lemma_find(rows, key);
}

/// Merging keeps what the later table says nothing of.
pub proof fn law_merge_keeps_the_rest(
    under: Seq<(Seq<char>, TomlView)>,
    over: Seq<(Seq<char>, TomlView)>,
    path: Seq<Seq<char>>,
)
    requires
        value::well_formed_rows(over),
        leaves_alone(over, path),
    ensures
        config::config_at(value::merged_rows(under, over), path) == config::config_at(under, path),
    decreases path.len(),
{
    value_laws::law_merge_lookup(under, over, path[0]);
    lemma_lookup_well_formed(over, path[0]);
    reveal_with_fuel(leaves_alone, 2);
    if let Some(TomlView::Table(inner)) = value::lookup(over, path[0]) {
        match value::lookup(under, path[0]) {
            Some(TomlView::Table(below)) => {
                law_merge_keeps_the_rest(below, inner, path.skip(1));
            },
            _ => {
                lemma_leaves_alone(inner, path.skip(1));
            },
        }
    }
}

/// What the later table holds at a path overrides what the earlier one holds there, where two
/// tables are merged.
pub proof fn law_merge_overrides(
    under: Seq<(Seq<char>, TomlView)>,
    over: Seq<(Seq<char>, TomlView)>,
    path: Seq<Seq<char>>,
    item: TomlView,
)
    requires
        value::well_formed_rows(over),
        config::config_at(over, path) == Some(item),
    ensures
        config::config_at(value::merged_rows(under, over), path) == (match config::config_at(
            under,
            path,
        ) {
            Some(base) => Some(value::merged(base, item)),
            None => Some(item),
        }),
    decreases path.len(),
{
    value_laws::law_merge_lookup(under, over, path[0]);
    lemma_lookup_well_formed(over, path[0]);
    if path.len() > 1 {
        if let Some(TomlView::Table(inner)) = value::lookup(over, path[0]) {
            if let Some(TomlView::Table(below)) = value::lookup(under, path[0]) {
                law_merge_overrides(below, inner, path.skip(1), item);
            }
        }
    }
}

/// Another file at the end of the order is merged over what the files before it give, or is the
/// whole configuration if it is the only one.
pub proof fn law_last_file(values: Seq<TomlView>, rows: Seq<(Seq<char>, TomlView)>)
    requires
        value::well_formed_rows(rows),
    ensures
        config::merged_config(values.push(TomlView::Table(rows))) == (match config::merged_config(
            values,
        ) {
            Some(under) => if config::merged_values(values) is Table {
                Some(value::merged_rows(under, rows))
            } else {
                Some(rows)
            },
            None => Some(rows),
        }),
{
    let all = values.push(TomlView::Table(rows));
    assert(all.drop_last() =~= values);
    value_laws::law_merge_with_empty(rows);
}

/// Later files override earlier ones: a setting of the last file is the one that counts, and what
/// it says nothing of stays as the files before it have it.
pub proof fn law_later_files_override(
    values: Seq<TomlView>,
    rows: Seq<(Seq<char>, TomlView)>,
    path: Seq<Seq<char>>,
)
    requires
        value::well_formed_rows(rows),
        config::merged_values(values) is Table,
    ensures
        config::merged_config(values.push(TomlView::Table(rows))) is Some,
        config::config_at(rows, path) matches Some(setting) && !(setting is Table)
            ==> config::config_at(
            config::merged_config(values.push(TomlView::Table(rows)))->Some_0,
            path,
        ) == config::config_at(rows, path),
        leaves_alone(rows, path) ==> config::config_at(
            config::merged_config(values.push(TomlView::Table(rows)))->Some_0,
            path,
        ) == config::config_at(config::merged_values(values)->Table_0, path),
{
    let under = config::merged_values(values)->Table_0;
    let all = values.push(TomlView::Table(rows));
    assert(all.drop_last() =~= values);
    if let Some(setting) = config::config_at(rows, path) {
        law_merge_overrides(under, rows, path, setting);
    }
    if leaves_alone(rows, path) {
        law_merge_keeps_the_rest(under, rows, path);
    }
}

/// Files that are tables give a table, in which no key stands twice if none does in theirs.
pub proof fn law_tables_give_a_table(values: Seq<TomlView>)
    requires
        forall|i: int| 0 <= i < values.len() ==> (#[trigger] values[i]) is Table,
        forall|i: int| 0 <= i < values.len() ==> value::well_formed(#[trigger] values[i]),
    ensures
        config::merged_values(values) is Table,
        value::well_formed(config::merged_values(values)),
    decreases values.len(),
{
    if values.len() > 0 {
        let front = values.drop_last();
        assert forall|i: int| 0 <= i < front.len() implies (#[trigger] front[i]) is Table
            && value::well_formed(front[i]) by {
            assert(front[i] == values[i]);
        }
        law_tables_give_a_table(front);
        assert(values.last() == values[values.len() - 1]);
        value_laws::law_merge_well_formed(config::merged_values(front), values.last());
    }
}

/// A setting of one of several files is the one that counts if the files after it say nothing of
/// it, whatever the files before it say.
pub proof fn law_setting_of_a_file(
    values: Seq<TomlView>,
    at: int,
    path: Seq<Seq<char>>,
    setting: TomlView,
)
    requires
        forall|i: int| 0 <= i < values.len() ==> (#[trigger] values[i]) is Table,
        forall|i: int| 0 <= i < values.len() ==> value::well_formed(#[trigger] values[i]),
        0 <= at < values.len(),
        config::config_at(values[at]->Table_0, path) == Some(setting),
        !(setting is Table),
        forall|i: int|
            at < i < values.len() ==> leaves_alone((#[trigger] values[i])->Table_0, path),
    ensures
        config::merged_values(values) is Table,
        config::config_at(config::merged_values(values)->Table_0, path) == Some(setting),
    decreases values.len(),
{
    let front = values.drop_last();
    let last = values[values.len() - 1];
    assert forall|i: int| 0 <= i < front.len() implies (#[trigger] front[i]) is Table
        && value::well_formed(front[i]) && (at < i ==> leaves_alone(front[i]->Table_0, path)) by {
        assert(front[i] == values[i]);
    }
    law_tables_give_a_table(front);
    let under = config::merged_values(front)->Table_0;
    if at == values.len() - 1 {
        law_merge_overrides(under, last->Table_0, path, setting);
    } else {
        law_setting_of_a_file(front, at, path, setting);
        law_merge_keeps_the_rest(under, last->Table_0, path);
    }
}

/// Files that could not be read, or that are no TOML, do not count: the others are taken in their
/// order.
pub proof fn law_unreadable_files_do_not_count(
    before: Seq<Option<Seq<char>>>,
    content: Option<Seq<char>>,
    after: Seq<Option<Seq<char>>>,
)
    requires
        content matches Some(document) ==> toml_text::toml_value(document) is Err,
    ensures
        config::readable(before + seq![content] + after) == config::readable(before + after),
    decreases after.len(),
{
    let whole = before + seq![content] + after;
    if after.len() == 0 {
        assert(whole.drop_last() =~= before);
        assert(before + after =~= before);
    } else {
        assert(whole.drop_last() =~= before + seq![content] + after.drop_last());
        assert((before + after).drop_last() =~= before + after.drop_last());
        assert(whole.last() == after.last());
        assert((before + after).last() == after.last());
        law_unreadable_files_do_not_count(before, content, after.drop_last());
    }
}

} // verus!
