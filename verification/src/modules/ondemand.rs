//! The `ondemand` module: the items of allowlisted projects, and a note on those that are not.
use vstd::prelude::*;
use vstd::string::StringExecFns;

use crate::configs::ondemand::OndemandConfig;
use crate::ondemand;
use crate::ondemand::OndemandState;
use crate::ondemand_laws;
use crate::order;
use crate::text;
use crate::value;
use crate::value::{Table, TomlValue, TomlView};

verus! {

/// The settings that a value gives for the module: those in a table, if there are any.
pub open spec fn filtered_settings(config: TomlView) -> Option<TomlView> {
    match config {
        TomlView::Table(rows) => if ondemand::settings_of(rows).len() > 0 {
            Some(TomlView::Table(ondemand::settings_of(rows)))
        } else {
            None
        },
        _ => None,
    }
}

/// Keep global `[ondemand.items]` reserved for the internal normalized shape.
/// Users configure on-demand items only in allowlisted `.starship/*.toml` files
/// using `[ondemand.NAME]`.
pub fn filter_root_config(config: &TomlValue) -> (r: Option<TomlValue>)
    ensures
        match r {
            Some(settings) => filtered_settings(config@) == Some(settings@),
            None => filtered_settings(config@) is None,
        },
{
    match config {
        TomlValue::Table(rows) => {
            let settings = ondemand::copy_settings(rows);
            if settings.len() == 0 {
                None
            } else {
                Some(TomlValue::Table(settings))
            }
        },
        _ => None,
    }
}

/// The keys of a table.
pub open spec fn keys_of(rows: Seq<(Seq<char>, TomlView)>) -> Seq<Seq<char>> {
    rows.map_values(|row: (Seq<char>, TomlView)| row.0)
}

/// The names of the items, in the order in which they are shown.
pub open spec fn item_order(rows: Seq<(Seq<char>, TomlView)>) -> Seq<Seq<char>> {
    order::ascending::<String>(keys_of(rows))
}

/// The names of the items, in the order in which they are shown.
pub fn item_names(items: &Table) -> (r: Vec<String>)
    ensures
        text::texts(r@) == item_order(items@),
{
    let mut names: Vec<String> = Vec::new();
    let mut i: usize = 0;
    while i < items.len()
        invariant
            i <= items@.len(),
            names.len() == i,
            forall|k: int| 0 <= k < i ==> (#[trigger] names@[k])@ == items@[k].0,
        decreases items@.len() - i,
    {
        names.push(items.key_at(i).to_owned());
        i = i + 1;
    }
    assert(order::keys(names@) =~= keys_of(items@));
    let sorted: Vec<String> = order::sort(names);
    assert(order::keys(sorted@) =~= text::texts(sorted@));
    sorted
}

/// The name of the module that shows an item.
pub open spec fn module_name_of(name: Seq<char>) -> Seq<char> {
    "ondemand."@ + name
}

/// The name of the module that shows an item.
pub fn item_module_name(name: &str) -> (r: String)
    ensures
        r@ == module_name_of(name@),
{
    let mut r: String = "ondemand.".to_owned();
    r.append(name);
    r
}

/// What the variables in `approve_format` stand for, where `count` directories are not
/// allowlisted.
pub open spec fn approve_variable_of(variable: Seq<char>, count: nat) -> Option<Seq<char>> {
    if variable == "count"@ {
        Some(text::decimal(count))
    } else if variable == "suffix"@ {
        Some(
            if count == 1 {
                ""@
            } else {
                "s"@
            },
        )
    } else {
        None
    }
}

/// What the variables in `approve_format` stand for, where `count` directories are not
/// allowlisted.
pub fn approve_variable(variable: &str, count: usize) -> (r: Option<String>)
    ensures
        match r {
            Some(shown) => approve_variable_of(variable@, count as nat) == Some(shown@),
            None => approve_variable_of(variable@, count as nat) is None,
        },
{
    if text::same_text(variable, "count") {
        Some(text::write_decimal(count))
    } else if text::same_text(variable, "suffix") {
        if count == 1 {
            Some("".to_owned())
        } else {
            Some("s".to_owned())
        }
    } else {
        None
    }
}

/// What the variables in `format` stand for, where `items` is what the module shows.
pub open spec fn format_variable_of(variable: Seq<char>, items: Seq<char>) -> Option<Seq<char>> {
    if variable == "items"@ {
        Some(items)
    } else {
        None
    }
}

/// What the variables in `format` stand for, where `items` is what the module shows.
pub fn format_variable(variable: &str, items: &str) -> (r: Option<String>)
    ensures
        match r {
            Some(shown) => format_variable_of(variable@, items@) == Some(shown@),
            None => format_variable_of(variable@, items@) is None,
        },
{
    if text::same_text(variable, "items") {
        Some(items.to_owned())
    } else {
        None
    }
}

/// What a text that may be missing is.
pub open spec fn text_view(item: Option<String>) -> Option<Seq<char>> {
    match item {
        Some(inner) => Some(inner@),
        None => None,
    }
}

/// The items that there is something to show for, in order.
pub open spec fn visible(rendered: Seq<Option<String>>) -> Seq<Seq<char>>
    decreases rendered.len(),
{
    if rendered.len() == 0 {
        seq![]
    } else {
        let front = visible(rendered.drop_last());
        match rendered.last() {
            Some(item) if item@.len() > 0 => front.push(item@),
            _ => front,
        }
    }
}

/// What the module shows of the directories that are not allowlisted and of the items.
///
/// Each is a part of its own, if there is any such directory and if there is something to show
/// for any item.
pub open spec fn parts_of(
    approve: Option<Seq<char>>,
    items: Seq<Seq<char>>,
    separator: Seq<char>,
) -> Seq<Seq<char>> {
    (match approve {
        Some(message) => seq![message],
        None => seq![],
    }) + (if items.len() > 0 {
        seq![text::joined(items, separator)]
    } else {
        seq![]
    })
}

/// What `$items` stands for in the format of the module, if the module shows anything.
pub open spec fn module_items(
    config: OndemandConfig,
    unallowlisted: nat,
    approve: Option<Seq<char>>,
    rendered: Seq<Option<String>>,
) -> Option<Seq<char>> {
    let message = if unallowlisted > 0 {
        approve
    } else {
        None
    };
    let parts = parts_of(message, visible(rendered), config.item_separator@);
    if config.disabled || unallowlisted > 0 && approve is None || parts.len() == 0 {
        None
    } else {
        Some(text::joined(parts, config.item_separator@))
    }
}

fn visible_items(rendered: &Vec<Option<String>>) -> (r: Vec<String>)
    ensures
        text::texts(r@) == visible(rendered@),
{
    let mut list: Vec<String> = Vec::new();
    let mut i: usize = 0;
    assert(rendered@.take(0) =~= Seq::<Option<String>>::empty());
    assert(text::texts(list@) =~= Seq::<Seq<char>>::empty());
    while i < rendered.len()
        invariant
            i <= rendered.len(),
            text::texts(list@) == visible(rendered@.take(i as int)),
        decreases rendered.len() - i,
    {
        let ghost before = list@;
        assert(rendered@.take(i + 1).drop_last() =~= rendered@.take(i as int));
        if let Some(item) = &rendered[i] {
            proof {
                reveal_strlit("");
                assert(item@.len() == 0 ==> item@ =~= ""@);
            }
            if !text::same_text(item.as_str(), "") {
                list.push(item.clone());
                assert(text::texts(list@) =~= text::texts(before).push(item@));
            }
        }
        i = i + 1;
    }
    assert(rendered@.take(rendered@.len() as int) =~= rendered@);
    list
}

/// What `$items` stands for in the format of the module, if the module shows anything.
///
/// `approve` is `approve_format` with [`approve_variable`], if it is a valid format, and
/// `rendered` is what the items show, in the order of [`item_names`]. It is `None` for an item
/// that shows nothing.
pub fn module(
    config: &OndemandConfig,
    state: &OndemandState,
    approve: Option<String>,
    rendered: &Vec<Option<String>>,
) -> (r: Option<String>)
    ensures
        text_view(r) == module_items(
            *config,
            state@.unallowlisted_dirs.len(),
            text_view(approve),
            rendered@,
        ),
{
    if config.disabled {
        return None;
    }
    let mut parts: Vec<String> = Vec::new();
    let ghost separator = config.item_separator@;
    if state.unallowlisted_dirs.len() > 0 {
        match approve {
            Some(message) => {
                parts.push(message);
            },
            None => {
                return None;
            },
        }
    }
    let ghost first = parts@;
    let items: Vec<String> = visible_items(rendered);
    assert(text::texts(items@).len() == items.len());
    if items.len() > 0 {
        parts.push(text::join_texts(&items, config.item_separator));
    }
    proof {
        let message = if state@.unallowlisted_dirs.len() > 0 {
            text_view(approve)
        } else {
            None
        };
        assert(text::texts(parts@) =~= parts_of(message, visible(rendered@), separator));
        assert(text::texts(parts@).len() == parts.len());
    }
    if parts.len() == 0 {
        return None;
    }
    Some(text::join_texts(&parts, config.item_separator))
}

/// The settings that a table gives are what stands in it under any name but the reserved `items`.
/// There are none if nothing stands there, or if the value is no table.
pub proof fn law_filtered_settings(config: TomlView, name: Seq<char>)
    requires
        config matches TomlView::Table(rows) ==> value::distinct_keys(rows),
    ensures
        !(config is Table) ==> filtered_settings(config) is None,
        filtered_settings(config) matches Some(settings) ==> {
            &&& settings is Table
            &&& value::lookup(settings->Table_0, name) == (if name == "items"@ {
                None
            } else {
                value::lookup(config->Table_0, name)
            })
        },
        config matches TomlView::Table(rows) ==> (filtered_settings(config) is Some <==> exists|
            i: int,
        |
            0 <= i < rows.len() && (#[trigger] rows[i]).0 != "items"@),
{
    if let TomlView::Table(rows) = config {
        let settings = ondemand::settings_of(rows);
        ondemand_laws::law_settings(rows, name);
        if exists|i: int| 0 <= i < rows.len() && (#[trigger] rows[i]).0 != "items"@ {
            let i = choose|i: int| 0 <= i < rows.len() && (#[trigger] rows[i]).0 != "items"@;
            ondemand_laws::law_settings(rows, rows[i].0);
            value::lemma_find(rows, rows[i].0);
            value::lemma_find(settings, rows[i].0);
        }
        if settings.len() > 0 {
            ondemand_laws::law_settings(rows, settings[0].0);
            value::lemma_find(settings, settings[0].0);
            value::lemma_find(rows, settings[0].0);
        }
    }
}

/// The note speaks of as many directories as there are, and in the plural unless there is one. It
/// knows no other variables.
pub proof fn law_approve_variables(variable: Seq<char>, count: nat)
    ensures
        approve_variable_of("count"@, count) == Some(text::decimal(count)),
        approve_variable_of("suffix"@, count) is Some,
        count == 1 ==> approve_variable_of("suffix"@, count)->Some_0.len() == 0,
        count != 1 ==> approve_variable_of("suffix"@, count)->Some_0 == seq!['s'],
        variable != "count"@ && variable != "suffix"@ ==> approve_variable_of(variable, count)
            is None,
{
    reveal_strlit("count");
    reveal_strlit("suffix");
    reveal_strlit("");
    reveal_strlit("s");
    assert("count"@.len() == 5 && "suffix"@.len() == 6);
    assert("s"@ =~= seq!['s']);
}

/// `$items` in the format of the module is all that the module shows, and there is no other
/// variable.
pub proof fn law_format_variables(variable: Seq<char>, items: Seq<char>)
    ensures
        format_variable_of("items"@, items) == Some(items),
        format_variable_of(variable, items) is Some ==> variable == "items"@,
{
}

/// The module that shows an item is named after the module and the item, with a dot between them,
/// and each item has a module of its own.
pub proof fn law_module_names(name: Seq<char>, other: Seq<char>)
    ensures
        module_name_of(name) == text::joined(seq!["ondemand"@, name], "."@),
        module_name_of(name) == module_name_of(other) ==> name == other,
{
    reveal_strlit("ondemand");
    reveal_strlit(".");
    reveal_strlit("ondemand.");
    assert("ondemand"@ + "."@ =~= "ondemand."@);
    let both = seq!["ondemand"@, name];
    assert(both.drop_last() =~= seq!["ondemand"@]);
    assert(text::joined(both.drop_last(), "."@) == "ondemand"@);
    assert(module_name_of(name).skip("ondemand."@.len() as int) =~= name);
    assert(module_name_of(other).skip("ondemand."@.len() as int) =~= other);
}

/// The items are shown in ascending order of their names, each once.
pub proof fn law_item_order(rows: Seq<(Seq<char>, TomlView)>)
    ensures
        item_order(rows).to_multiset() == rows.map_values(
            |row: (Seq<char>, TomlView)| row.0,
        ).to_multiset(),
        forall|i: int, j: int|
            0 <= i < j < item_order(rows).len() ==> order::text_le(
                #[trigger] item_order(rows)[i],
                #[trigger] item_order(rows)[j],
            ),
{
    order::law_ascending::<String>(keys_of(rows));
    let names = item_order(rows);
    let le = |a: Seq<char>, b: Seq<char>| <String as order::Ranked>::key_le(a, b);
    assert forall|i: int, j: int| 0 <= i < j < names.len() implies order::text_le(
        #[trigger] names[i],
        #[trigger] names[j],
    ) by {
        assert(le(names[i], names[j]));
    }
}

/// What the items show is taken one by one, in order, and left out where it is nothing.
pub proof fn law_visible_items(
    first: Seq<Option<String>>,
    second: Seq<Option<String>>,
    item: String,
)
    ensures
        visible(first + second) == visible(first) + visible(second),
        visible(seq![Some(item)]) == (if item@.len() == 0 {
            seq![]
        } else {
            seq![item@]
        }),
        visible(seq![None]) == Seq::<Seq<char>>::empty(),
    decreases second.len(),
{
    let nothing = Seq::<Option<String>>::empty();
    let none = Seq::<Seq<char>>::empty();
    assert(visible(nothing) =~= none);
    assert(seq![Some(item)].drop_last() =~= nothing);
    assert(seq![None::<String>].drop_last() =~= nothing);
    assert(none.push(item@) =~= seq![item@]);
    if second.len() == 0 {
        assert(first + second =~= first);
        assert(visible(first) + none =~= visible(first));
    } else {
        law_visible_items(first, second.drop_last(), item);
        assert((first + second).drop_last() =~= first + second.drop_last());
        assert((first + second).last() == second.last());
        assert(visible(first + second) =~= visible(first) + visible(second));
    }
}

/// When the module shows anything: it is not disabled, and either there are directories that are
/// not allowlisted, and the note on them is valid, or there are none, and there is something to
/// show for an item.
pub proof fn law_module_shows(
    config: OndemandConfig,
    unallowlisted: nat,
    approve: Option<Seq<char>>,
    rendered: Seq<Option<String>>,
)
    ensures
        module_items(config, unallowlisted, approve, rendered) is Some <==> !config.disabled && (
        if unallowlisted > 0 {
            approve is Some
        } else {
            exists|i: int|
                0 <= i < rendered.len() && (#[trigger] rendered[i] matches Some(item) && item@.len()
                    > 0)
        }),
{
    lemma_visible(rendered);
}

/// What the items with the given names show, where `draw` says what each shows. Those that show
/// nothing are left out.
pub open spec fn drawn(
    names: Seq<Seq<char>>,
    draw: spec_fn(Seq<char>) -> Option<Seq<char>>,
) -> Seq<Seq<char>>
    decreases names.len(),
{
    if names.len() == 0 {
        seq![]
    } else {
        let front = drawn(names.drop_last(), draw);
        match draw(names.last()) {
            Some(item) if item.len() > 0 => front.push(item),
            _ => front,
        }
    }
}

proof fn lemma_drawn(
    names: Seq<Seq<char>>,
    draw: spec_fn(Seq<char>) -> Option<Seq<char>>,
    rendered: Seq<Option<String>>,
)
    requires
        rendered.len() == names.len(),
        forall|i: int| 0 <= i < names.len() ==> text_view(#[trigger] rendered[i]) == draw(names[i]),
    ensures
        visible(rendered) == drawn(names, draw),
    decreases names.len(),
{
    if names.len() > 0 {
        let front = rendered.drop_last();
        assert forall|i: int| 0 <= i < front.len() implies text_view(#[trigger] front[i]) == draw(
            names.drop_last()[i],
        ) by {
            assert(front[i] == rendered[i]);
        }
        lemma_drawn(names.drop_last(), draw, front);
        assert(text_view(rendered[rendered.len() - 1]) == draw(names.last()));
    }
}

/// What the module shows: the note on the directories that are not allowlisted, if there are any,
/// and what each item shows, one for each in the order of their names, all with the separator
/// between each two.
pub proof fn law_items_are_shown_in_order(
    config: OndemandConfig,
    state: OndemandState,
    approve: Option<Seq<char>>,
    rendered: Seq<Option<String>>,
    draw: spec_fn(Seq<char>) -> Option<Seq<char>>,
)
    requires
        rendered.len() == item_order(state@.items).len(),
        forall|i: int|
            0 <= i < rendered.len() ==> text_view(#[trigger] rendered[i]) == draw(
                item_order(state@.items)[i],
            ),
    ensures
        rendered.len() == state@.items.len(),
        ({
            let count = state@.unallowlisted_dirs.len();
            let note = match approve {
                Some(message) if count > 0 => seq![message],
                _ => seq![],
            };
            let shown = note + drawn(item_order(state@.items), draw);
            module_items(config, count, approve, rendered) == (if config.disabled || count > 0
                && approve is None || shown.len() == 0 {
                None
            } else {
                Some(text::joined(shown, config.item_separator@))
            })
        }),
{
    let names = item_order(state@.items);
    let separator = config.item_separator@;
    order::law_ascending::<String>(keys_of(state@.items));
    lemma_drawn(names, draw, rendered);
    let items = visible(rendered);
    let count = state@.unallowlisted_dirs.len();
    let note = match approve {
        Some(message) if count > 0 => seq![message],
        _ => Seq::<Seq<char>>::empty(),
    };
    let message = if count > 0 {
        approve
    } else {
        None
    };
    if items.len() > 0 {
        assert(parts_of(message, items, separator) =~= note.push(text::joined(items, separator)));
        text::lemma_joined_in_two_steps(note, items, separator);
    } else {
        assert(parts_of(message, items, separator) =~= note + items);
    }
}

proof fn lemma_visible(rendered: Seq<Option<String>>)
    ensures
        visible(rendered).len() > 0 <==> exists|i: int|
            0 <= i < rendered.len() && (#[trigger] rendered[i] matches Some(item) && item@.len()
                > 0),
    decreases rendered.len(),
{
    if rendered.len() > 0 {
        let front = rendered.drop_last();
        lemma_visible(front);
        if exists|i: int|
            0 <= i < front.len() && (#[trigger] front[i] matches Some(item) && item@.len() > 0) {
            let i = choose|i: int|
                0 <= i < front.len() && (#[trigger] front[i] matches Some(item) && item@.len() > 0);
            assert(rendered[i] == front[i]);
        }
        if exists|i: int|
            0 <= i < rendered.len() && (#[trigger] rendered[i] matches Some(item) && item@.len()
                > 0) {
            let i = choose|i: int|
                0 <= i < rendered.len() && (#[trigger] rendered[i] matches Some(item) && item@.len()
                    > 0);
            if i < front.len() {
                assert(rendered[i] == front[i]);
            }
        }
        assert(rendered[rendered.len() - 1] == rendered.last());
    }
}

} // verus!
