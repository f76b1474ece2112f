//! What holds of the items that projects contribute.
use vstd::prelude::*;
use vstd::seq_lib;
use vstd::utf8;

use crate::config;
use crate::config_laws;
use crate::context::StarshipRootConfig;
use crate::ondemand;
use crate::ondemand::{IgnoredView, PathProbe, ScannedView};
use crate::path::{DirView, PartView, StepView};
use crate::toml_text;
use crate::value;
use crate::value::TomlView;
use crate::value_laws;

verus! {

/// Whether each row is an item.
pub open spec fn all_items(rows: Seq<(Seq<char>, TomlView)>) -> bool {
    forall|i: int| 0 <= i < rows.len() ==> ondemand::is_item(#[trigger] rows[i])
}

/// A file contributes nothing but items, whatever it holds.
pub proof fn law_files_define_items(file: TomlView)
    ensures
        all_items(ondemand::items_of(file)),
{
    broadcast use seq_lib::group_filter_ensures;

    if let TomlView::Table(top) = file {
        if let Some(TomlView::Table(rows)) = value::lookup(top, "ondemand"@) {
            let keep = |row: (Seq<char>, TomlView)| ondemand::is_item(row);
            assert forall|i: int| 0 <= i < rows.filter(keep).len() implies ondemand::is_item(
                #[trigger] rows.filter(keep)[i],
            ) by {
                assert(keep(rows.filter(keep)[i]));
            }
        }
    }
}

/// A table that stands in the `[ondemand]` table of a file under a name other than `items` is an
/// item of the file, as it stands there. Nothing else is.
pub proof fn law_items_of_a_file(
    file: TomlView,
    top: Seq<(Seq<char>, TomlView)>,
    rows: Seq<(Seq<char>, TomlView)>,
    name: Seq<char>,
)
    requires
        file == TomlView::Table(top),
        value::lookup(top, "ondemand"@) == Some(TomlView::Table(rows)),
        value::distinct_keys(rows),
    ensures
        name != "items"@ && value::lookup(rows, name) is Some && value::lookup(rows, name)->Some_0
            is Table ==> value::lookup(ondemand::items_of(file), name) == value::lookup(rows, name),
        name == "items"@ || value::lookup(rows, name) is None || !(value::lookup(rows, name)->Some_0
            is Table) ==> value::lookup(ondemand::items_of(file), name) is None,
{
    lemma_item_rows(rows, name);
}

/// A file without an `[ondemand]` table has no items.
pub proof fn law_no_items_without_ondemand(file: TomlView)
    requires
        file matches TomlView::Table(top) ==> !(value::lookup(top, "ondemand"@) is Some
            && value::lookup(top, "ondemand"@)->Some_0 is Table),
    ensures
        ondemand::items_of(file) == Seq::<(Seq<char>, TomlView)>::empty(),
{
}

proof fn lemma_filtered_lookup(
    rows: Seq<(Seq<char>, TomlView)>,
    keep: spec_fn((Seq<char>, TomlView)) -> bool,
    name: Seq<char>,
)
    requires
        value::distinct_keys(rows),
    ensures
        value::lookup(rows.filter(keep), name) == (match value::lookup(rows, name) {
            Some(item) => if keep((name, item)) {
                Some(item)
            } else {
                None
            },
            None => None,
        }),
    decreases rows.len(),
{
    reveal(Seq::filter);
    if rows.len() > 0 {
        let front = rows.drop_last();
        let last = rows[rows.len() - 1];
        assert forall|i: int, j: int| 0 <= i < j < front.len() implies (#[trigger] front[i]).0 != (
        #[trigger] front[j]).0 by {
            assert(front[i] == rows[i] && front[j] == rows[j]);
        }
        lemma_filtered_lookup(front, keep, name);
        value::lemma_find(front, name);
        if last.0 == name {
            assert(value::find(front, name) is None) by {
                if let Some(i) = value::find(front, name) {
                    assert(front[i] == rows[i]);
                }
            }
        }
        let kept = front.filter(keep);
        if keep(last) {
            assert(rows.filter(keep) == kept.push(last));
            assert(kept.push(last).drop_last() =~= kept);
            value::lemma_find(kept, name);
        }
        if let Some(i) = value::find(front, name) {
            assert(front[i] == rows[i]);
        }
    }
}

proof fn lemma_item_rows(rows: Seq<(Seq<char>, TomlView)>, name: Seq<char>)
    requires
        value::distinct_keys(rows),
    ensures
        value::lookup(ondemand::item_rows(rows), name) == (match value::lookup(rows, name) {
            Some(item) => if item is Table && name != "items"@ {
                Some(item)
            } else {
                None
            },
            None => None,
        }),
{
    lemma_filtered_lookup(rows, |row: (Seq<char>, TomlView)| ondemand::is_item(row), name);
}

/// The settings of the module are all that stands in its table, as it stands there, but for what
/// stands under the reserved name `items`.
pub proof fn law_settings(rows: Seq<(Seq<char>, TomlView)>, name: Seq<char>)
    requires
        value::distinct_keys(rows),
    ensures
        name != "items"@ ==> value::lookup(ondemand::settings_of(rows), name) == value::lookup(
            rows,
            name,
        ),
        value::lookup(ondemand::settings_of(rows), "items"@) is None,
{
    let keep = |row: (Seq<char>, TomlView)| ondemand::is_setting(row);
    lemma_filtered_lookup(rows, keep, name);
    lemma_filtered_lookup(rows, keep, "items"@);
}

/// The root config gives settings exactly if it has an `[ondemand]` table, even if there is nothing
/// in that but what is reserved.
pub proof fn law_root_settings(root_config: StarshipRootConfig, name: Seq<char>)
    requires
        root_config.ondemand matches Some(table) ==> value::distinct_keys(table@),
    ensures
        root_config.ondemand is None ==> ondemand::root_settings_of(root_config) is None,
        root_config.ondemand matches Some(table) ==> {
            &&& ondemand::root_settings_of(root_config) matches Some(TomlView::Table(rows))
            &&& name != "items"@ ==> value::lookup(rows, name) == value::lookup(table@, name)
            &&& value::lookup(rows, "items"@) is None
        },
{
    if let Some(table) = root_config.ondemand {
        law_settings(table@, name);
    }
}

/// The rows of an `[ondemand]` table are looked at one by one: those that are settings, and those
/// that are items, keep their order.
pub proof fn law_order_of_rows(
    first: Seq<(Seq<char>, TomlView)>,
    second: Seq<(Seq<char>, TomlView)>,
    name: Seq<char>,
    item: TomlView,
)
    ensures
        ondemand::settings_of(first + second) == ondemand::settings_of(first)
            + ondemand::settings_of(second),
        ondemand::settings_of(seq![(name, item)]) == (if name == "items"@ {
            seq![]
        } else {
            seq![(name, item)]
        }),
        ondemand::item_rows(first + second) == ondemand::item_rows(first) + ondemand::item_rows(
            second,
        ),
        ondemand::item_rows(seq![(name, item)]) == (if name == "items"@ || !(item is Table) {
            seq![]
        } else {
            seq![(name, item)]
        }),
{
    let setting = |row: (Seq<char>, TomlView)| ondemand::is_setting(row);
    let keep = |row: (Seq<char>, TomlView)| ondemand::is_item(row);
    let one = seq![(name, item)];
    Seq::filter_distributes_over_add(first, second, setting);
    Seq::filter_distributes_over_add(first, second, keep);
    reveal_with_fuel(Seq::<_>::filter, 2);
    assert(one.drop_last() =~= Seq::<(Seq<char>, TomlView)>::empty());
    assert(one.last() == (name, item));
    assert(ondemand::settings_of(one) =~= (if name == "items"@ {
        seq![]
    } else {
        one
    }));
    assert(ondemand::item_rows(one) =~= (if name == "items"@ || !(item is Table) {
        seq![]
    } else {
        one
    }));
}

/// Files are merged one by one: the items of one more file are merged over those that there are.
pub proof fn law_files_are_merged_one_by_one(
    items: Seq<(Seq<char>, TomlView)>,
    first: Seq<TomlView>,
    second: Seq<TomlView>,
    file: TomlView,
)
    ensures
        ondemand::with_files(items, seq![]) == items,
        ondemand::with_files(items, seq![file]) == value::merged_rows(
            items,
            ondemand::items_of(file),
        ),
        ondemand::with_files(items, first + second) == ondemand::with_files(
            ondemand::with_files(items, first),
            second,
        ),
{
    assert(seq![file].drop_last() =~= Seq::<TomlView>::empty());
    lemma_with_files_add(items, first, second);
}

/// Every item of every file is among the items in the end, as a table, and there are no others.
pub proof fn law_every_item_is_collected(
    items: Seq<(Seq<char>, TomlView)>,
    files: Seq<TomlView>,
    name: Seq<char>,
)
    requires
        all_items(items),
        forall|i: int| 0 <= i < files.len() ==> value::well_formed(#[trigger] files[i]),
    ensures
        value::lookup(ondemand::with_files(items, files), name) is Some <==> {
            ||| value::lookup(items, name) is Some
            ||| exists|i: int|
                0 <= i < files.len() && value::lookup(
                    ondemand::items_of(#[trigger] files[i]),
                    name,
                ) is Some
        },
        value::lookup(ondemand::with_files(items, files), name) matches Some(item) ==> item is Table
            && name != "items"@,
    decreases files.len(),
{
    lemma_with_files_items(items, files);
    let all = ondemand::with_files(items, files);
    value::lemma_find(all, name);
    if let Some(k) = value::find(all, name) {
        assert(ondemand::is_item(all[k]));
    }
    if files.len() > 0 {
        let front = files.drop_last();
        let last = files[files.len() - 1];
        assert forall|i: int| 0 <= i < front.len() implies value::well_formed(
            #[trigger] front[i],
        ) by {
            assert(front[i] == files[i]);
        }
        law_every_item_is_collected(items, front, name);
        law_items_well_formed(last);
        value_laws::law_merge_lookup(
            ondemand::with_files(items, front),
            ondemand::items_of(last),
            name,
        );
        if exists|i: int|
            0 <= i < front.len() && value::lookup(ondemand::items_of(#[trigger] front[i]), name)
                is Some {
            let i = choose|i: int|
                0 <= i < front.len() && value::lookup(ondemand::items_of(#[trigger] front[i]), name)
                    is Some;
            assert(files[i] == front[i]);
        }
        if exists|i: int|
            0 <= i < files.len() && value::lookup(ondemand::items_of(#[trigger] files[i]), name)
                is Some {
            let i = choose|i: int|
                0 <= i < files.len() && value::lookup(ondemand::items_of(#[trigger] files[i]), name)
                    is Some;
            if i < front.len() {
                assert(front[i] == files[i]);
            }
        }
    }
}

/// A scan reports directories in the opposite order to its places: those farther up come first.
/// Only places where there is a directory count.
pub proof fn law_order_of_found(near: Seq<ScannedView>, far: Seq<ScannedView>, item: ScannedView)
    ensures
        ondemand::found(near + far) == ondemand::found(far) + ondemand::found(near),
        item.is_dir ==> ondemand::found(seq![item]) == seq![item],
        !item.is_dir ==> ondemand::found(seq![item]) == Seq::<ScannedView>::empty(),
    decreases near.len(),
{
    let none = Seq::<ScannedView>::empty();
    reveal(Seq::filter);
    assert(ondemand::found(none) =~= none);
    ondemand::lemma_found_prepend(item, none);
    assert(seq![item] + none =~= seq![item]);
    assert(none.push(item) =~= seq![item]);
    if near.len() == 0 {
        assert(near + far =~= far);
        assert(near =~= none);
        assert(ondemand::found(far) + none =~= ondemand::found(far));
    } else {
        let rest = near.skip(1);
        law_order_of_found(rest, far, item);
        ondemand::lemma_found_prepend(near[0], rest + far);
        ondemand::lemma_found_prepend(near[0], rest);
        assert(near + far =~= seq![near[0]] + (rest + far));
        assert(near =~= seq![near[0]] + rest);
        assert(ondemand::found(near + far) =~= ondemand::found(far) + ondemand::found(near));
    }
}

/// A directory that was found is known by its canonical form, or by its place if it has none.
pub proof fn law_known_directory(item: ScannedView)
    ensures
        item.canonical is None ==> item.dir() == item.place,
        item.canonical matches Some(dir) ==> item.dir() == dir,
{
}

/// Directories are told apart one by one: those that are allowlisted keep their order, and so do
/// the others.
pub proof fn law_directories_are_told_apart(
    first: Seq<ScannedView>,
    second: Seq<ScannedView>,
    item: ScannedView,
    allowlist: Set<Seq<PartView>>,
)
    ensures
        ondemand::state_of(first + second, allowlist).allowlisted_dirs == ondemand::state_of(
            first,
            allowlist,
        ).allowlisted_dirs + ondemand::state_of(second, allowlist).allowlisted_dirs,
        ondemand::state_of(first + second, allowlist).unallowlisted_dirs == ondemand::state_of(
            first,
            allowlist,
        ).unallowlisted_dirs + ondemand::state_of(second, allowlist).unallowlisted_dirs,
        allowlist.contains(item.dir().parts) ==> ondemand::state_of(
            seq![item],
            allowlist,
        ).allowlisted_dirs == seq![item.dir()],
        !allowlist.contains(item.dir().parts) ==> ondemand::state_of(
            seq![item],
            allowlist,
        ).unallowlisted_dirs == seq![item.dir()],
{
    let keep = |item: ScannedView| allowlist.contains(item.dir().parts);
    let drop = |item: ScannedView| !allowlist.contains(item.dir().parts);
    Seq::filter_distributes_over_add(first, second, keep);
    Seq::filter_distributes_over_add(first, second, drop);
    let all = ondemand::state_of(first + second, allowlist);
    let a = ondemand::state_of(first, allowlist);
    let b = ondemand::state_of(second, allowlist);
    assert(all.allowlisted_dirs =~= a.allowlisted_dirs + b.allowlisted_dirs);
    assert(all.unallowlisted_dirs =~= a.unallowlisted_dirs + b.unallowlisted_dirs);
    reveal_with_fuel(Seq::<_>::filter, 2);
    let one = ondemand::state_of(seq![item], allowlist);
    assert(seq![item].drop_last() =~= Seq::<ScannedView>::empty());
    if allowlist.contains(item.dir().parts) {
        assert(seq![item].filter(keep) =~= seq![item]);
        assert(one.allowlisted_dirs =~= seq![item.dir()]);
    } else {
        assert(seq![item].filter(drop) =~= seq![item]);
        assert(one.unallowlisted_dirs =~= seq![item.dir()]);
    }
}

/// The items come from the allowlisted directories, one after the other.
pub proof fn law_items_of_the_state(
    dirs: Seq<ScannedView>,
    item: ScannedView,
    allowlist: Set<Seq<PartView>>,
)
    ensures
        ondemand::state_of(seq![], allowlist).items == Seq::<(Seq<char>, TomlView)>::empty(),
        ondemand::state_of(dirs.push(item), allowlist).items == (if allowlist.contains(
            item.dir().parts,
        ) {
            ondemand::with_files(
                ondemand::state_of(dirs, allowlist).items,
                config::readable(item.contents),
            )
        } else {
            ondemand::state_of(dirs, allowlist).items
        }),
{
    reveal(Seq::filter);
    assert(dirs.push(item).drop_last() =~= dirs);
    let listed = ondemand::allowed(dirs, allowlist);
    assert(listed.push(item).drop_last() =~= listed);
}

/// A path that has no canonical form leads nowhere. A directory of the right name is what it leads
/// to, and else the one of that name in it, if there is one.
pub proof fn law_resolved_dir(error: String, found: PathProbe)
    ensures
        ondemand::resolved_dir(Err(error)) == Err::<DirView, Seq<char>>(error@),
        found.is_dir && found.path@.parts.len() > 0 && found.path@.parts.last() == PartView::Normal(
            utf8::encode_utf8(ondemand::DIR_NAME@),
        ) ==> ondemand::resolved_dir(Ok(found)) == Ok::<DirView, Seq<char>>(found.path@),
        !found.is_dir || found.path@.parts.len() == 0 || found.path@.parts.last()
            != PartView::Normal(utf8::encode_utf8(ondemand::DIR_NAME@)) ==> match found.child {
            Some(Ok(dir)) => ondemand::resolved_dir(Ok(found)) == Ok::<DirView, Seq<char>>(dir@),
            Some(Err(reason)) => ondemand::resolved_dir(Ok(found)) == Err::<DirView, Seq<char>>(
                reason@,
            ),
            None => {
                &&& ondemand::resolved_dir(Ok(found)) matches Err(reason)
                &&& reason == "No .starship directory found at "@ + found.shown@
                    + " or its direct child"@
            },
        },
{
}

/// What is ignored is reported section by section, in order: a section other than `[ondemand]`, a
/// key of `[ondemand]` that is no item, and `ondemand` itself if it is no table.
pub proof fn law_ignored_sections(
    first: Seq<(Seq<char>, TomlView)>,
    second: Seq<(Seq<char>, TomlView)>,
    key: Seq<char>,
    item: TomlView,
)
    ensures
        ondemand::ignored_sections(first + second) == ondemand::ignored_sections(first)
            + ondemand::ignored_sections(second),
        key != "ondemand"@ ==> ondemand::ignored_sections(seq![(key, item)]) == seq![
            IgnoredView::Section(key),
        ],
        item matches TomlView::Table(rows) ==> ondemand::ignored_sections(
            seq![("ondemand"@, item)],
        ) == ondemand::ignored_keys(rows),
        !(item is Table) ==> ondemand::ignored_sections(seq![("ondemand"@, item)]) == seq![
            IgnoredView::Ondemand,
        ],
        !(item is Table) ==> ondemand::ignored_of(item) == seq![IgnoredView::File],
    decreases second.len(),
{
    let nothing = Seq::<(Seq<char>, TomlView)>::empty();
    let none = Seq::<IgnoredView>::empty();
    assert(ondemand::ignored_sections(nothing) =~= none);
    assert(seq![(key, item)].drop_last() =~= nothing);
    assert(seq![("ondemand"@, item)].drop_last() =~= nothing);
    assert(none.push(IgnoredView::Section(key)) =~= seq![IgnoredView::Section(key)]);
    assert(none.push(IgnoredView::Ondemand) =~= seq![IgnoredView::Ondemand]);
    if let TomlView::Table(rows) = item {
        assert(none + ondemand::ignored_keys(rows) =~= ondemand::ignored_keys(rows));
    }
    if second.len() == 0 {
        assert(first + second =~= first);
        assert(ondemand::ignored_sections(first) + none =~= ondemand::ignored_sections(first));
    } else {
        law_ignored_sections(first, second.drop_last(), key, item);
        assert((first + second).drop_last() =~= first + second.drop_last());
        assert((first + second).last() == second.last());
        assert(ondemand::ignored_sections(first + second) =~= ondemand::ignored_sections(first)
            + ondemand::ignored_sections(second));
    }
}

/// The keys of `[ondemand]` are told apart one by one: one that is no table, or that has the
/// reserved name, is ignored, and no other.
pub proof fn law_ignored_keys(
    first: Seq<(Seq<char>, TomlView)>,
    second: Seq<(Seq<char>, TomlView)>,
    key: Seq<char>,
    item: TomlView,
)
    ensures
        ondemand::ignored_keys(first + second) == ondemand::ignored_keys(first)
            + ondemand::ignored_keys(second),
        !(item is Table) || key == "items"@ ==> ondemand::ignored_keys(seq![(key, item)]) == seq![
            IgnoredView::Key(key),
        ],
        item is Table && key != "items"@ ==> ondemand::ignored_keys(seq![(key, item)]) == Seq::<
            IgnoredView,
        >::empty(),
    decreases second.len(),
{
    let nothing = Seq::<(Seq<char>, TomlView)>::empty();
    let none = Seq::<IgnoredView>::empty();
    assert(ondemand::ignored_keys(nothing) =~= none);
    assert(seq![(key, item)].drop_last() =~= nothing);
    assert(none.push(IgnoredView::Key(key)) =~= seq![IgnoredView::Key(key)]);
    if second.len() == 0 {
        assert(first + second =~= first);
        assert(ondemand::ignored_keys(first) + none =~= ondemand::ignored_keys(first));
    } else {
        law_ignored_keys(first, second.drop_last(), key, item);
        assert((first + second).drop_last() =~= first + second.drop_last());
        assert((first + second).last() == second.last());
        assert(ondemand::ignored_keys(first + second) =~= ondemand::ignored_keys(first)
            + ondemand::ignored_keys(second));
    }
}

proof fn lemma_merged_items(under: Seq<(Seq<char>, TomlView)>, over: Seq<(Seq<char>, TomlView)>)
    requires
        all_items(under),
        all_items(over),
    ensures
        all_items(value::merged_rows(under, over)),
    decreases over.len(),
{
    if over.len() > 0 {
        let front = over.drop_last();
        assert forall|i: int| 0 <= i < front.len() implies ondemand::is_item(
            #[trigger] front[i],
        ) by {
            assert(front[i] == over[i]);
        }
        lemma_merged_items(under, front);
        let last = over[over.len() - 1];
        assert(ondemand::is_item(last));
        let rows = value::merged_rows(under, front);
        value::lemma_find(rows, last.0);
        if let Some(i) = value::find(rows, last.0) {
            assert(ondemand::is_item(rows[i]));
            assert(value::merged(rows[i].1, last.1) is Table);
        }
    }
}

proof fn lemma_with_files_items(items: Seq<(Seq<char>, TomlView)>, files: Seq<TomlView>)
    requires
        all_items(items),
    ensures
        all_items(ondemand::with_files(items, files)),
    decreases files.len(),
{
    if files.len() > 0 {
        lemma_with_files_items(items, files.drop_last());
        law_files_define_items(files.last());
        lemma_merged_items(
            ondemand::with_files(items, files.drop_last()),
            ondemand::items_of(files.last()),
        );
    }
}

/// All that a scan collects are items: each is a table, and none has the reserved name.
pub proof fn law_scan_collects_items(dirs: Seq<ScannedView>)
    ensures
        all_items(ondemand::collected(dirs)),
    decreases dirs.len(),
{
    if dirs.len() > 0 {
        law_scan_collects_items(dirs.drop_last());
        lemma_with_files_items(
            ondemand::collected(dirs.drop_last()),
            config::readable(dirs.last().contents),
        );
    }
}

/// Whether two scans differ in nothing but the contents of directories that are not on the
/// allowlist.
pub open spec fn same_where_allowed(
    a: Seq<ScannedView>,
    b: Seq<ScannedView>,
    allowlist: Set<Seq<PartView>>,
) -> bool {
    &&& a.len() == b.len()
    &&& forall|i: int|
        #![trigger a[i], b[i]]
        0 <= i < a.len() ==> {
            &&& a[i].dir() == b[i].dir()
            &&& a[i].is_dir == b[i].is_dir
            &&& allowlist.contains(a[i].dir().parts) ==> a[i].contents == b[i].contents
        }
}

proof fn lemma_same_where_allowed(
    a: Seq<ScannedView>,
    b: Seq<ScannedView>,
    allowlist: Set<Seq<PartView>>,
)
    requires
        same_where_allowed(a, b, allowlist),
    ensures
        ondemand::state_of(a, allowlist) == ondemand::state_of(b, allowlist),
        ondemand::allowed(a, allowlist).len() == ondemand::allowed(b, allowlist).len(),
    decreases a.len(),
{
    if a.len() > 0 {
        let last = a.len() - 1;
        let x = a.drop_last();
        let y = b.drop_last();
        assert(a[last].dir() == b[last].dir());
        assert forall|i: int|
            #![trigger x[i], y[i]]
            0 <= i < x.len() implies x[i].dir() == y[i].dir() && x[i].is_dir == y[i].is_dir && (
        allowlist.contains(x[i].dir().parts) ==> x[i].contents == y[i].contents) by {
            assert(x[i] == a[i] && y[i] == b[i]);
        }
        lemma_same_where_allowed(x, y, allowlist);
        reveal(Seq::filter);
        let listed_x = ondemand::allowed(x, allowlist);
        let listed_y = ondemand::allowed(y, allowlist);
        let other_x = ondemand::not_allowed(x, allowlist);
        let other_y = ondemand::not_allowed(y, allowlist);
        if allowlist.contains(a[last].dir().parts) {
            assert(ondemand::allowed(a, allowlist) == listed_x.push(a[last]));
            assert(ondemand::allowed(b, allowlist) == listed_y.push(b[last]));
            assert(listed_x.push(a[last]).drop_last() =~= listed_x);
            assert(listed_y.push(b[last]).drop_last() =~= listed_y);
            assert(ondemand::dirs_of(listed_x.push(a[last])) =~= ondemand::dirs_of(listed_x).push(
                a[last].dir(),
            ));
            assert(ondemand::dirs_of(listed_y.push(b[last])) =~= ondemand::dirs_of(listed_y).push(
                b[last].dir(),
            ));
        } else {
            assert(ondemand::dirs_of(other_x.push(a[last])) =~= ondemand::dirs_of(other_x).push(
                a[last].dir(),
            ));
            assert(ondemand::dirs_of(other_y.push(b[last])) =~= ondemand::dirs_of(other_y).push(
                b[last].dir(),
            ));
        }
        assert(ondemand::state_of(a, allowlist) =~= ondemand::state_of(b, allowlist));
    } else {
        assert(a =~= b);
    }
}

proof fn lemma_found_same(
    a: Seq<ScannedView>,
    b: Seq<ScannedView>,
    allowlist: Set<Seq<PartView>>,
)
    requires
        same_where_allowed(a, b, allowlist),
    ensures
        same_where_allowed(ondemand::found(a), ondemand::found(b), allowlist),
    decreases a.len(),
{
    if a.len() > 0 {
        let x = a.skip(1);
        let y = b.skip(1);
        assert forall|i: int|
            #![trigger x[i], y[i]]
            0 <= i < x.len() implies x[i].dir() == y[i].dir() && x[i].is_dir == y[i].is_dir && (
        allowlist.contains(x[i].dir().parts) ==> x[i].contents == y[i].contents) by {
            assert(x[i] == a[i + 1] && y[i] == b[i + 1]);
        }
        lemma_found_same(x, y, allowlist);
        assert(a =~= seq![a[0]] + x);
        assert(b =~= seq![b[0]] + y);
        assert(a[0].is_dir == b[0].is_dir);
        ondemand::lemma_found_prepend(a[0], x);
        ondemand::lemma_found_prepend(b[0], y);
        let p = ondemand::found(a);
        let q = ondemand::found(b);
        assert forall|i: int|
            #![trigger p[i], q[i]]
            0 <= i < p.len() implies p[i].dir() == q[i].dir() && p[i].is_dir == q[i].is_dir && (
        allowlist.contains(p[i].dir().parts) ==> p[i].contents == q[i].contents) by {
            if a[0].is_dir && i == p.len() - 1 {
                assert(p[i] == a[0] && q[i] == b[0]);
            } else {
                assert(p[i] == ondemand::found(x)[i] && q[i] == ondemand::found(y)[i]);
            }
        }
    } else {
        assert(a =~= b);
    }
}

/// What a directory holds counts only if it is on the allowlist: scans that differ in nothing but
/// the contents of other directories have the same result.
pub proof fn law_only_allowlisted_contribute(
    a: Seq<ScannedView>,
    b: Seq<ScannedView>,
    allowlist: Set<Seq<PartView>>,
)
    requires
        same_where_allowed(a, b, allowlist),
    ensures
        ondemand::state_of(ondemand::found(a), allowlist) == ondemand::state_of(
            ondemand::found(b),
            allowlist,
        ),
{
    lemma_found_same(a, b, allowlist);
    lemma_same_where_allowed(ondemand::found(a), ondemand::found(b), allowlist);
}

/// With no directory on the allowlist there are no items, and all directories are reported as not
/// allowlisted.
pub proof fn law_empty_allowlist(dirs: Seq<ScannedView>)
    ensures
        ondemand::state_of(dirs, Set::empty()).items == Seq::<(Seq<char>, TomlView)>::empty(),
        ondemand::state_of(dirs, Set::empty()).allowlisted_dirs == Seq::<DirView>::empty(),
        ondemand::state_of(dirs, Set::empty()).unallowlisted_dirs == ondemand::dirs_of(dirs),
    decreases dirs.len(),
{
    reveal(Seq::filter);
    let none = Set::<Seq<PartView>>::empty();
    if dirs.len() > 0 {
        let front = dirs.drop_last();
        law_empty_allowlist(front);
        assert(ondemand::allowed(front, none).len() == ondemand::dirs_of(
            ondemand::allowed(front, none),
        ).len());
        assert(ondemand::allowed(dirs, none) == ondemand::allowed(front, none));
        let others = ondemand::not_allowed(front, none);
        assert(ondemand::not_allowed(dirs, none) == others.push(dirs.last()));
        assert(ondemand::dirs_of(others.push(dirs.last())) =~= ondemand::dirs_of(front).push(
            dirs.last().dir(),
        ));
        assert(ondemand::dirs_of(front).push(dirs.last().dir()) =~= ondemand::dirs_of(dirs));
    }
    assert(ondemand::allowed(dirs, none) =~= Seq::<ScannedView>::empty());
}

/// Each directory that a scan found is reported once, and as allowlisted exactly if it is.
pub proof fn law_split_is_complete(
    dirs: Seq<ScannedView>,
    allowlist: Set<Seq<PartView>>,
    dir: DirView,
)
    ensures
        ({
            let state = ondemand::state_of(dirs, allowlist);
            &&& state.allowlisted_dirs.len() + state.unallowlisted_dirs.len() == dirs.len()
            &&& state.allowlisted_dirs.contains(dir) <==> ondemand::dirs_of(dirs).contains(dir)
                && allowlist.contains(dir.parts)
            &&& state.unallowlisted_dirs.contains(dir) <==> ondemand::dirs_of(dirs).contains(dir)
                && !allowlist.contains(dir.parts)
        }),
    decreases dirs.len(),
{
    reveal(Seq::filter);
    let state = ondemand::state_of(dirs, allowlist);
    if dirs.len() > 0 {
        let front = dirs.drop_last();
        let last = dirs.last();
        law_split_is_complete(front, allowlist, dir);
        let before = ondemand::state_of(front, allowlist);
        lemma_contains_push(ondemand::dirs_of(front), last.dir(), dir);
        assert(ondemand::dirs_of(dirs) =~= ondemand::dirs_of(front).push(last.dir()));
        if allowlist.contains(last.dir().parts) {
            assert(state.allowlisted_dirs =~= before.allowlisted_dirs.push(last.dir()));
            assert(state.unallowlisted_dirs =~= before.unallowlisted_dirs);
            lemma_contains_push(before.allowlisted_dirs, last.dir(), dir);
        } else {
            assert(state.unallowlisted_dirs =~= before.unallowlisted_dirs.push(last.dir()));
            assert(state.allowlisted_dirs =~= before.allowlisted_dirs);
            lemma_contains_push(before.unallowlisted_dirs, last.dir(), dir);
        }
    }
}

proof fn lemma_contains_push(list: Seq<DirView>, item: DirView, dir: DirView)
    ensures
        list.push(item).contains(dir) <==> list.contains(dir) || dir == item,
{
    let after = list.push(item);
    if list.contains(dir) {
        let k = choose|k: int| 0 <= k < list.len() && list[k] == dir;
        assert(after[k] == dir);
    }
    assert(after[list.len() as int] == item);
}

proof fn lemma_filter_well_formed(rows: Seq<(Seq<char>, TomlView)>)
    requires
        value::well_formed_rows(rows),
    ensures
        value::well_formed_rows(ondemand::item_rows(rows)),
        forall|i: int|
            0 <= i < ondemand::item_rows(rows).len() ==> rows.contains(
                #[trigger] ondemand::item_rows(rows)[i],
            ),
    decreases rows.len(),
{
    reveal(Seq::filter);
    if rows.len() > 0 {
        let front = rows.drop_last();
        let last = rows[rows.len() - 1];
        assert forall|i: int| 0 <= i < front.len() implies #[trigger] front[i] == rows[i] by {}
        assert(value::well_formed_rows(front)) by {
            assert forall|i: int, j: int| 0 <= i < j < front.len() implies (#[trigger] front[i]).0
                != (#[trigger] front[j]).0 by {
                assert(rows[i].0 != rows[j].0);
            }
        }
        lemma_filter_well_formed(front);
        let kept = ondemand::item_rows(front);
        let all = ondemand::item_rows(rows);
        assert forall|i: int| 0 <= i < kept.len() implies rows.contains(#[trigger] kept[i])
            && kept[i].0 != last.0 by {
            assert(front.contains(kept[i]));
            let k = choose|k: int| 0 <= k < front.len() && front[k] == kept[i];
            assert(rows[k] == kept[i]);
            assert(rows[k].0 != rows[rows.len() - 1].0);
        }
        assert(rows.contains(last));
        if ondemand::is_item(last) {
            assert(all == kept.push(last));
            assert(value::well_formed(last.1));
            assert forall|i: int, j: int| 0 <= i < j < all.len() implies (#[trigger] all[i]).0 != (
            #[trigger] all[j]).0 by {
                assert(all[i] == kept[i]);
                if j < kept.len() {
                    assert(all[j] == kept[j]);
                }
            }
            assert forall|i: int| 0 <= i < all.len() implies value::well_formed(
                (#[trigger] all[i]).1,
            ) && rows.contains(all[i]) by {
                if i < kept.len() {
                    assert(all[i] == kept[i]);
                }
            }
        } else {
            assert(all == kept);
        }
    }
}

/// If no key stands twice in any table of a file, none does in its items.
pub proof fn law_items_well_formed(file: TomlView)
    requires
        value::well_formed(file),
    ensures
        value::well_formed_rows(ondemand::items_of(file)),
{
    if let TomlView::Table(top) = file {
        value::lemma_find(top, "ondemand"@);
        if let Some(TomlView::Table(rows)) = value::lookup(top, "ondemand"@) {
            lemma_filter_well_formed(rows);
        }
    }
}

/// A setting of an item in one of several files is the one that counts if the files after it say
/// nothing of it, whatever the items were before and whatever the files before it say.
pub proof fn law_later_files_override_items(
    items: Seq<(Seq<char>, TomlView)>,
    files: Seq<TomlView>,
    at: int,
    path: Seq<Seq<char>>,
    setting: TomlView,
)
    requires
        0 <= at < files.len(),
        forall|i: int| at <= i < files.len() ==> value::well_formed(#[trigger] files[i]),
        config::config_at(ondemand::items_of(files[at]), path) == Some(setting),
        !(setting is Table),
        forall|i: int|
            at < i < files.len() ==> config_laws::leaves_alone(
                ondemand::items_of(#[trigger] files[i]),
                path,
            ),
    ensures
        config::config_at(ondemand::with_files(items, files), path) == Some(setting),
    decreases files.len(),
{
    let front = files.drop_last();
    let last = files[files.len() - 1];
    let under = ondemand::with_files(items, front);
    law_items_well_formed(last);
    if at == files.len() - 1 {
        config_laws::law_merge_overrides(under, ondemand::items_of(last), path, setting);
    } else {
        assert forall|i: int| at <= i < front.len() implies value::well_formed(#[trigger] front[i])
            && (at < i ==> config_laws::leaves_alone(ondemand::items_of(front[i]), path)) by {
            assert(front[i] == files[i]);
        }
        law_later_files_override_items(items, front, at, path, setting);
        config_laws::law_merge_keeps_the_rest(under, ondemand::items_of(last), path);
    }
}

/// The files of directories, directory by directory.
pub open spec fn files_of(dirs: Seq<ScannedView>) -> Seq<TomlView>
    decreases dirs.len(),
{
    if dirs.len() == 0 {
        seq![]
    } else {
        files_of(dirs.drop_last()) + config::readable(dirs.last().contents)
    }
}

proof fn lemma_with_files_add(
    items: Seq<(Seq<char>, TomlView)>,
    first: Seq<TomlView>,
    second: Seq<TomlView>,
)
    ensures
        ondemand::with_files(items, first + second) == ondemand::with_files(
            ondemand::with_files(items, first),
            second,
        ),
    decreases second.len(),
{
    if second.len() == 0 {
        assert(first + second =~= first);
    } else {
        assert((first + second).drop_last() =~= first + second.drop_last());
        lemma_with_files_add(items, first, second.drop_last());
    }
}

/// Merging directory by directory is merging all their files, one after the other.
pub proof fn law_directories_are_merged_file_by_file(dirs: Seq<ScannedView>)
    ensures
        ondemand::collected(dirs) == ondemand::with_files(seq![], files_of(dirs)),
    decreases dirs.len(),
{
    if dirs.len() > 0 {
        law_directories_are_merged_file_by_file(dirs.drop_last());
        lemma_with_files_add(
            seq![],
            files_of(dirs.drop_last()),
            config::readable(dirs.last().contents),
        );
    }
}

/// Whether a document defines the item `name`: it is TOML, and a table stands in its `[ondemand]`
/// table under that name, which is not the reserved `items`.
pub open spec fn defines(document: Option<Seq<char>>, name: Seq<char>) -> bool {
    &&& name != "items"@
    &&& document is Some
    &&& toml_text::toml_value(document->Some_0) matches Ok(TomlView::Table(top))
    &&& value::lookup(top, "ondemand"@) matches Some(TomlView::Table(rows))
    &&& value::lookup(rows, name) matches Some(TomlView::Table(_))
}

/// Every item of every file of every allowlisted directory that was found is among the items, and
/// there are no others.
pub proof fn law_every_item_of_every_file(
    scanned: Seq<ScannedView>,
    allowlist: Set<Seq<PartView>>,
    name: Seq<char>,
)
    requires
        forall|i: int|
            0 <= i < scanned.len() ==> config::all_well_formed(
                config::readable((#[trigger] scanned[i]).contents),
            ),
    ensures
        ({
            let items = ondemand::state_of(ondemand::found(scanned), allowlist).items;
            &&& value::lookup(items, name) is Some <==> exists|i: int, j: int|
                0 <= i < scanned.len() && 0 <= j < scanned[i].contents.len() && scanned[i].is_dir
                    && allowlist.contains(scanned[i].dir().parts) && #[trigger] defines(
                    scanned[i].contents[j],
                    name,
                )
            &&& value::lookup(items, name) matches Some(item) ==> item is Table
        }),
{
    let listed = ondemand::allowed(ondemand::found(scanned), allowlist);
    let files = files_of(listed);
    let none = Seq::<(Seq<char>, TomlView)>::empty();
    law_directories_are_merged_file_by_file(listed);
    assert forall|k: int| 0 <= k < files.len() implies value::well_formed(#[trigger] files[k]) by {
        lemma_files_of(listed, files[k]);
        assert(files.contains(files[k]));
        let i = choose|i: int|
            0 <= i < listed.len() && config::readable(#[trigger] listed[i].contents).contains(
                files[k],
            );
        lemma_listed(scanned, allowlist, listed[i]);
        assert(listed.contains(listed[i]));
        let p = choose|p: int| 0 <= p < scanned.len() && scanned[p] == listed[i];
        assert(config::all_well_formed(config::readable(scanned[p].contents)));
    }
    law_every_item_is_collected(none, files, name);
    if exists|k: int|
        0 <= k < files.len() && value::lookup(ondemand::items_of(#[trigger] files[k]), name)
            is Some {
        let k = choose|k: int|
            0 <= k < files.len() && value::lookup(ondemand::items_of(#[trigger] files[k]), name)
                is Some;
        lemma_files_of(listed, files[k]);
        assert(files.contains(files[k]));
        let i = choose|i: int|
            0 <= i < listed.len() && config::readable(#[trigger] listed[i].contents).contains(
                files[k],
            );
        lemma_listed(scanned, allowlist, listed[i]);
        assert(listed.contains(listed[i]));
        let p = choose|p: int| 0 <= p < scanned.len() && scanned[p] == listed[i];
        lemma_readable(scanned[p].contents, files[k]);
        let j = choose|j: int|
            0 <= j < scanned[p].contents.len() && reads_as(
                #[trigger] scanned[p].contents[j],
                files[k],
            );
        lemma_defines(scanned[p].contents[j], files[k], name);
        assert(defines(scanned[p].contents[j], name));
    }
    if exists|i: int, j: int|
        0 <= i < scanned.len() && 0 <= j < scanned[i].contents.len() && scanned[i].is_dir
            && allowlist.contains(scanned[i].dir().parts) && #[trigger] defines(
            scanned[i].contents[j],
            name,
        ) {
        let (i, j) = choose|i: int, j: int|
            0 <= i < scanned.len() && 0 <= j < scanned[i].contents.len() && scanned[i].is_dir
                && allowlist.contains(scanned[i].dir().parts) && #[trigger] defines(
                scanned[i].contents[j],
                name,
            );
        let document = scanned[i].contents[j];
        let file = toml_text::toml_value(document->Some_0)->Ok_0;
        assert(reads_as(document, file));
        lemma_readable(scanned[i].contents, file);
        lemma_listed(scanned, allowlist, scanned[i]);
        assert(scanned.contains(scanned[i]));
        let p = choose|p: int| 0 <= p < listed.len() && listed[p] == scanned[i];
        lemma_files_of(listed, file);
        assert(config::readable(listed[p].contents).contains(file));
        let k = choose|k: int| 0 <= k < files.len() && files[k] == file;
        assert(value::well_formed(files[k]));
        lemma_defines(document, file, name);
        assert(value::lookup(ondemand::items_of(files[k]), name) is Some);
    }
}

spec fn reads_as(document: Option<Seq<char>>, file: TomlView) -> bool {
    document is Some && toml_text::toml_value(document->Some_0) == Ok::<TomlView, Seq<char>>(file)
}

proof fn lemma_defines(document: Option<Seq<char>>, file: TomlView, name: Seq<char>)
    requires
        reads_as(document, file),
        value::well_formed(file),
    ensures
        defines(document, name) <==> value::lookup(ondemand::items_of(file), name) is Some,
{
    if let TomlView::Table(top) = file {
        value::lemma_find(top, "ondemand"@);
        if let Some(TomlView::Table(rows)) = value::lookup(top, "ondemand"@) {
            assert(value::well_formed_rows(rows));
            law_items_of_a_file(file, top, rows, name);
        }
    }
}

proof fn lemma_readable(contents: Seq<Option<Seq<char>>>, file: TomlView)
    ensures
        config::readable(contents).contains(file) <==> exists|j: int|
            0 <= j < contents.len() && reads_as(#[trigger] contents[j], file),
    decreases contents.len(),
{
    if contents.len() > 0 {
        let front = contents.drop_last();
        let last = contents[contents.len() - 1];
        lemma_readable(front, file);
        let before = config::readable(front);
        let after = config::readable(contents);
        if after.contains(file) {
            let k = choose|k: int| 0 <= k < after.len() && after[k] == file;
            if k < before.len() {
                assert(before[k] == file);
                let j = choose|j: int| 0 <= j < front.len() && reads_as(#[trigger] front[j], file);
                assert(contents[j] == front[j]);
            } else {
                assert(reads_as(last, file));
            }
        }
        if exists|j: int| 0 <= j < contents.len() && reads_as(#[trigger] contents[j], file) {
            let j = choose|j: int|
                0 <= j < contents.len() && reads_as(#[trigger] contents[j], file);
            if j < front.len() {
                assert(front[j] == contents[j]);
                let k = choose|k: int| 0 <= k < before.len() && before[k] == file;
                assert(after[k] == file);
            } else {
                assert(after[before.len() as int] == file);
            }
        }
    }
}

proof fn lemma_files_of(dirs: Seq<ScannedView>, file: TomlView)
    ensures
        files_of(dirs).contains(file) <==> exists|i: int|
            0 <= i < dirs.len() && config::readable(#[trigger] dirs[i].contents).contains(file),
    decreases dirs.len(),
{
    if dirs.len() > 0 {
        let front = dirs.drop_last();
        let last = dirs[dirs.len() - 1];
        lemma_files_of(front, file);
        let before = files_of(front);
        let more = config::readable(last.contents);
        let after = files_of(dirs);
        assert(after == before + more);
        if after.contains(file) {
            let k = choose|k: int| 0 <= k < after.len() && after[k] == file;
            if k < before.len() {
                assert(before[k] == file);
                let i = choose|i: int|
                    0 <= i < front.len() && config::readable(#[trigger] front[i].contents).contains(
                        file,
                    );
                assert(dirs[i].contents == front[i].contents);
            } else {
                assert(more[k - before.len()] == file);
                assert(config::readable(dirs[dirs.len() - 1].contents).contains(file));
            }
        }
        if exists|i: int|
            0 <= i < dirs.len() && config::readable(#[trigger] dirs[i].contents).contains(file) {
            let i = choose|i: int|
                0 <= i < dirs.len() && config::readable(#[trigger] dirs[i].contents).contains(file);
            if i < front.len() {
                assert(config::readable(front[i].contents).contains(file));
                let k = choose|k: int| 0 <= k < before.len() && before[k] == file;
                assert(after[k] == file);
            } else {
                let k = choose|k: int| 0 <= k < more.len() && more[k] == file;
                assert(after[before.len() + k] == file);
            }
        }
    }
}

proof fn lemma_listed(
    scanned: Seq<ScannedView>,
    allowlist: Set<Seq<PartView>>,
    item: ScannedView,
)
    ensures
        ondemand::allowed(ondemand::found(scanned), allowlist).contains(item)
            <==> scanned.contains(item) && item.is_dir && allowlist.contains(item.dir().parts),
{
    broadcast use seq_lib::group_filter_ensures;

    let is_dir = |item: ScannedView| item.is_dir;
    let keep = |item: ScannedView| allowlist.contains(item.dir().parts);
    let kept = scanned.filter(is_dir);
    let dirs = ondemand::found(scanned);
    let listed = ondemand::allowed(dirs, allowlist);
    if listed.contains(item) {
        let p = choose|p: int| 0 <= p < listed.len() && listed[p] == item;
        assert(keep(listed[p]));
        dirs.lemma_filter_contains_rev(keep, item);
        let q = choose|q: int| 0 <= q < dirs.len() && dirs[q] == item;
        assert(kept[kept.len() - 1 - q] == item);
        assert(is_dir(kept[kept.len() - 1 - q]));
        assert(kept.contains(item));
        scanned.lemma_filter_contains_rev(is_dir, item);
    }
    if scanned.contains(item) && item.is_dir && allowlist.contains(item.dir().parts) {
        let p = choose|p: int| 0 <= p < scanned.len() && scanned[p] == item;
        assert(is_dir(scanned[p]));
        assert(kept.contains(scanned[p]));
        let q = choose|q: int| 0 <= q < kept.len() && kept[q] == item;
        assert(dirs[kept.len() - 1 - q] == item);
        assert(keep(dirs[kept.len() - 1 - q]));
        assert(listed.contains(dirs[kept.len() - 1 - q]));
    }
}

/// What a file of the innermost allowlisted directory says of an item, and no later file of that
/// directory says otherwise, overrides what any other file says.
pub proof fn law_innermost_directory_wins(
    dirs: Seq<ScannedView>,
    innermost: ScannedView,
    at: int,
    path: Seq<Seq<char>>,
    setting: TomlView,
)
    requires
        0 <= at < config::readable(innermost.contents).len(),
        forall|i: int|
            at <= i < config::readable(innermost.contents).len() ==> value::well_formed(
                #[trigger] config::readable(innermost.contents)[i],
            ),
        config::config_at(
            ondemand::items_of(config::readable(innermost.contents)[at]),
            path,
        ) == Some(setting),
        !(setting is Table),
        forall|i: int|
            at < i < config::readable(innermost.contents).len() ==> config_laws::leaves_alone(
                ondemand::items_of(#[trigger] config::readable(innermost.contents)[i]),
                path,
            ),
    ensures
        config::config_at(ondemand::collected(dirs.push(innermost)), path) == Some(setting),
{
    let all = dirs.push(innermost);
    assert(all.drop_last() =~= dirs);
    law_later_files_override_items(
        ondemand::collected(dirs),
        config::readable(innermost.contents),
        at,
        path,
        setting,
    );
}

/// Each key of an `[ondemand]` table is taken as an item or reported as ignored.
pub proof fn law_keys_are_taken_or_reported(rows: Seq<(Seq<char>, TomlView)>)
    ensures
        ondemand::item_rows(rows).len() + ondemand::ignored_keys(rows).len() == rows.len(),
    decreases rows.len(),
{
    reveal(Seq::filter);
    if rows.len() > 0 {
        law_keys_are_taken_or_reported(rows.drop_last());
    }
}

/// The path `count` above another.
pub open spec fn above(dir: DirView, count: int) -> DirView {
    DirView {
        base: dir.base,
        steps: dir.steps + Seq::new(count as nat, |i: int| StepView::Parent),
        parts: dir.parts.take(dir.parts.len() - count),
    }
}

/// A scan looks at the directory `.starship` in the current directory and in those above it, one
/// after the other, and at no more places than its depth allows.
pub proof fn law_scan_is_bounded(current_dir: DirView, scan_depth: usize, i: int)
    ensures
        0 < ondemand::places(current_dir, scan_depth).len() <= scan_depth + 1,
        0 <= i < ondemand::places(current_dir, scan_depth).len() ==> i <= current_dir.parts.len()
            && ondemand::places(current_dir, scan_depth)[i] == above(current_dir, i).join(
            ondemand::DIR_NAME@,
        ),
{
    lemma_ancestors(current_dir, ondemand::scan_count(scan_depth), i);
}

/// Whether there is nothing above a path: it has no parts, or ends with the root or a prefix.
pub open spec fn is_top(dir: DirView) -> bool {
    dir.parts.len() == 0 || dir.parts.last() is RootDir || dir.parts.last() is Prefix
}

/// A scan goes up as far as its depth allows, and stops before that only at the top.
pub proof fn law_scan_goes_up(current_dir: DirView, scan_depth: usize)
    ensures
        ({
            let count = ondemand::places(current_dir, scan_depth).len();
            &&& count == scan_depth + 1 || count == usize::MAX || is_top(
                above(current_dir, count - 1),
            )
            &&& forall|i: int| 0 <= i < count - 1 ==> !is_top(#[trigger] above(current_dir, i))
        }),
{
    lemma_top(current_dir, ondemand::scan_count(scan_depth));
}

/// A deeper scan looks at the same places first.
pub proof fn law_deeper_scan(current_dir: DirView, scan_depth: usize, deeper: usize)
    requires
        scan_depth <= deeper,
    ensures
        ondemand::places(current_dir, scan_depth).is_prefix_of(
            ondemand::places(current_dir, deeper),
        ),
{
    let a = ondemand::places(current_dir, scan_depth);
    let b = ondemand::places(current_dir, deeper);
    lemma_longer(current_dir, ondemand::scan_count(scan_depth), ondemand::scan_count(deeper));
    assert(b.subrange(0, a.len() as int) =~= a) by {
        assert forall|i: int| 0 <= i < a.len() implies a[i] == b[i] by {
            lemma_ancestors(current_dir, ondemand::scan_count(scan_depth), i);
            lemma_ancestors(current_dir, ondemand::scan_count(deeper), i);
        }
    }
}

proof fn lemma_longer(dir: DirView, count: nat, more: nat)
    requires
        count <= more,
    ensures
        dir.ancestors(count).len() <= dir.ancestors(more).len(),
    decreases count,
{
    if count > 0 {
        if let Some(parent) = dir.parent() {
            lemma_longer(parent, (count - 1) as nat, (more - 1) as nat);
        }
    }
}

proof fn lemma_top(dir: DirView, count: nat)
    requires
        count > 0,
    ensures
        dir.ancestors(count).len() == count || is_top(above(dir, dir.ancestors(count).len() - 1)),
        forall|i: int|
            0 <= i < dir.ancestors(count).len() - 1 ==> !is_top(#[trigger] above(dir, i)),
    decreases count,
{
    assert(above(dir, 0) =~= dir);
    if let Some(parent) = dir.parent() {
        if count > 1 {
            lemma_top(parent, (count - 1) as nat);
            let n = parent.ancestors((count - 1) as nat).len();
            assert(dir.ancestors(count).len() == n + 1);
            lemma_ancestors(parent, (count - 1) as nat, n - 1);
            assert(above(parent, n - 1) =~= above(dir, n as int));
            assert forall|i: int| 0 <= i < dir.ancestors(count).len() - 1 implies !is_top(
                #[trigger] above(dir, i),
            ) by {
                if i > 0 {
                    lemma_ancestors(parent, (count - 1) as nat, i - 1);
                    assert(above(parent, i - 1) =~= above(dir, i));
                    assert(!is_top(above(parent, i - 1)));
                }
            }
        } else {
            assert(parent.ancestors(0).len() == 0);
        }
    }
}

/// The places that a scan has looked at.
pub open spec fn places_of(scanned: Seq<ScannedView>) -> Seq<DirView> {
    scanned.map_values(|item: ScannedView| item.place)
}

/// Whether `dir` was found at the place that is `i` above the current directory.
pub open spec fn found_at(
    scanned: Seq<ScannedView>,
    current_dir: DirView,
    dir: DirView,
    i: int,
) -> bool {
    &&& 0 <= i < scanned.len()
    &&& i <= current_dir.parts.len()
    &&& scanned[i].is_dir
    &&& scanned[i].place == above(current_dir, i).join(ondemand::DIR_NAME@)
    &&& scanned[i].dir() == dir
}

/// A scan of the current directory and those above reports no more directories than its depth
/// allows, and just those that were found there: each is the canonical form of `.starship` in one
/// of them, or that itself if it has no canonical form.
pub proof fn law_scan_reports_what_was_found(
    current_dir: DirView,
    scan_depth: usize,
    scanned: Seq<ScannedView>,
    allowlist: Set<Seq<PartView>>,
    dir: DirView,
)
    requires
        places_of(scanned) == ondemand::places(current_dir, scan_depth),
    ensures
        ({
            let state = ondemand::state_of(ondemand::found(scanned), allowlist);
            &&& state.allowlisted_dirs.len() + state.unallowlisted_dirs.len() <= scan_depth + 1
            &&& state.allowlisted_dirs.contains(dir) || state.unallowlisted_dirs.contains(dir)
                <==> exists|i: int| found_at(scanned, current_dir, dir, i)
        }),
{
    broadcast use seq_lib::group_filter_ensures;

    let keep = |item: ScannedView| item.is_dir;
    let kept = scanned.filter(keep);
    let dirs = ondemand::found(scanned);
    law_split_is_complete(dirs, allowlist, dir);
    assert(places_of(scanned).len() == scanned.len());
    law_scan_is_bounded(current_dir, scan_depth, 0);
    assert(dirs.len() == kept.len() <= scanned.len());
    if ondemand::dirs_of(dirs).contains(dir) {
        let k = choose|k: int| 0 <= k < dirs.len() && ondemand::dirs_of(dirs)[k] == dir;
        let item = kept[kept.len() - 1 - k];
        assert(dirs[k] == item);
        assert(keep(item));
        assert(kept.contains(item));
        scanned.lemma_filter_contains_rev(keep, item);
        let i = choose|i: int| 0 <= i < scanned.len() && scanned[i] == item;
        law_scan_is_bounded(current_dir, scan_depth, i);
        assert(places_of(scanned)[i] == item.place);
        assert(found_at(scanned, current_dir, dir, i));
    }
    if exists|i: int| found_at(scanned, current_dir, dir, i) {
        let i = choose|i: int| found_at(scanned, current_dir, dir, i);
        assert(keep(scanned[i]));
        assert(kept.contains(scanned[i]));
        let j = choose|j: int| 0 <= j < kept.len() && kept[j] == scanned[i];
        assert(dirs[kept.len() - 1 - j] == kept[j]);
        assert(ondemand::dirs_of(dirs)[kept.len() - 1 - j] == dir);
    }
}

proof fn lemma_ancestors(dir: DirView, count: nat, i: int)
    ensures
        dir.ancestors(count).len() <= count,
        count > 0 ==> dir.ancestors(count).len() > 0,
        0 <= i < dir.ancestors(count).len() ==> i <= dir.parts.len() && dir.ancestors(count)[i]
            == above(dir, i),
    decreases count,
{
    if count > 0 {
        assert(above(dir, 0) =~= dir);
        if let Some(parent) = dir.parent() {
            lemma_ancestors(parent, (count - 1) as nat, i - 1);
            if 0 < i < dir.ancestors(count).len() {
                assert(above(parent, i - 1) =~= above(dir, i));
            }
        }
    }
}

} // verus!
