//! Items that a project contributes to the prompt from its `.starship` directories.
use vstd::prelude::*;
use vstd::string::StringExecFns;
use vstd::utf8;

use crate::allowlist::Allowlist;
use crate::config;
use crate::context::StarshipRootConfig;
use crate::ondemand_laws;
use crate::path;
use crate::path::{DirPath, DirView, PartView};
use crate::text;
use crate::value;
use crate::value::{Table, TomlValue, TomlView};
use crate::value_laws;

verus! {

/// The name of the directories that hold the items.
pub const DIR_NAME: &'static str = ".starship";

/// Whether a row of an `[ondemand]` table has a name of its own: `items` is reserved for the
/// normalized internal shape.
pub open spec fn is_setting(row: (Seq<char>, TomlView)) -> bool {
    row.0 != "items"@
}

/// Whether a row of an `[ondemand]` table defines an item, as `[ondemand.NAME]` does.
pub open spec fn is_item(row: (Seq<char>, TomlView)) -> bool {
    is_setting(row) && row.1 is Table
}

/// The settings in an `[ondemand]` table.
pub open spec fn settings_of(rows: Seq<(Seq<char>, TomlView)>) -> Seq<(Seq<char>, TomlView)> {
    rows.filter(|row: (Seq<char>, TomlView)| is_setting(row))
}

/// The items that an `[ondemand]` table defines.
pub open spec fn item_rows(rows: Seq<(Seq<char>, TomlView)>) -> Seq<(Seq<char>, TomlView)> {
    rows.filter(|row: (Seq<char>, TomlView)| is_item(row))
}

/// The items that a file defines, given what it holds.
pub open spec fn items_of(file: TomlView) -> Seq<(Seq<char>, TomlView)> {
    match file {
        TomlView::Table(top) => match value::lookup(top, "ondemand"@) {
            Some(TomlView::Table(rows)) => item_rows(rows),
            _ => seq![],
        },
        _ => seq![],
    }
}

/// Which rows of an `[ondemand]` table are copied.
spec fn chosen(items_only: bool) -> spec_fn((Seq<char>, TomlView)) -> bool {
    if items_only {
        |row: (Seq<char>, TomlView)| is_item(row)
    } else {
        |row: (Seq<char>, TomlView)| is_setting(row)
    }
}

fn copy_rows(rows: &Table, items_only: bool) -> (r: Table)
    ensures
        r@ == rows@.filter(chosen(items_only)),
{
    let ghost keep = chosen(items_only);
    let ghost view = |entry: (String, TomlValue)| (entry.0@, entry.1@);
    let mut entries: Vec<(String, TomlValue)> = Vec::new();
    let mut i: usize = 0;
    proof {
        reveal(Seq::filter);
        assert(rows@.take(0) =~= Seq::<(Seq<char>, TomlView)>::empty());
        assert(entries@.map_values(view) =~= rows@.take(0).filter(keep));
    }
    while i < rows.len()
        invariant
            i <= rows@.len(),
            keep == chosen(items_only),
            view == (|entry: (String, TomlValue)| (entry.0@, entry.1@)),
            entries@.map_values(view) == rows@.take(i as int).filter(keep),
        decreases rows@.len() - i,
    {
        let ghost before = entries@;
        proof {
            reveal(Seq::filter);
            assert(rows@.take(i + 1).drop_last() =~= rows@.take(i as int));
            assert(rows@.take(i + 1).last() == rows@[i as int]);
        }
        let is_table: bool = match rows.value_at(i) {
            TomlValue::Table(_) => true,
            _ => false,
        };
        if (is_table || !items_only) && !text::same_text(rows.key_at(i), "items") {
            entries.push((rows.key_at(i).to_owned(), rows.value_at(i).clone()));
            assert(entries@.map_values(view) =~= before.map_values(view).push(rows@[i as int]));
        }
        i = i + 1;
    }
    assert(rows@.take(rows@.len() as int) =~= rows@);
    Table::from_entries(entries)
}

/// A copy of the settings in an `[ondemand]` table.
pub fn copy_settings(rows: &Table) -> (r: Table)
    ensures
        r@ == settings_of(rows@),
{
    copy_rows(rows, false)
}

fn copy_items(rows: &Table) -> (r: Table)
    ensures
        r@ == item_rows(rows@),
{
    copy_rows(rows, true)
}

/// Merges the items that a file defines into those that there are.
///
/// `[ondemand.items]` is reserved for the normalized internal shape;
/// project files use `[ondemand.NAME]` and cannot configure root
/// `[ondemand]` module settings.
pub fn merge_items_from_value(file: &TomlValue, items: &mut Table)
    ensures
        final(items)@ == value::merged_rows(old(items)@, items_of(file@)),
        value::well_formed(file@) && value::well_formed_rows(old(items)@)
            ==> value::well_formed_rows(final(items)@),
{
    proof {
        if value::well_formed(file@) && value::well_formed_rows(items@) {
            ondemand_laws::law_items_well_formed(file@);
            value_laws::law_merge_rows_well_formed(items@, items_of(file@));
        }
    }
    if let TomlValue::Table(top) = file {
        if let Some(TomlValue::Table(rows)) = top.get("ondemand") {
            value::merge_tables(items, copy_items(rows));
        }
    }
}

/// What a file holds that is not taken from it.
#[derive(Debug, PartialEq, Eq)]
pub enum Ignored {
    /// All of it, as it is not a table.
    File,
    /// A section other than `[ondemand]`.
    Section(String),
    /// `ondemand`, as it is not a table.
    Ondemand,
    /// A key of `[ondemand]` that does not define an item.
    Key(String),
}

/// What an [`Ignored`] holds.
pub enum IgnoredView {
    File,
    Section(Seq<char>),
    Ondemand,
    Key(Seq<char>),
}

impl View for Ignored {
    type V = IgnoredView;

    open spec fn view(&self) -> IgnoredView {
        match self {
            Ignored::File => IgnoredView::File,
            Ignored::Section(key) => IgnoredView::Section(key@),
            Ignored::Ondemand => IgnoredView::Ondemand,
            Ignored::Key(name) => IgnoredView::Key(name@),
        }
    }
}

/// What each of `list` holds.
pub open spec fn ignored_views(list: Seq<Ignored>) -> Seq<IgnoredView> {
    list.map_values(|item: Ignored| item@)
}

/// The keys of an `[ondemand]` table that do not define an item, in order.
pub open spec fn ignored_keys(rows: Seq<(Seq<char>, TomlView)>) -> Seq<IgnoredView>
    decreases rows.len(),
{
    if rows.len() == 0 {
        seq![]
    } else {
        let front = ignored_keys(rows.drop_last());
        if is_item(rows.last()) {
            front
        } else {
            front.push(IgnoredView::Key(rows.last().0))
        }
    }
}

/// What is ignored of the sections of a file, in order.
pub open spec fn ignored_sections(top: Seq<(Seq<char>, TomlView)>) -> Seq<IgnoredView>
    decreases top.len(),
{
    if top.len() == 0 {
        seq![]
    } else {
        let front = ignored_sections(top.drop_last());
        if top.last().0 != "ondemand"@ {
            front.push(IgnoredView::Section(top.last().0))
        } else {
            match top.last().1 {
                TomlView::Table(rows) => front + ignored_keys(rows),
                _ => front.push(IgnoredView::Ondemand),
            }
        }
    }
}

/// What is ignored of a file, in order.
pub open spec fn ignored_of(file: TomlView) -> Seq<IgnoredView> {
    match file {
        TomlView::Table(top) => ignored_sections(top),
        _ => seq![IgnoredView::File],
    }
}

fn push_ignored_keys(list: &mut Vec<Ignored>, rows: &Table)
    ensures
        ignored_views(final(list)@) == ignored_views(old(list)@) + ignored_keys(rows@),
{
    let mut i: usize = 0;
    assert(rows@.take(0) =~= Seq::<(Seq<char>, TomlView)>::empty());
    assert(ignored_views(list@) + Seq::<IgnoredView>::empty() =~= ignored_views(list@));
    while i < rows.len()
        invariant
            i <= rows@.len(),
            ignored_views(list@) == ignored_views(old(list)@) + ignored_keys(rows@.take(i as int)),
        decreases rows@.len() - i,
    {
        let ghost before = list@;
        let ghost keys = ignored_keys(rows@.take(i as int));
        proof {
            assert(rows@.take(i + 1).drop_last() =~= rows@.take(i as int));
            assert(rows@.take(i + 1).last() == rows@[i as int]);
        }
        let is_table: bool = match rows.value_at(i) {
            TomlValue::Table(_) => true,
            _ => false,
        };
        if !is_table || text::same_text(rows.key_at(i), "items") {
            let item = Ignored::Key(rows.key_at(i).to_owned());
            list.push(item);
            assert(ignored_views(list@) =~= ignored_views(before).push(item@));
            assert((ignored_views(old(list)@) + keys).push(item@) =~= ignored_views(old(list)@)
                + keys.push(item@));
        }
        i = i + 1;
    }
    assert(rows@.take(rows@.len() as int) =~= rows@);
}

/// What is ignored of a file, in order.
pub fn ignored(file: &TomlValue) -> (r: Vec<Ignored>)
    ensures
        ignored_views(r@) == ignored_of(file@),
{
    let mut list: Vec<Ignored> = Vec::new();
    let top = match file {
        TomlValue::Table(top) => top,
        _ => {
            list.push(Ignored::File);
            assert(ignored_views(list@) =~= ignored_of(file@));
            return list;
        },
    };
    let mut i: usize = 0;
    assert(top@.take(0) =~= Seq::<(Seq<char>, TomlView)>::empty());
    assert(ignored_views(list@) =~= Seq::<IgnoredView>::empty());
    while i < top.len()
        invariant
            i <= top@.len(),
            ignored_views(list@) == ignored_sections(top@.take(i as int)),
        decreases top@.len() - i,
    {
        let ghost before = list@;
        proof {
            assert(top@.take(i + 1).drop_last() =~= top@.take(i as int));
            assert(top@.take(i + 1).last() == top@[i as int]);
        }
        if !text::same_text(top.key_at(i), "ondemand") {
            let item = Ignored::Section(top.key_at(i).to_owned());
            list.push(item);
            assert(ignored_views(list@) =~= ignored_views(before).push(item@));
        } else {
            match top.value_at(i) {
                TomlValue::Table(rows) => {
                    push_ignored_keys(&mut list, rows);
                },
                _ => {
                    list.push(Ignored::Ondemand);
                    assert(ignored_views(list@) =~= ignored_views(before).push(
                        IgnoredView::Ondemand,
                    ));
                },
            }
        }
        i = i + 1;
    }
    assert(top@.take(top@.len() as int) =~= top@);
    list
}

/// `items` with the items of `files` merged in, file by file.
pub open spec fn with_files(
    items: Seq<(Seq<char>, TomlView)>,
    files: Seq<TomlView>,
) -> Seq<(Seq<char>, TomlView)>
    decreases files.len(),
{
    if files.len() == 0 {
        items
    } else {
        value::merged_rows(with_files(items, files.drop_last()), items_of(files.last()))
    }
}

/// Merges the items of files, one after the other, into those that there are.
pub fn merge_items_from_values(files: &Vec<TomlValue>, items: &mut Table)
    ensures
        final(items)@ == with_files(old(items)@, config::value_views(files@)),
        config::all_well_formed(config::value_views(files@)) && value::well_formed_rows(
            old(items)@,
        ) ==> value::well_formed_rows(final(items)@),
{
    let ghost views = config::value_views(files@);
    let mut i: usize = 0;
    assert(views.take(0) =~= Seq::<TomlView>::empty());
    while i < files.len()
        invariant
            i <= files.len(),
            views == config::value_views(files@),
            items@ == with_files(old(items)@, views.take(i as int)),
            config::all_well_formed(views) && value::well_formed_rows(old(items)@)
                ==> value::well_formed_rows(items@),
        decreases files.len() - i,
    {
        proof {
            assert(views.take(i + 1).drop_last() =~= views.take(i as int));
            assert(views.take(i + 1).last() == files@[i as int]@);
            assert(config::all_well_formed(views) ==> value::well_formed(views[i as int]));
        }
        merge_items_from_value(&files[i], items);
        i = i + 1;
    }
    assert(views.take(views.len() as int) =~= views);
}

/// Merges the items of a directory into those that there are.
///
/// `contents` is what its TOML files hold, in their order. What could not be read is `None`.
pub fn merge_items_from_dir(contents: &Vec<Option<String>>, items: &mut Table)
    ensures
        final(items)@ == with_files(
            old(items)@,
            config::readable(config::content_views(contents@)),
        ),
        value::well_formed_rows(old(items)@) ==> value::well_formed_rows(final(items)@),
{
    merge_items_from_values(&config::read_values(contents), items);
}

/// What is known of a path that should lead to a `.starship` directory.
#[derive(Debug)]
pub struct PathProbe {
    /// The canonical form of the path.
    pub path: DirPath,
    /// How that is shown to the user.
    pub shown: String,
    /// Whether it is a directory.
    pub is_dir: bool,
    /// Where there is a directory [`DIR_NAME`] in it: the canonical form of that, or why there is
    /// none.
    pub child: Option<Result<DirPath, String>>,
}

/// What a path or an error is.
pub open spec fn dir_result(r: Result<DirPath, String>) -> Result<DirView, Seq<char>> {
    match r {
        Ok(dir) => Ok(dir@),
        Err(error) => Err(error@),
    }
}

/// The `.starship` directory that a path leads to: the path itself, or else the one directly in
/// it.
pub open spec fn resolved_dir(probe: Result<PathProbe, String>) -> Result<DirView, Seq<char>> {
    match probe {
        Err(error) => Err(error@),
        Ok(found) => if found.is_dir && found.path@.file_name() == Some(
            utf8::encode_utf8(DIR_NAME@),
        ) {
            Ok(found.path@)
        } else {
            match found.child {
                Some(child) => dir_result(child),
                None => Err(
                    "No .starship directory found at "@ + found.shown@ + " or its direct child"@,
                ),
            }
        },
    }
}

/// Resolve a path to a `.starship` directory.
///
/// `probe` is what is known of the path, or why it has no canonical form.
pub fn resolve_ondemand_dir(probe: Result<PathProbe, String>) -> (r: Result<DirPath, String>)
    ensures
        dir_result(r) == resolved_dir(probe),
{
    let found = match probe {
        Ok(found) => found,
        Err(error) => {
            return Err(error);
        },
    };
    if found.is_dir && found.path.has_file_name(DIR_NAME) {
        return Ok(found.path);
    }
    match found.child {
        Some(child) => child,
        None => {
            let mut error: String = "No .starship directory found at ".to_owned();
            error.append(found.shown.as_str());
            error.append(" or its direct child");
            Err(error)
        },
    }
}

/// The settings that the root config gives for the `ondemand` module.
pub open spec fn root_settings_of(root_config: StarshipRootConfig) -> Option<TomlView> {
    match root_config.ondemand {
        Some(table) => Some(TomlView::Table(settings_of(table@))),
        None => None,
    }
}

/// The settings that the root config gives for the `ondemand` module.
pub fn root_settings(root_config: &StarshipRootConfig) -> (r: Option<TomlValue>)
    ensures
        match r {
            Some(settings) => root_settings_of(*root_config) == Some(settings@),
            None => root_settings_of(*root_config) is None,
        },
{
    match &root_config.ondemand {
        Some(table) => Some(TomlValue::Table(copy_settings(table))),
        None => None,
    }
}

/// How many directories are looked into for a scan of the given depth: the current one, and as
/// many above.
pub open spec fn scan_count(scan_depth: usize) -> nat {
    if scan_depth == usize::MAX {
        usize::MAX as nat
    } else {
        (scan_depth + 1) as nat
    }
}

/// Where `.starship` directories are looked for, nearest first.
pub open spec fn places(current_dir: DirView, scan_depth: usize) -> Seq<DirView> {
    current_dir.ancestors(scan_count(scan_depth)).map_values(|dir: DirView| dir.join(DIR_NAME@))
}

/// Where `.starship` directories are looked for, nearest first.
///
/// The scan is bounded by `[ondemand].scan_depth`.
pub fn scan_places(current_dir: &DirPath, scan_depth: usize) -> (r: Vec<DirPath>)
    ensures
        path::dir_views(r@) == places(current_dir@, scan_depth),
{
    let count: usize = if scan_depth == usize::MAX {
        scan_depth
    } else {
        scan_depth + 1
    };
    let dirs: Vec<DirPath> = current_dir.ancestors(count);
    let mut list: Vec<DirPath> = Vec::new();
    let mut i: usize = 0;
    while i < dirs.len()
        invariant
            i <= dirs.len(),
            list.len() == i,
            forall|k: int|
                0 <= k < i ==> (#[trigger] list@[k])@ == dirs@[k]@.join(DIR_NAME@),
        decreases dirs.len() - i,
    {
        list.push(dirs[i].join(DIR_NAME));
        i = i + 1;
    }
    assert(path::dir_views(list@) =~= path::dir_views(dirs@).map_values(
        |dir: DirView| dir.join(DIR_NAME@),
    ));
    list
}

/// What was found at one of the places that a scan looks at.
#[derive(Debug)]
pub struct ScannedDir {
    /// The place.
    pub place: DirPath,
    /// Whether there is a directory.
    pub is_dir: bool,
    /// The canonical form of the place, if it has one.
    pub canonical: Option<DirPath>,
    /// What the TOML files in the directory hold, in their order. Only those of an allowlisted
    /// directory are looked at. What could not be read is `None`.
    pub contents: Vec<Option<String>>,
}

/// What a [`ScannedDir`] holds.
pub struct ScannedView {
    pub place: DirView,
    pub is_dir: bool,
    pub canonical: Option<DirView>,
    pub contents: Seq<Option<Seq<char>>>,
}

impl View for ScannedDir {
    type V = ScannedView;

    open spec fn view(&self) -> ScannedView {
        ScannedView {
            place: self.place@,
            is_dir: self.is_dir,
            canonical: match self.canonical {
                Some(dir) => Some(dir@),
                None => None,
            },
            contents: config::content_views(self.contents@),
        }
    }
}

impl ScannedView {
    /// The directory: its canonical form, or else the place as it is.
    pub open spec fn dir(self) -> DirView {
        match self.canonical {
            Some(dir) => dir,
            None => self.place,
        }
    }
}

/// What each of `scanned` holds.
pub open spec fn scanned_views(scanned: Seq<ScannedDir>) -> Seq<ScannedView> {
    scanned.map_values(|item: ScannedDir| item@)
}

impl ScannedDir {
    /// The directory: its canonical form, or else the place as it is.
    pub fn dir(&self) -> (r: DirPath)
        ensures
            r@ == self@.dir(),
    {
        match &self.canonical {
            Some(dir) => dir.clone(),
            None => self.place.clone(),
        }
    }
}

/// Cached per-prompt result of scanning for project-local `.starship` directories.
///
/// Local files are intentionally not merged into the main Starship config. They
/// can only contribute `[ondemand.NAME]` item definitions after their containing
/// `.starship` directory has been explicitly allowlisted.
#[derive(Debug)]
pub struct OndemandState {
    pub allowlisted_dirs: Vec<DirPath>,
    pub unallowlisted_dirs: Vec<DirPath>,
    pub items: Table,
}

/// What an [`OndemandState`] holds.
#[verifier::ext_equal]
pub struct StateView {
    pub allowlisted_dirs: Seq<DirView>,
    pub unallowlisted_dirs: Seq<DirView>,
    pub items: Seq<(Seq<char>, TomlView)>,
}

impl View for OndemandState {
    type V = StateView;

    open spec fn view(&self) -> StateView {
        StateView {
            allowlisted_dirs: path::dir_views(self.allowlisted_dirs@),
            unallowlisted_dirs: path::dir_views(self.unallowlisted_dirs@),
            items: self.items@,
        }
    }
}

impl Default for OndemandState {
    fn default() -> (r: OndemandState)
        ensures
            r@ == (StateView { allowlisted_dirs: seq![], unallowlisted_dirs: seq![], items: seq![] }),
    {
        let r = OndemandState {
            allowlisted_dirs: Vec::new(),
            unallowlisted_dirs: Vec::new(),
            items: Table::new(),
        };
        assert(r@ =~= (StateView {
            allowlisted_dirs: seq![],
            unallowlisted_dirs: seq![],
            items: seq![],
        }));
        r
    }
}

impl Clone for OndemandState {
    fn clone(&self) -> (r: OndemandState)
        ensures
            r@ == self@,
    {
        OndemandState {
            allowlisted_dirs: path::copy_dirs(&self.allowlisted_dirs),
            unallowlisted_dirs: path::copy_dirs(&self.unallowlisted_dirs),
            items: self.items.clone(),
        }
    }
}

/// The directories that a scan found, outermost first.
pub open spec fn found(scanned: Seq<ScannedView>) -> Seq<ScannedView> {
    scanned.filter(|item: ScannedView| item.is_dir).reverse()
}

/// Those of `dirs` that are on the allowlist.
pub open spec fn allowed(dirs: Seq<ScannedView>, allowlist: Set<Seq<PartView>>) -> Seq<
    ScannedView,
> {
    dirs.filter(|item: ScannedView| allowlist.contains(item.dir().parts))
}

/// Those of `dirs` that are not on the allowlist.
pub open spec fn not_allowed(dirs: Seq<ScannedView>, allowlist: Set<Seq<PartView>>) -> Seq<
    ScannedView,
> {
    dirs.filter(|item: ScannedView| !allowlist.contains(item.dir().parts))
}

/// The paths of `dirs`.
pub open spec fn dirs_of(dirs: Seq<ScannedView>) -> Seq<DirView> {
    dirs.map_values(|item: ScannedView| item.dir())
}

/// The items of `dirs`, merged directory by directory.
pub open spec fn collected(dirs: Seq<ScannedView>) -> Seq<(Seq<char>, TomlView)>
    decreases dirs.len(),
{
    if dirs.len() == 0 {
        seq![]
    } else {
        with_files(collected(dirs.drop_last()), config::readable(dirs.last().contents))
    }
}

/// What the directories that were found give together.
pub open spec fn state_of(dirs: Seq<ScannedView>, allowlist: Set<Seq<PartView>>) -> StateView {
    StateView {
        allowlisted_dirs: dirs_of(allowed(dirs, allowlist)),
        unallowlisted_dirs: dirs_of(not_allowed(dirs, allowlist)),
        items: collected(allowed(dirs, allowlist)),
    }
}

pub(crate) proof fn lemma_found_prepend(item: ScannedView, rest: Seq<ScannedView>)
    ensures
        found(seq![item] + rest) == (if item.is_dir {
            found(rest).push(item)
        } else {
            found(rest)
        }),
{
    let keep = |item: ScannedView| item.is_dir;
    Seq::filter_distributes_over_add(seq![item], rest, keep);
    reveal_with_fuel(Seq::<_>::filter, 2);
    assert(seq![item].drop_last() =~= Seq::<ScannedView>::empty());
    assert(seq![item].filter(keep) =~= (if item.is_dir {
        seq![item]
    } else {
        seq![]
    }));
    assert(found(seq![item] + rest) =~= (if item.is_dir {
        found(rest).push(item)
    } else {
        found(rest)
    }));
}

proof fn lemma_state_push(
    dirs: Seq<ScannedView>,
    item: ScannedView,
    allowlist: Set<Seq<PartView>>,
)
    ensures
        allowlist.contains(item.dir().parts) ==> {
            &&& allowed(dirs.push(item), allowlist) == allowed(dirs, allowlist).push(item)
            &&& not_allowed(dirs.push(item), allowlist) == not_allowed(dirs, allowlist)
        },
        !allowlist.contains(item.dir().parts) ==> {
            &&& allowed(dirs.push(item), allowlist) == allowed(dirs, allowlist)
            &&& not_allowed(dirs.push(item), allowlist) == not_allowed(dirs, allowlist).push(item)
        },
{
    reveal(Seq::filter);
    assert(dirs.push(item).drop_last() =~= dirs);
}

/// Scan for project-local `.starship` directories.
///
/// `scanned` is what was found at the places of [`scan_places`], in their order.
pub fn discover(scanned: &Vec<ScannedDir>, allowlist: &Allowlist) -> (r: OndemandState)
    ensures
        r@ == state_of(found(scanned_views(scanned@)), allowlist@.dom()),
        value::well_formed_rows(r.items@),
{
    let ghost views = scanned_views(scanned@);
    let mut state = OndemandState::default();
    let mut i: usize = scanned.len();
    proof {
        reveal(Seq::filter);
        assert(views.skip(views.len() as int) =~= Seq::<ScannedView>::empty());
        assert(found(Seq::<ScannedView>::empty()) =~= Seq::<ScannedView>::empty());
        assert(state@ =~= state_of(Seq::<ScannedView>::empty(), allowlist@.dom()));
    }
    while i > 0
        invariant
            i <= scanned.len(),
            views == scanned_views(scanned@),
            state@ == state_of(found(views.skip(i as int)), allowlist@.dom()),
            value::well_formed_rows(state.items@),
        decreases i,
    {
        i = i - 1;
        let ghost item = views[i as int];
        let ghost dirs = found(views.skip(i + 1));
        let ghost before = state@;
        proof {
            assert(views.skip(i as int) =~= seq![item] + views.skip(i + 1));
            lemma_found_prepend(item, views.skip(i + 1));
            lemma_state_push(dirs, item, allowlist@.dom());
        }
        if scanned[i].is_dir {
            let dir = scanned[i].dir();
            if allowlist.contains(&dir) {
                merge_items_from_dir(&scanned[i].contents, &mut state.items);
                state.allowlisted_dirs.push(dir);
                proof {
                    let listed = allowed(dirs, allowlist@.dom());
                    assert(listed.push(item).drop_last() =~= listed);
                    assert(dirs_of(listed.push(item)) =~= dirs_of(listed).push(item.dir()));
                    assert(state@.allowlisted_dirs =~= before.allowlisted_dirs.push(item.dir()));
                }
            } else {
                state.unallowlisted_dirs.push(dir);
                proof {
                    let others = not_allowed(dirs, allowlist@.dom());
                    assert(dirs_of(others.push(item)) =~= dirs_of(others).push(item.dir()));
                    assert(state@.unallowlisted_dirs =~= before.unallowlisted_dirs.push(
                        item.dir(),
                    ));
                }
            }
            assert(state@ =~= state_of(dirs.push(item), allowlist@.dom()));
        }
    }
    assert(views.skip(0) =~= views);
    state
}

} // verus!
