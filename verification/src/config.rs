//! The configuration, and how modules read theirs.
use vstd::prelude::*;
use vstd::string::StringExecFns;

use crate::text;
use crate::toml_text;
use crate::value;
use crate::value::{Table, TomlValue, TomlView};
use crate::value_laws;

verus! {

/// Root config of a module.
pub trait ModuleConfig<'a>: Default {
    /// Reads a value. A key that the config does not know is an error, unless
    /// `allow_unknown_keys` is set.
    fn deserialize(config: &'a TomlValue, allow_unknown_keys: bool) -> (r: Result<Self, String>);

    /// Construct a `ModuleConfig` from a toml value.
    ///
    /// If the value is refused for an unrecognized key, it is read again with such keys ignored.
    fn from_config(config: &'a TomlValue) -> (r: Result<Self, String>)
        ensures
            exists|strict: Result<Self, String>|
                {
                    &&& #[trigger] call_ensures(Self::deserialize, (config, false), strict)
                    &&& if refused_for_key(strict) {
                        call_ensures(Self::deserialize, (config, true), r)
                    } else {
                        r == strict
                    }
                },
    {
        let strict = Self::deserialize(config, false);
        if needs_second_reading(&strict) {
            Self::deserialize(config, true)
        } else {
            strict
        }
    }

    /// Loads the TOML value into the config.
    /// Missing values are set to their default values.
    fn load(config: &'a TomlValue) -> (r: Self)
        ensures
            exists|read: Result<Self, String>|
                {
                    &&& #[trigger] call_ensures(Self::from_config, (config,), read)
                    &&& match read {
                        Ok(loaded) => r == loaded,
                        Err(_) => call_ensures(Self::default, (), r),
                    }
                },
    {
        let read = Self::from_config(config);
        match read {
            Ok(loaded) => loaded,
            Err(_) => Self::default(),
        }
    }

    /// Helper function that will call `ModuleConfig::from_config(config)` if config is Some,
    /// or `ModuleConfig::default()` if config is None.
    fn try_load(config: Option<&'a TomlValue>) -> (r: Self)
        ensures
            match config {
                Some(item) => call_ensures(Self::load, (item,), r),
                None => call_ensures(Self::default, (), r),
            },
    {
        match config {
            Some(item) => Self::load(item),
            None => Self::default(),
        }
    }
}

/// Whether a reading failed for a key that is not known.
pub open spec fn refused_for_key<T>(read: Result<T, String>) -> bool {
    match read {
        Ok(_) => false,
        Err(error) => text::contains_text(error@, "Unknown key"@),
    }
}

/// Whether a value is read a second time, with unknown keys ignored.
pub fn needs_second_reading<T>(strict: &Result<T, String>) -> (r: bool)
    ensures
        r == refused_for_key(*strict),
{
    match strict {
        Ok(_) => false,
        Err(error) => text::has_part(error.as_str(), "Unknown key"),
    }
}

/// Either of two values.
#[derive(Debug, PartialEq, Eq)]
pub enum Either<A, B> {
    First(A),
    Second(B),
}

/// A wrapper around `Vec<T>` that either accepts a value of type `T` or a list of values of type
/// `T`.
#[derive(Debug, PartialEq, Eq)]
pub struct VecOr<T>(pub Vec<T>);

impl<A: Clone, B: Clone> Clone for Either<A, B> {
    fn clone(&self) -> (r: Either<A, B>)
        ensures
            match (*self, r) {
                (Either::First(a), Either::First(b)) => cloned(a, b),
                (Either::Second(a), Either::Second(b)) => cloned(a, b),
                _ => false,
            },
    {
        match self {
            Either::First(a) => Either::First(a.clone()),
            Either::Second(b) => Either::Second(b.clone()),
        }
    }
}

impl<T: Clone> Clone for VecOr<T> {
    fn clone(&self) -> (r: VecOr<T>)
        ensures
            r.0@.len() == self.0@.len(),
            forall|i: int| 0 <= i < self.0@.len() ==> cloned(#[trigger] self.0@[i], r.0@[i]),
    {
        VecOr(self.0.clone())
    }
}

impl<T> Default for VecOr<T> {
    fn default() -> (r: VecOr<T>)
        ensures
            r.0@ == Seq::<T>::empty(),
    {
        VecOr(Vec::new())
    }
}

/// The list that was given, or the list of the one value that was.
pub open spec fn list_of<T>(either: Either<Vec<T>, T>) -> Seq<T> {
    match either {
        Either::First(list) => list@,
        Either::Second(item) => seq![item],
    }
}

/// The name of the schema of a `VecOr`, where `inner` is that of what it holds.
pub open spec fn vec_or_name(inner: Seq<char>) -> Seq<char> {
    "VecOr_"@ + inner
}

/// The id of the schema of a `VecOr`, where `inner` is that of what it holds.
pub open spec fn vec_or_id(inner: Seq<char>) -> Seq<char> {
    "starship::config::VecOr<"@ + inner + ">"@
}

impl<T> VecOr<T> {
    /// The list that was given, or the list of the one value that was.
    pub fn deserialize(either: Either<Vec<T>, T>) -> (r: VecOr<T>)
        ensures
            r.0@ == list_of(either),
    {
        match either {
            Either::First(list) => VecOr(list),
            Either::Second(item) => {
                let list: Vec<T> = vec![item];
                assert(list@ =~= seq![item]);
                VecOr(list)
            },
        }
    }

    /// The name of the schema, where `inner` is that of what the list holds.
    pub fn schema_name(inner: &str) -> (r: String)
        ensures
            r@ == vec_or_name(inner@),
    {
        let mut name: String = "VecOr_".to_owned();
        name.append(inner);
        name
    }

    /// The id of the schema, where `inner` is that of what the list holds.
    pub fn schema_id(inner: &str) -> (r: String)
        ensures
            r@ == vec_or_id(inner@),
    {
        let mut id: String = "starship::config::VecOr<".to_owned();
        id.append(inner);
        id.append(">");
        id
    }
}

/// Different schemas give different schemas of lists, and the schema of a list differs from that
/// of what it holds, however deep the nesting.
pub proof fn law_schemas_distinct(a: Seq<char>, b: Seq<char>)
    ensures
        vec_or_name(a) == vec_or_name(b) ==> a == b,
        vec_or_id(a) == vec_or_id(b) ==> a == b,
        vec_or_name(a) != a,
        vec_or_id(a) != a,
{
    reveal_strlit("VecOr_");
    reveal_strlit("starship::config::VecOr<");
    assert(vec_or_name(a).skip("VecOr_"@.len() as int) =~= a);
    assert(vec_or_name(b).skip("VecOr_"@.len() as int) =~= b);
    let start = "starship::config::VecOr<"@.len() as int;
    assert(vec_or_id(a).subrange(start, start + a.len()) =~= a);
    assert(vec_or_id(b).subrange(start, start + b.len()) =~= b);
    assert(vec_or_id(a).len() == start + a.len() + ">"@.len());
    assert(vec_or_id(b).len() == start + b.len() + ">"@.len());
    assert(vec_or_name(a).len() > a.len());
}

/// Root config of starship.
#[derive(Debug)]
pub struct StarshipConfig {
    pub config: Option<Table>,
}

/// What a table that may be missing holds.
pub open spec fn table_view(table: Option<Table>) -> Option<Seq<(Seq<char>, TomlView)>> {
    match table {
        Some(inner) => Some(inner@),
        None => None,
    }
}

/// What the `path` leads to in a table.
///
/// A key before the last one leads into the table that stands under it. Nothing is found if
/// something else stands there, or nothing.
pub open spec fn config_at(
    rows: Seq<(Seq<char>, TomlView)>,
    path: Seq<Seq<char>>,
) -> Option<TomlView>
    decreases path.len(),
{
    if path.len() == 0 {
        None
    } else if path.len() == 1 {
        value::lookup(rows, path[0])
    } else {
        match value::lookup(rows, path[0]) {
            Some(TomlView::Table(inner)) => config_at(inner, path.skip(1)),
            _ => None,
        }
    }
}

/// What the texts of `path` are.
pub open spec fn path_texts(path: Seq<&str>) -> Seq<Seq<char>> {
    path.map_values(|key: &str| key@)
}

/// The configuration in a file, given what that holds, if it could be read.
pub open spec fn read_config(content: Option<Seq<char>>) -> Option<Seq<(Seq<char>, TomlView)>> {
    match content {
        Some(document) => match toml_text::toml_table(document) {
            Ok(rows) => Some(rows),
            Err(_) => None,
        },
        None => None,
    }
}

impl StarshipConfig {
    /// What the configuration holds at `path`.
    pub open spec fn at(self, path: Seq<Seq<char>>) -> Option<TomlView> {
        match self.config {
            Some(table) => config_at(table@, path),
            None => None,
        }
    }

    /// The table that the configuration holds at `path`.
    pub open spec fn table_at(self, path: Seq<Seq<char>>) -> Option<Seq<(Seq<char>, TomlView)>> {
        match self.at(path) {
            Some(TomlView::Table(rows)) => Some(rows),
            _ => None,
        }
    }

    /// What the configuration holds for the module with the given name.
    pub open spec fn module_config(self, name: Seq<char>) -> Option<TomlView> {
        self.at(seq![name])
    }

    /// What the configuration holds for the custom module with the given name.
    pub open spec fn custom_module_config(self, name: Seq<char>) -> Option<TomlView> {
        self.at(seq!["custom"@, name])
    }

    /// The custom modules.
    pub open spec fn custom_modules(self) -> Option<Seq<(Seq<char>, TomlView)>> {
        self.table_at(seq!["custom"@])
    }

    /// The `env_var` modules.
    pub open spec fn env_var_modules(self) -> Option<Seq<(Seq<char>, TomlView)>> {
        self.table_at(seq!["env_var"@])
    }

    /// Get the value of the config in a specific path
    pub fn get_config(&self, path: &[&str]) -> (r: Option<&TomlValue>)
        requires
            self.config is Some ==> path@.len() > 0,
        ensures
            match r {
                Some(item) => self.at(path_texts(path@)) == Some(item@),
                None => self.at(path_texts(path@)) is None,
            },
    {
        let mut table: &Table = match &self.config {
            Some(table) => table,
            None => {
                return None;
            },
        };
        let ghost keys = path_texts(path@);
        let mut i: usize = 0;
        assert(keys.skip(0) =~= keys);
        while i < path.len() - 1
            invariant
                0 <= i < path@.len(),
                keys == path_texts(path@),
                self.at(keys) == config_at(table@, keys.skip(i as int)),
            decreases path@.len() - i,
        {
            let key: &str = path[i];
            let ghost left = keys.skip(i as int);
            assert(left[0] == key@);
            assert(left.skip(1) =~= keys.skip(i + 1));
            match table.get(key) {
                Some(TomlValue::Table(inner)) => {
                    table = inner;
                },
                _ => {
                    return None;
                },
            }
            i = i + 1;
        }
        assert(keys.skip(i as int)[0] == path@[i as int]@);
        table.get(path[i])
    }

    /// Get the subset of the table for a module by its name
    pub fn get_module_config(&self, module_name: &str) -> (r: Option<&TomlValue>)
        ensures
            match r {
                Some(item) => self.module_config(module_name@) == Some(item@),
                None => self.module_config(module_name@) is None,
            },
    {
        let path: [&str; 1] = [module_name];
        assert(path_texts(path@) =~= seq![module_name@]);
        self.get_config(&path)
    }

    /// Get the subset of the table for a custom module by its name
    pub fn get_custom_module_config(&self, module_name: &str) -> (r: Option<&TomlValue>)
        ensures
            match r {
                Some(item) => self.custom_module_config(module_name@) == Some(item@),
                None => self.custom_module_config(module_name@) is None,
            },
    {
        let path: [&str; 2] = ["custom", module_name];
        assert(path_texts(path@) =~= seq!["custom"@, module_name@]);
        self.get_config(&path)
    }

    fn get_table(&self, name: &str) -> (r: Option<&Table>)
        ensures
            match r {
                Some(table) => self.table_at(seq![name@]) == Some(table@),
                None => self.table_at(seq![name@]) is None,
            },
    {
        match self.get_module_config(name) {
            Some(TomlValue::Table(table)) => Some(table),
            _ => None,
        }
    }

    /// Get the table of all the registered custom modules, if any
    pub fn get_custom_modules(&self) -> (r: Option<&Table>)
        ensures
            match r {
                Some(table) => self.custom_modules() == Some(table@),
                None => self.custom_modules() is None,
            },
    {
        self.get_table("custom")
    }

    /// Get the table of all the registered `env_var` modules, if any
    pub fn get_env_var_modules(&self) -> (r: Option<&Table>)
        ensures
            match r {
                Some(table) => self.env_var_modules() == Some(table@),
                None => self.env_var_modules() is None,
            },
    {
        self.get_table("env_var")
    }

    /// Initialize the Config struct
    ///
    /// `content` is what the config file holds, if it could be read.
    pub fn initialize(content: Option<&str>) -> (r: StarshipConfig)
        ensures
            table_view(r.config) == read_config(
                match content {
                    Some(document) => Some(document@),
                    None => None,
                },
            ),
            r.config matches Some(table) ==> value::well_formed_rows(table@),
    {
        match content {
            Some(document) => match toml_text::read_table(document) {
                Ok(table) => StarshipConfig { config: Some(table) },
                Err(_) => StarshipConfig { config: None },
            },
            None => StarshipConfig { config: None },
        }
    }

    /// Initialize the config from what the config files hold, in the order in which they are
    /// merged. What could not be read is `None`.
    pub fn initialize_from_sources(contents: &Vec<Option<String>>) -> (r: StarshipConfig)
        ensures
            table_view(r.config) == merged_config(readable(content_views(contents@))),
            r.config matches Some(table) ==> value::well_formed_rows(table@),
    {
        StarshipConfig { config: config_from_values(read_values(contents)) }
    }
}

impl Default for StarshipConfig {
    fn default() -> (r: StarshipConfig)
        ensures
            r.config is None,
    {
        StarshipConfig { config: None }
    }
}

/// What each of `contents` holds.
pub open spec fn content_views(contents: Seq<Option<String>>) -> Seq<Option<Seq<char>>> {
    contents.map_values(
        |content: Option<String>|
            match content {
                Some(document) => Some(document@),
                None => None,
            },
    )
}

/// What each of `values` holds.
pub open spec fn value_views(values: Seq<TomlValue>) -> Seq<TomlView> {
    values.map_values(|item: TomlValue| item@)
}

/// The values of those documents that could be read and are TOML, in order.
pub open spec fn readable(contents: Seq<Option<Seq<char>>>) -> Seq<TomlView>
    decreases contents.len(),
{
    if contents.len() == 0 {
        seq![]
    } else {
        let front = readable(contents.drop_last());
        match contents.last() {
            Some(document) => match toml_text::toml_value(document) {
                Ok(item) => front.push(item),
                Err(_) => front,
            },
            None => front,
        }
    }
}

/// Reads those documents that could be read and are TOML, in order.
pub fn read_values(contents: &Vec<Option<String>>) -> (r: Vec<TomlValue>)
    ensures
        value_views(r@) == readable(content_views(contents@)),
        all_well_formed(value_views(r@)),
{
    let ghost views = content_views(contents@);
    let mut values: Vec<TomlValue> = Vec::new();
    let mut i: usize = 0;
    assert(views.take(0) =~= Seq::<Option<Seq<char>>>::empty());
    assert(value_views(values@) =~= Seq::<TomlView>::empty());
    while i < contents.len()
        invariant
            i <= contents.len(),
            views == content_views(contents@),
            value_views(values@) == readable(views.take(i as int)),
            all_well_formed(value_views(values@)),
        decreases contents.len() - i,
    {
        let ghost before = values@;
        proof {
            assert(views.take(i + 1).drop_last() =~= views.take(i as int));
            assert(views.take(i + 1).last() == views[i as int]);
        }
        if let Some(content) = &contents[i] {
            if let Ok(item) = toml_text::read_value(content.as_str()) {
                values.push(item);
                assert(value_views(values@) =~= value_views(before).push(item@));
            }
        }
        i = i + 1;
    }
    assert(views.take(views.len() as int) =~= views);
    values
}

/// Whether no key stands twice in any table of `values`.
pub open spec fn all_well_formed(values: Seq<TomlView>) -> bool {
    forall|i: int| 0 <= i < values.len() ==> value::well_formed(#[trigger] values[i])
}

/// What merging the values, one after the other, into an empty table gives.
pub open spec fn merged_values(values: Seq<TomlView>) -> TomlView
    decreases values.len(),
{
    if values.len() == 0 {
        TomlView::Table(seq![])
    } else {
        value::merged(merged_values(values.drop_last()), values.last())
    }
}

/// The configuration that the values give together. There is none without a value, and an empty
/// one if they do not give a table.
pub open spec fn merged_config(values: Seq<TomlView>) -> Option<Seq<(Seq<char>, TomlView)>> {
    if values.len() == 0 {
        None
    } else {
        match merged_values(values) {
            TomlView::Table(rows) => Some(rows),
            _ => Some(seq![]),
        }
    }
}

/// Build a config table by merging the values of all config files in their order.
///
/// Later files override earlier files. For example, `conf.d/10-work.toml`
/// can override values from `starship.toml` while preserving unrelated keys.
pub fn config_from_values(values: Vec<TomlValue>) -> (r: Option<Table>)
    ensures
        table_view(r) == merged_config(value_views(values@)),
        all_well_formed(value_views(values@)) ==> (r matches Some(table) ==> value::well_formed_rows(
            table@,
        )),
{
    if values.len() == 0 {
        return None;
    }
    let ghost given = values@;
    let ghost views = value_views(values@);
    let mut config = TomlValue::Table(Table::new());
    assert(views.take(0) =~= Seq::<TomlView>::empty());
    for item in it: values.into_iter()
        invariant
            it.seq() == given,
            views == value_views(given),
            config@ == merged_values(views.take(it.index() as int)),
            all_well_formed(views) ==> value::well_formed(config@),
    {
        proof {
            let k = it.index() as int;
            assert(views.take(k + 1).drop_last() =~= views.take(k));
            assert(views.take(k + 1).last() == item@);
            if all_well_formed(views) {
                assert(value::well_formed(views[k]));
                value_laws::law_merge_well_formed(config@, item@);
            }
        }
        value::merge_toml(&mut config, item);
    }
    assert(views.take(views.len() as int) =~= views);
    match config {
        TomlValue::Table(table) => Some(table),
        _ => Some(Table::new()),
    }
}

} // verus!
