//! Where the configuration comes from.
use vstd::prelude::*;
use vstd::string::StrSliceExecFns;
use vstd::utf8;

use crate::env::{Env, Platform};
use crate::order;
use crate::path;
use crate::path::{FilePath, FilePathView};
use crate::text;
use crate::text::Gap;

verus! {

/// Resolved locations that may contribute to the effective Starship configuration.
///
/// The values are derived from Starship-specific environment variables and the
/// XDG base directories. For example, `XDG_CONFIG_HOME=/home/alice/.config` resolves the user
/// config file to `/home/alice/.config/starship/starship.toml`.
#[derive(Debug)]
pub struct ConfigSources {
    /// Explicit config file from `STARSHIP_CONFIG`, for example `/tmp/starship.toml`.
    pub explicit_config: Option<FilePath>,
    /// User config directory from `STARSHIP_CONFIG_HOME` or the XDG/platform default.
    pub user_config_home: Option<FilePath>,
    /// Main user config file, for example `$STARSHIP_CONFIG_HOME/starship.toml`.
    pub user_config_file: Option<FilePath>,
    /// User drop-in config directory, for example `$STARSHIP_CONFIG_HOME/conf.d`.
    pub user_conf_d: Option<FilePath>,
    /// System drop-in config directories, for example `/etc/xdg/starship/conf.d`.
    pub system_conf_dirs: Vec<FilePath>,
    /// Legacy config file used only for migration detection, for example `~/.config/starship.toml`.
    pub legacy_config_file: Option<FilePath>,
}

/// What [`ConfigSources`] hold.
#[verifier::ext_equal]
pub struct SourcesView {
    pub explicit_config: Option<FilePathView>,
    pub user_config_home: Option<FilePathView>,
    pub user_config_file: Option<FilePathView>,
    pub user_conf_d: Option<FilePathView>,
    pub system_conf_dirs: Seq<FilePathView>,
    pub legacy_config_file: Option<FilePathView>,
}

impl View for ConfigSources {
    type V = SourcesView;

    open spec fn view(&self) -> SourcesView {
        SourcesView {
            explicit_config: path::path_view(self.explicit_config),
            user_config_home: path::path_view(self.user_config_home),
            user_config_file: path::path_view(self.user_config_file),
            user_conf_d: path::path_view(self.user_conf_d),
            system_conf_dirs: path::path_views(self.system_conf_dirs@),
            legacy_config_file: path::path_view(self.legacy_config_file),
        }
    }
}

fn copy_paths(paths: &Vec<FilePath>) -> (r: Vec<FilePath>)
    ensures
        path::path_views(r@) == path::path_views(paths@),
{
    let mut list: Vec<FilePath> = Vec::new();
    let mut i: usize = 0;
    while i < paths.len()
        invariant
            i <= paths.len(),
            list.len() == i,
            forall|k: int| 0 <= k < i ==> (#[trigger] list@[k])@ == paths@[k]@,
        decreases paths.len() - i,
    {
        list.push(paths[i].clone());
        i = i + 1;
    }
    assert(path::path_views(list@) =~= path::path_views(paths@));
    list
}

impl Clone for ConfigSources {
    fn clone(&self) -> (r: ConfigSources)
        ensures
            r@ == self@,
    {
        ConfigSources {
            explicit_config: copy_some(&self.explicit_config),
            user_config_home: copy_some(&self.user_config_home),
            user_config_file: copy_some(&self.user_config_file),
            user_conf_d: copy_some(&self.user_conf_d),
            system_conf_dirs: copy_paths(&self.system_conf_dirs),
            legacy_config_file: copy_some(&self.legacy_config_file),
        }
    }
}

/// A file in a directory: its name, and whether it is a regular file.
#[derive(Debug, PartialEq, Eq)]
pub struct DirEntry {
    pub name: Vec<u8>,
    pub is_file: bool,
}

impl View for DirEntry {
    type V = (Seq<u8>, bool);

    open spec fn view(&self) -> (Seq<u8>, bool) {
        (self.name@, self.is_file)
    }
}

/// What each of `entries` holds.
pub open spec fn entry_views(entries: Seq<DirEntry>) -> Seq<(Seq<u8>, bool)> {
    entries.map_values(|entry: DirEntry| entry@)
}

/// `name` in the directory `dir`, where there is one.
pub open spec fn joined_path(dir: Option<FilePathView>, name: Seq<char>) -> Option<FilePathView> {
    match dir {
        Some(inner) => Some(inner.join(name)),
        None => None,
    }
}

/// The user's home directory.
pub open spec fn home_of(env: Env) -> Option<FilePathView> {
    match (env.home_from_env, env.text("HOME"@)) {
        (true, Some(home)) => Some(FilePathView::text(home)),
        _ => path::path_view(env.home_dir),
    }
}

/// The user config directory where no variable of Starship's own sets it.
pub open spec fn default_home_of(env: Env) -> Option<FilePathView> {
    match env.path("XDG_CONFIG_HOME"@) {
        Some(dir) => Some(dir.join("starship"@)),
        None => joined_path(path::path_view(env.config_dir), "starship"@),
    }
}

/// The user config directory.
pub open spec fn user_home_of(env: Env) -> Option<FilePathView> {
    match env.path("STARSHIP_CONFIG_HOME"@) {
        Some(dir) => Some(dir),
        None => default_home_of(env),
    }
}

/// The drop-in directory of Starship in a directory for configuration.
pub open spec fn conf_d_of(dir: FilePathView) -> FilePathView {
    dir.join("starship"@).join("conf.d"@)
}

/// The directories that `XDG_CONFIG_DIRS` lists: what stands between its colons, where that is
/// not empty.
pub open spec fn xdg_dirs_of(env: Env) -> Seq<Seq<char>> {
    match env.text("XDG_CONFIG_DIRS"@) {
        Some(list) => text::runs(list, Gap::Colon),
        None => seq![],
    }
}

/// The system drop-in directories.
pub open spec fn system_dirs_of(env: Env) -> Seq<FilePathView> {
    if xdg_dirs_of(env).len() > 0 {
        xdg_dirs_of(env).map_values(|dir: Seq<char>| conf_d_of(FilePathView::text(dir)))
    } else {
        match env.platform {
            Platform::Windows => match env.path("PROGRAMDATA"@) {
                Some(dir) => seq![conf_d_of(dir)],
                None => seq![],
            },
            Platform::MacOs => seq![
                FilePathView::text("/Library/Application Support/starship/conf.d"@),
            ],
            Platform::Other => seq![FilePathView::text("/etc/xdg/starship/conf.d"@)],
        }
    }
}

/// The locations that an environment resolves to.
pub open spec fn sources_of(env: Env) -> SourcesView {
    SourcesView {
        explicit_config: env.path("STARSHIP_CONFIG"@),
        user_config_home: user_home_of(env),
        user_config_file: joined_path(user_home_of(env), "starship.toml"@),
        user_conf_d: joined_path(user_home_of(env), "conf.d"@),
        system_conf_dirs: system_dirs_of(env),
        legacy_config_file: joined_path(joined_path(home_of(env), ".config"@), "starship.toml"@),
    }
}

fn join_some(dir: &Option<FilePath>, name: &str) -> (r: Option<FilePath>)
    ensures
        path::path_view(r) == joined_path(path::path_view(*dir), name@),
{
    match dir {
        Some(inner) => Some(inner.join(name)),
        None => None,
    }
}

fn copy_some(file: &Option<FilePath>) -> (r: Option<FilePath>)
    ensures
        path::path_view(r) == path::path_view(*file),
{
    match file {
        Some(inner) => Some(inner.clone()),
        None => None,
    }
}

/// The user's home directory: the one that the platform names, unless the environment is asked to
/// take it from `HOME`.
pub fn home_dir(env: &Env) -> (r: Option<FilePath>)
    ensures
        path::path_view(r) == home_of(*env),
{
    if env.home_from_env {
        if let Some(home) = env.get_env("HOME") {
            return Some(FilePath::from_text(home.as_str()));
        }
    }
    copy_some(&env.home_dir)
}

/// Resolve the default user config directory.
///
/// This follows the XDG base directories when `XDG_CONFIG_HOME` is set. For example,
/// `XDG_CONFIG_HOME=/home/alice/.config` resolves to `/home/alice/.config/starship`. Platforms
/// without XDG use their standard config directory with `starship` appended.
pub fn default_user_config_home(env: &Env) -> (r: Option<FilePath>)
    ensures
        path::path_view(r) == default_home_of(*env),
{
    match env.get_path("XDG_CONFIG_HOME") {
        Some(dir) => Some(dir.join("starship")),
        None => join_some(&env.config_dir, "starship"),
    }
}

fn join_conf_d(dir: &FilePath) -> (r: FilePath)
    ensures
        r@ == conf_d_of(dir@),
{
    dir.join("starship").join("conf.d")
}

/// Resolve system-level drop-in directories.
///
/// On XDG systems, each `XDG_CONFIG_DIRS` entry contributes
/// `starship/conf.d`; for example `/etc/xdg` becomes
/// `/etc/xdg/starship/conf.d`. If XDG is not configured, Unix defaults to
/// `/etc/xdg/starship/conf.d`, macOS uses `/Library/Application Support/starship/conf.d`,
/// and Windows uses `%PROGRAMDATA%\starship\conf.d` when available.
pub fn system_conf_dirs(env: &Env) -> (r: Vec<FilePath>)
    ensures
        path::path_views(r@) == system_dirs_of(*env),
{
    let listed: Vec<String> = match env.get_env("XDG_CONFIG_DIRS") {
        Some(list) => text::split_runs(list.as_str(), Gap::Colon),
        None => Vec::new(),
    };
    assert(text::texts(listed@) =~= xdg_dirs_of(*env));
    let mut dirs: Vec<FilePath> = Vec::new();
    let mut i: usize = 0;
    while i < listed.len()
        invariant
            i <= listed.len(),
            text::texts(listed@) == xdg_dirs_of(*env),
            dirs.len() == i,
            forall|k: int|
                0 <= k < i ==> (#[trigger] dirs@[k])@ == conf_d_of(
                    FilePathView::text(listed@[k]@),
                ),
        decreases listed.len() - i,
    {
        let dir = FilePath::from_text(listed[i].as_str());
        dirs.push(join_conf_d(&dir));
        i = i + 1;
    }
    if dirs.len() > 0 {
        assert forall|k: int| 0 <= k < dirs.len() implies (#[trigger] dirs@[k])@
            == system_dirs_of(*env)[k] by {
            assert(text::texts(listed@)[k] == listed@[k]@);
        }
        assert(path::path_views(dirs@) =~= system_dirs_of(*env));
        return dirs;
    }
    assert(xdg_dirs_of(*env).len() == text::texts(listed@).len());
    match env.platform {
        Platform::Windows => {
            if let Some(dir) = env.get_path("PROGRAMDATA") {
                dirs.push(join_conf_d(&dir));
            }
        },
        Platform::MacOs => {
            dirs.push(FilePath::from_text("/Library/Application Support/starship/conf.d"));
        },
        Platform::Other => {
            dirs.push(FilePath::from_text("/etc/xdg/starship/conf.d"));
        },
    }
    assert(path::path_views(dirs@) =~= system_dirs_of(*env));
    dirs
}

/// Whether a file name has the extension `toml`: it ends with `.toml`, and something stands
/// before that.
pub open spec fn is_toml_name(name: Seq<u8>) -> bool {
    let ending = utf8::encode_utf8(".toml"@);
    name.len() > ending.len() && name.skip(name.len() - ending.len()) == ending
}

/// The names of the TOML files in a directory, in ascending order.
pub open spec fn toml_names(entries: Seq<(Seq<u8>, bool)>) -> Seq<Seq<u8>> {
    order::ascending::<Vec<u8>>(
        entries.filter(|entry: (Seq<u8>, bool)| entry.1 && is_toml_name(entry.0)).map_values(
            |entry: (Seq<u8>, bool)| entry.0,
        ),
    )
}

fn has_toml_extension(name: &Vec<u8>) -> (r: bool)
    ensures
        r == is_toml_name(name@),
{
    let ending: Vec<u8> = ".toml".as_bytes_vec();
    if name.len() <= ending.len() {
        return false;
    }
    let from: usize = name.len() - ending.len();
    let mut i: usize = 0;
    while i < ending.len()
        invariant
            ending@ == utf8::encode_utf8(".toml"@),
            from == name.len() - ending.len(),
            i <= ending.len(),
            forall|k: int| 0 <= k < i ==> name@[from + k] == #[trigger] ending@[k],
        decreases ending.len() - i,
    {
        if name[from + i] != ending[i] {
            assert(name@.skip(from as int)[i as int] == name@[from + i]);
            return false;
        }
        i = i + 1;
    }
    assert(name@.skip(from as int) =~= ending@);
    true
}

/// The names of the `.toml` files of a directory in ascending order.
///
/// Non-TOML files are ignored, so `README.md` is skipped while `00-base.toml`
/// is loaded before `10-local.toml`.
pub fn sorted_toml_files(entries: &Vec<DirEntry>) -> (r: Vec<Vec<u8>>)
    ensures
        path::name_views(r@) == toml_names(entry_views(entries@)),
{
    let ghost keep = |entry: (Seq<u8>, bool)| entry.1 && is_toml_name(entry.0);
    let ghost name_of = |entry: (Seq<u8>, bool)| entry.0;
    let ghost views = entry_views(entries@);
    let mut names: Vec<Vec<u8>> = Vec::new();
    let mut i: usize = 0;
    proof {
        assert(views.take(0) =~= Seq::<(Seq<u8>, bool)>::empty());
        reveal(Seq::filter);
        assert(path::name_views(names@) =~= views.take(0).filter(keep).map_values(name_of));
    }
    while i < entries.len()
        invariant
            i <= entries.len(),
            views == entry_views(entries@),
            keep == (|entry: (Seq<u8>, bool)| entry.1 && is_toml_name(entry.0)),
            name_of == (|entry: (Seq<u8>, bool)| entry.0),
            path::name_views(names@) == views.take(i as int).filter(keep).map_values(name_of),
        decreases entries.len() - i,
    {
        let ghost before = names@;
        proof {
            reveal(Seq::filter);
            assert(views.take(i + 1).drop_last() =~= views.take(i as int));
            assert(views.take(i + 1).last() == views[i as int]);
        }
        if entries[i].is_file && has_toml_extension(&entries[i].name) {
            let name = entries[i].name.clone();
            assert(name@ =~= entries@[i as int].name@);
            names.push(name);
            assert(path::name_views(names@) =~= path::name_views(before).push(name@));
            assert(views.take(i + 1).filter(keep).map_values(name_of) =~= views.take(
                i as int,
            ).filter(keep).map_values(name_of).push(name@));
        }
        i = i + 1;
    }
    assert(views.take(views.len() as int) =~= views);
    let sorted: Vec<Vec<u8>> = order::sort(names);
    assert(order::keys(sorted@) =~= path::name_views(sorted@));
    assert(order::keys(names@) =~= path::name_views(names@));
    sorted
}

/// The files with the given names in a directory.
pub open spec fn files_in(dir: FilePathView, names: Seq<Seq<u8>>) -> Seq<FilePathView> {
    names.map_values(|name: Seq<u8>| dir.join_bytes(name))
}

/// What is listed for the directory at `i`, which is nothing where there is no listing of it.
pub open spec fn listing_at(listings: Seq<Vec<DirEntry>>, i: int) -> Seq<(Seq<u8>, bool)> {
    if 0 <= i < listings.len() {
        entry_views(listings[i]@)
    } else {
        seq![]
    }
}

/// The TOML files of the first `count` of `dirs`, directory by directory.
pub open spec fn system_files(
    dirs: Seq<FilePathView>,
    listings: Seq<Vec<DirEntry>>,
    count: nat,
) -> Seq<FilePathView>
    decreases count,
{
    if count == 0 {
        seq![]
    } else {
        let i = count - 1;
        system_files(dirs, listings, i as nat) + files_in(
            dirs[i],
            toml_names(listing_at(listings, i)),
        )
    }
}

/// The configuration files in the order in which they are merged.
pub open spec fn ordered_files(
    sources: SourcesView,
    system: Seq<Vec<DirEntry>>,
    user: Seq<DirEntry>,
) -> Seq<FilePathView> {
    match sources.explicit_config {
        Some(config) => seq![config],
        None => system_files(
            sources.system_conf_dirs,
            system,
            sources.system_conf_dirs.len(),
        ) + (match sources.user_config_file {
            Some(file) => seq![file],
            None => seq![],
        }) + (match sources.user_conf_d {
            Some(dir) => files_in(dir, toml_names(entry_views(user))),
            None => seq![],
        }),
    }
}

/// The file that is edited: the explicit one, or else the main user config file.
pub open spec fn edit_path_of(sources: SourcesView) -> Option<FilePathView> {
    match sources.explicit_config {
        Some(config) => Some(config),
        None => sources.user_config_file,
    }
}

fn push_files(files: &mut Vec<FilePath>, dir: &FilePath, entries: &Vec<DirEntry>)
    ensures
        path::path_views(final(files)@) == path::path_views(old(files)@) + files_in(
            dir@,
            toml_names(entry_views(entries@)),
        ),
{
    let names: Vec<Vec<u8>> = sorted_toml_files(entries);
    let ghost views = path::name_views(names@);
    let mut i: usize = 0;
    assert(files_in(dir@, views.take(0)) =~= Seq::<FilePathView>::empty());
    assert(path::path_views(files@) + Seq::<FilePathView>::empty() =~= path::path_views(files@));
    while i < names.len()
        invariant
            i <= names.len(),
            views == path::name_views(names@),
            path::path_views(files@) == path::path_views(old(files)@) + files_in(
                dir@,
                views.take(i as int),
            ),
        decreases names.len() - i,
    {
        let ghost before = files@;
        let file = dir.join_bytes(&names[i]);
        files.push(file);
        proof {
            assert(path::path_views(files@) =~= path::path_views(before).push(file@));
            assert(files_in(dir@, views.take(i + 1)) =~= files_in(dir@, views.take(i as int)).push(
                dir@.join_bytes(views[i as int]),
            ));
            assert((path::path_views(old(files)@) + files_in(dir@, views.take(i as int))).push(file@)
                =~= path::path_views(old(files)@) + files_in(dir@, views.take(i + 1)));
        }
        i = i + 1;
    }
    assert(views.take(views.len() as int) =~= views);
}

impl ConfigSources {
    /// Resolve config sources from the provided environment.
    ///
    /// `STARSHIP_CONFIG` points to one explicit config file and disables automatic
    /// `conf.d` loading. Without it, `STARSHIP_CONFIG_HOME` controls the user
    /// config directory, falling back to the XDG/platform config directory.
    pub fn from_env(env: &Env) -> (r: ConfigSources)
        ensures
            r@ == sources_of(*env),
    {
        let user_config_home: Option<FilePath> = match env.get_path("STARSHIP_CONFIG_HOME") {
            Some(dir) => Some(dir),
            None => default_user_config_home(env),
        };
        ConfigSources {
            explicit_config: env.get_path("STARSHIP_CONFIG"),
            user_config_file: join_some(&user_config_home, "starship.toml"),
            user_conf_d: join_some(&user_config_home, "conf.d"),
            user_config_home,
            system_conf_dirs: system_conf_dirs(env),
            legacy_config_file: join_some(
                &join_some(&home_dir(env), ".config"),
                "starship.toml",
            ),
        }
    }

    /// Return the single file edited by `starship config` commands.
    ///
    /// This is `STARSHIP_CONFIG` when set, otherwise the main user config file,
    /// for example `$STARSHIP_CONFIG_HOME/starship.toml`.
    pub fn primary_edit_path(&self) -> (r: Option<FilePath>)
        ensures
            path::path_view(r) == edit_path_of(self@),
    {
        match &self.explicit_config {
            Some(config) => Some(config.clone()),
            None => copy_some(&self.user_config_file),
        }
    }

    /// Return concrete TOML files in the order they should be merged.
    ///
    /// With no `STARSHIP_CONFIG`, system `conf.d` files are loaded first, then
    /// `starship.toml`, then user `conf.d` files such as `00-base.toml` before
    /// `90-local.toml`.
    ///
    /// `system` lists the system drop-in directories in their order, and `user` the user's. A
    /// directory that cannot be read has nothing in it.
    pub fn ordered_config_files(
        &self,
        system: &Vec<Vec<DirEntry>>,
        user: &Vec<DirEntry>,
    ) -> (r: Vec<FilePath>)
        ensures
            path::path_views(r@) == ordered_files(self@, system@, user@),
    {
        let mut files: Vec<FilePath> = Vec::new();
        if let Some(config) = &self.explicit_config {
            files.push(config.clone());
            assert(path::path_views(files@) =~= seq![config@]);
            return files;
        }
        let ghost dirs = self@.system_conf_dirs;
        let mut i: usize = 0;
        assert(path::path_views(files@) =~= Seq::<FilePathView>::empty());
        while i < self.system_conf_dirs.len()
            invariant
                i <= self.system_conf_dirs.len(),
                dirs == path::path_views(self.system_conf_dirs@),
                path::path_views(files@) == system_files(dirs, system@, i as nat),
            decreases self.system_conf_dirs.len() - i,
        {
            assert(dirs[i as int] == self.system_conf_dirs@[i as int]@);
            if i < system.len() {
                push_files(&mut files, &self.system_conf_dirs[i], &system[i]);
            } else {
                let nothing: Vec<DirEntry> = Vec::new();
                assert(entry_views(nothing@) =~= Seq::<(Seq<u8>, bool)>::empty());
                push_files(&mut files, &self.system_conf_dirs[i], &nothing);
            }
            i = i + 1;
        }
        let ghost first = path::path_views(files@);
        if let Some(file) = &self.user_config_file {
            let ghost before = files@;
            files.push(file.clone());
            assert(path::path_views(files@) =~= path::path_views(before) + seq![file@]);
        } else {
            assert(first + Seq::<FilePathView>::empty() =~= first);
        }
        let ghost second = path::path_views(files@);
        if let Some(dir) = &self.user_conf_d {
            push_files(&mut files, dir, user);
        } else {
            assert(second + Seq::<FilePathView>::empty() =~= second);
        }
        files
    }
}

/// Whether two sources have something in the same places.
pub open spec fn same_shape(a: SourcesView, b: SourcesView) -> bool {
    &&& a.explicit_config is Some <==> b.explicit_config is Some
    &&& a.user_config_home is Some <==> b.user_config_home is Some
    &&& a.user_config_file is Some <==> b.user_config_file is Some
    &&& a.user_conf_d is Some <==> b.user_conf_d is Some
    &&& a.system_conf_dirs.len() == b.system_conf_dirs.len()
    &&& a.legacy_config_file is Some <==> b.legacy_config_file is Some
}

/// The two paths, if there are two.
pub open spec fn pair_of(a: Option<FilePathView>, b: Option<FilePathView>) -> Seq<
    (FilePathView, FilePathView),
> {
    match (a, b) {
        (Some(x), Some(y)) => seq![(x, y)],
        _ => seq![],
    }
}

/// The paths that stand in the same places of two sources, place by place.
pub open spec fn pairs_of(a: SourcesView, b: SourcesView) -> Seq<(FilePathView, FilePathView)> {
    pair_of(a.explicit_config, b.explicit_config) + pair_of(a.user_config_home, b.user_config_home)
        + pair_of(a.user_config_file, b.user_config_file) + pair_of(a.user_conf_d, b.user_conf_d)
        + a.system_conf_dirs.zip_with(b.system_conf_dirs) + pair_of(
        a.legacy_config_file,
        b.legacy_config_file,
    )
}

/// What each of `pairs` holds.
pub open spec fn pair_views(pairs: Seq<(FilePath, FilePath)>) -> Seq<
    (FilePathView, FilePathView),
> {
    pairs.map_values(|pair: (FilePath, FilePath)| (pair.0@, pair.1@))
}

fn push_pair(pairs: &mut Vec<(FilePath, FilePath)>, a: &Option<FilePath>, b: &Option<FilePath>)
    ensures
        pair_views(final(pairs)@) == pair_views(old(pairs)@) + pair_of(
            path::path_view(*a),
            path::path_view(*b),
        ),
{
    if let (Some(x), Some(y)) = (a, b) {
        pairs.push((x.clone(), y.clone()));
    }
    assert(pair_views(pairs@) =~= pair_views(old(pairs)@) + pair_of(
        path::path_view(*a),
        path::path_view(*b),
    ));
}

impl ConfigSources {
    fn has_shape_of(&self, other: &ConfigSources) -> (r: bool)
        ensures
            r == same_shape(self@, other@),
    {
        self.explicit_config.is_some() == other.explicit_config.is_some()
            && self.user_config_home.is_some() == other.user_config_home.is_some()
            && self.user_config_file.is_some() == other.user_config_file.is_some()
            && self.user_conf_d.is_some() == other.user_conf_d.is_some()
            && self.system_conf_dirs.len() == other.system_conf_dirs.len()
            && self.legacy_config_file.is_some() == other.legacy_config_file.is_some()
    }

    /// What makes two sources equal: the paths that stand in the same places, which have to be the
    /// same paths for the platform at hand. If one has something where the other has nothing, they
    /// are not equal, whatever their paths.
    pub fn compared_paths(&self, other: &ConfigSources) -> (r: Option<Vec<(FilePath, FilePath)>>)
        ensures
            match r {
                Some(pairs) => same_shape(self@, other@) && pair_views(pairs@) == pairs_of(
                    self@,
                    other@,
                ),
                None => !same_shape(self@, other@),
            },
    {
        if !self.has_shape_of(other) {
            return None;
        }
        let mut pairs: Vec<(FilePath, FilePath)> = Vec::new();
        let ghost first = pair_of(self@.explicit_config, other@.explicit_config);
        assert(pair_views(pairs@) + first =~= first);
        push_pair(&mut pairs, &self.explicit_config, &other.explicit_config);
        push_pair(&mut pairs, &self.user_config_home, &other.user_config_home);
        push_pair(&mut pairs, &self.user_config_file, &other.user_config_file);
        push_pair(&mut pairs, &self.user_conf_d, &other.user_conf_d);
        let ghost before = pair_views(pairs@);
        let ghost dirs = self@.system_conf_dirs.zip_with(other@.system_conf_dirs);
        let mut i: usize = 0;
        assert(before + dirs.take(0) =~= before);
        while i < self.system_conf_dirs.len()
            invariant
                i <= self.system_conf_dirs.len(),
                self.system_conf_dirs.len() == other.system_conf_dirs.len(),
                dirs == self@.system_conf_dirs.zip_with(other@.system_conf_dirs),
                pair_views(pairs@) == before + dirs.take(i as int),
            decreases self.system_conf_dirs.len() - i,
        {
            let ghost now = pairs@;
            let a = self.system_conf_dirs[i].clone();
            let b = other.system_conf_dirs[i].clone();
            pairs.push((a, b));
            proof {
                assert(pair_views(pairs@) =~= pair_views(now).push((a@, b@)));
                assert(dirs.take(i + 1) =~= dirs.take(i as int).push(dirs[i as int]));
                assert((before + dirs.take(i as int)).push((a@, b@)) =~= before + dirs.take(i + 1));
            }
            i = i + 1;
        }
        assert(dirs.take(dirs.len() as int) =~= dirs);
        push_pair(&mut pairs, &self.legacy_config_file, &other.legacy_config_file);
        Some(pairs)
    }
}

} // verus!
