//! What holds of the places that the configuration comes from.
use vstd::prelude::*;
use vstd::relations;
use vstd::seq_lib;
use vstd::utf8;

use crate::env::{Env, Platform};
use crate::order;
use crate::path::FilePathView;
use crate::sources;
use crate::sources::{DirEntry, SourcesView};
use crate::text;
use crate::text::Gap;
use crate::text_laws;

verus! {

/// `STARSHIP_CONFIG` is the only configuration file that is loaded where it is set.
pub proof fn law_explicit_config_wins(env: Env, system: Seq<Vec<DirEntry>>, user: Seq<DirEntry>)
    requires
        env.path("STARSHIP_CONFIG"@) is Some,
    ensures
        sources::ordered_files(sources::sources_of(env), system, user) == seq![
            env.path("STARSHIP_CONFIG"@)->Some_0,
        ],
{
}

/// A variable that holds a text in UTF-8 is read as that text, and as the path that is written so.
pub proof fn law_variables(env: Env, name: Seq<char>, value: Seq<char>)
    requires
        env.bytes(name) == Some(utf8::encode_utf8(value)),
    ensures
        env.text(name) == Some(value),
        env.path(name) == Some(FilePathView::text(value)),
{
    utf8::encode_utf8_valid_utf8(value);
    utf8::encode_utf8_decode_utf8(value);
}

/// A variable is read as a path if it is set at all, and as a text only if it is one in UTF-8.
pub proof fn law_variables_that_are_no_text(env: Env, name: Seq<char>)
    ensures
        env.bytes(name) is None ==> env.text(name) is None && env.path(name) is None,
        env.bytes(name) matches Some(bytes) ==> {
            &&& env.path(name) matches Some(path)
            &&& path.base == bytes
            &&& path.names.len() == 0
        },
        env.bytes(name) matches Some(bytes) ==> (env.text(name) is Some <==> utf8::valid_utf8(
            bytes,
        )),
{
}

/// Joining a name keeps the path and what was joined before, and adds the name at the end.
pub proof fn law_join(path: FilePathView, name: Seq<char>)
    ensures
        path.join(name).base == path.base,
        path.join(name).names.drop_last() == path.names,
        path.join(name).names.last() == utf8::encode_utf8(name),
        path.join(name) == path.join_bytes(utf8::encode_utf8(name)),
{
    assert(path.join(name).names.drop_last() =~= path.names);
}

/// Where `STARSHIP_CONFIG_HOME` is set, it is the user config directory, whatever else is set and
/// whatever the platform says. The main file and the drop-in directory are in it.
pub proof fn law_starship_config_home(env: Env, dir: FilePathView)
    requires
        env.path("STARSHIP_CONFIG_HOME"@) == Some(dir),
    ensures
        sources::sources_of(env).user_config_home == Some(dir),
        sources::sources_of(env).user_config_file == Some(dir.join("starship.toml"@)),
        sources::sources_of(env).user_conf_d == Some(dir.join("conf.d"@)),
{
}

/// Where only `XDG_CONFIG_HOME` is set, the user config directory is `starship` in it, whatever the
/// platform says.
pub proof fn law_xdg_config_home(env: Env, dir: FilePathView)
    requires
        env.path("STARSHIP_CONFIG_HOME"@) is None,
        env.path("XDG_CONFIG_HOME"@) == Some(dir),
    ensures
        sources::sources_of(env).user_config_home == Some(dir.join("starship"@)),
        sources::sources_of(env).user_config_file == Some(
            dir.join("starship"@).join("starship.toml"@),
        ),
        sources::sources_of(env).user_conf_d == Some(dir.join("starship"@).join("conf.d"@)),
{
}

/// Where neither is set, the user config directory is `starship` in the one that the platform
/// names, if it names one.
pub proof fn law_platform_config_dir(env: Env)
    requires
        env.path("STARSHIP_CONFIG_HOME"@) is None,
        env.path("XDG_CONFIG_HOME"@) is None,
    ensures
        env.config_dir matches Some(dir) ==> {
            &&& sources::sources_of(env).user_config_home == Some(dir@.join("starship"@))
            &&& sources::sources_of(env).user_config_file == Some(
                dir@.join("starship"@).join("starship.toml"@),
            )
            &&& sources::sources_of(env).user_conf_d == Some(
                dir@.join("starship"@).join("conf.d"@),
            )
        },
        env.config_dir is None ==> {
            &&& sources::sources_of(env).user_config_home is None
            &&& sources::sources_of(env).user_config_file is None
            &&& sources::sources_of(env).user_conf_d is None
        },
{
}

/// The explicit file is what `STARSHIP_CONFIG` holds, and it is also the one that is edited. Where
/// it is not set, the main user config file is.
pub proof fn law_edited_file(env: Env, sources: SourcesView)
    ensures
        sources::sources_of(env).explicit_config == env.path("STARSHIP_CONFIG"@),
        sources.explicit_config is Some ==> sources::edit_path_of(sources)
            == sources.explicit_config,
        sources.explicit_config is None ==> sources::edit_path_of(sources)
            == sources.user_config_file,
{
}

/// The legacy file is `.config/starship.toml` in the home directory: the one that the platform
/// names, or the one in `HOME` where that is asked for and is a text.
pub proof fn law_legacy_file(env: Env, home: FilePathView)
    ensures
        env.home_from_env && env.text("HOME"@) is Some && env.path("HOME"@) == Some(home)
            ==> sources::sources_of(env).legacy_config_file == Some(
            home.join(".config"@).join("starship.toml"@),
        ),
        !env.home_from_env || env.text("HOME"@) is None ==> sources::sources_of(
            env,
        ).legacy_config_file == (match env.home_dir {
            Some(dir) => Some(dir@.join(".config"@).join("starship.toml"@)),
            None => None,
        }),
{
    if env.text("HOME"@) is Some {
        let bytes = env.bytes("HOME"@)->Some_0;
        utf8::decode_utf8_encode_utf8(bytes);
        assert(env.path("HOME"@) == Some(FilePathView::text(env.text("HOME"@)->Some_0)));
    }
}

/// Each directory that `XDG_CONFIG_DIRS` lists between its colons, where that is not empty, has its
/// drop-in directory in `starship/conf.d`, and the directories keep their order, whatever the
/// platform.
pub proof fn law_xdg_config_dirs(env: Env, pieces: Seq<Seq<char>>, i: int)
    requires
        env.text("XDG_CONFIG_DIRS"@) == Some(text::joined(pieces, seq![':'])),
        forall|k: int, n: int|
            0 <= k < pieces.len() && 0 <= n < pieces[k].len() ==> #[trigger] pieces[k][n] != ':',
        0 <= i < pieces.filter(|piece: Seq<char>| piece.len() > 0).len(),
    ensures
        ({
            let dirs = pieces.filter(|piece: Seq<char>| piece.len() > 0);
            &&& sources::sources_of(env).system_conf_dirs.len() == dirs.len()
            &&& sources::sources_of(env).system_conf_dirs[i] == FilePathView::text(dirs[i]).join(
                "starship"@,
            ).join("conf.d"@)
        }),
{
    text_laws::law_pieces_come_apart(pieces, ':', Gap::Colon);
}

/// Without a variable of Starship's own, the user config directory is `starship` in the directory
/// that `XDG_CONFIG_HOME` holds, or else in the one that the platform names.
pub proof fn law_default_user_config_home(env: Env, dir: FilePathView)
    ensures
        env.path("XDG_CONFIG_HOME"@) == Some(dir) ==> sources::default_home_of(env) == Some(
            dir.join("starship"@),
        ),
        env.path("XDG_CONFIG_HOME"@) is None ==> sources::default_home_of(env) == (
        match env.config_dir {
            Some(named) => Some(named@.join("starship"@)),
            None => None,
        }),
{
}

/// The home directory is the one that the platform names, or the one in `HOME` where that is asked
/// for and is a text.
pub proof fn law_home_dir(env: Env, home: FilePathView)
    ensures
        env.home_from_env && env.text("HOME"@) is Some && env.path("HOME"@) == Some(home)
            ==> sources::home_of(env) == Some(home),
        !env.home_from_env || env.text("HOME"@) is None ==> sources::home_of(env) == (
        match env.home_dir {
            Some(dir) => Some(dir@),
            None => None,
        }),
{
    if env.text("HOME"@) is Some {
        let bytes = env.bytes("HOME"@)->Some_0;
        utf8::decode_utf8_encode_utf8(bytes);
        assert(env.path("HOME"@) == Some(FilePathView::text(env.text("HOME"@)->Some_0)));
    }
}

/// Two sources are the same exactly if they have something in the same places and the paths that
/// are compared, pair by pair, are the same.
pub proof fn law_same_sources(a: SourcesView, b: SourcesView)
    ensures
        a == b <==> sources::same_shape(a, b) && forall|i: int|
            0 <= i < sources::pairs_of(a, b).len() ==> (#[trigger] sources::pairs_of(a, b)[i]).0
                == sources::pairs_of(a, b)[i].1,
{
    let pairs = sources::pairs_of(a, b);
    let one = sources::pair_of(a.explicit_config, b.explicit_config);
    let two = sources::pair_of(a.user_config_home, b.user_config_home);
    let three = sources::pair_of(a.user_config_file, b.user_config_file);
    let four = sources::pair_of(a.user_conf_d, b.user_conf_d);
    let dirs = a.system_conf_dirs.zip_with(b.system_conf_dirs);
    let last = sources::pair_of(a.legacy_config_file, b.legacy_config_file);
    assert(pairs == one + two + three + four + dirs + last);
    if sources::same_shape(a, b) && forall|i: int|
        0 <= i < pairs.len() ==> (#[trigger] pairs[i]).0 == pairs[i].1 {
        let at = one.len() as int;
        if one.len() > 0 {
            assert(pairs[0] == one[0]);
        }
        if two.len() > 0 {
            assert(pairs[at] == two[0]);
        }
        if three.len() > 0 {
            assert(pairs[at + two.len()] == three[0]);
        }
        if four.len() > 0 {
            assert(pairs[at + two.len() + three.len()] == four[0]);
        }
        let from = at + two.len() + three.len() + four.len();
        assert forall|i: int| 0 <= i < a.system_conf_dirs.len() implies a.system_conf_dirs[i]
            == b.system_conf_dirs[i] by {
            assert(pairs[from + i] == dirs[i]);
        }
        assert(a.system_conf_dirs =~= b.system_conf_dirs);
        if last.len() > 0 {
            assert(pairs[from + dirs.len()] == last[0]);
        }
    }
}

/// Where `XDG_CONFIG_DIRS` lists nothing, there is one system drop-in directory for the platform,
/// but on Windows only if `PROGRAMDATA` is set.
pub proof fn law_system_dirs_of_the_platform(env: Env)
    requires
        env.text("XDG_CONFIG_DIRS"@) matches Some(list) ==> forall|k: int|
            0 <= k < list.len() ==> #[trigger] list[k] == ':',
    ensures
        env.platform == Platform::Other ==> sources::sources_of(env).system_conf_dirs == seq![
            FilePathView::text("/etc/xdg/starship/conf.d"@),
        ],
        env.platform == Platform::MacOs ==> sources::sources_of(env).system_conf_dirs == seq![
            FilePathView::text("/Library/Application Support/starship/conf.d"@),
        ],
        env.platform == Platform::Windows ==> sources::sources_of(env).system_conf_dirs == (
        match env.path("PROGRAMDATA"@) {
            Some(dir) => seq![dir.join("starship"@).join("conf.d"@)],
            None => seq![],
        }),
{
    if let Some(list) = env.text("XDG_CONFIG_DIRS"@) {
        lemma_only_colons(list);
    }
}

proof fn lemma_only_colons(list: Seq<char>)
    requires
        forall|k: int| 0 <= k < list.len() ==> #[trigger] list[k] == ':',
    ensures
        text::runs(list, Gap::Colon).len() == 0,
    decreases list.len(),
{
    if list.len() > 0 {
        let rest = list.skip(1);
        assert forall|k: int| 0 <= k < rest.len() implies #[trigger] rest[k] == ':' by {
            assert(rest[k] == list[k + 1]);
        }
        lemma_only_colons(rest);
    }
}

/// Without an explicit file, the files of the system come first, then the main user config file,
/// then the user's drop-in files.
pub proof fn law_order_of_files(
    sources: SourcesView,
    system: Seq<Vec<DirEntry>>,
    user: Seq<DirEntry>,
)
    requires
        sources.explicit_config is None,
    ensures
        sources::ordered_files(sources, system, user) == sources::ordered_files(
            SourcesView { user_config_file: None, user_conf_d: None, ..sources },
            system,
            user,
        ) + sources::ordered_files(
            SourcesView { system_conf_dirs: seq![], user_conf_d: None, ..sources },
            system,
            user,
        ) + sources::ordered_files(
            SourcesView { system_conf_dirs: seq![], user_config_file: None, ..sources },
            system,
            user,
        ),
{
    let only_system = SourcesView { user_config_file: None, user_conf_d: None, ..sources };
    let only_file = SourcesView { system_conf_dirs: seq![], user_conf_d: None, ..sources };
    let only_user = SourcesView { system_conf_dirs: seq![], user_config_file: None, ..sources };
    assert(sources::ordered_files(sources, system, user) =~= sources::ordered_files(
        only_system,
        system,
        user,
    ) + sources::ordered_files(only_file, system, user) + sources::ordered_files(
        only_user,
        system,
        user,
    ));
}

/// The main user config file is one of the files.
pub proof fn law_main_file(
    sources: SourcesView,
    file: FilePathView,
    system: Seq<Vec<DirEntry>>,
    user: Seq<DirEntry>,
)
    requires
        sources.explicit_config is None,
        sources.system_conf_dirs.len() == 0,
        sources.user_conf_d is None,
    ensures
        sources.user_config_file == Some(file) ==> sources::ordered_files(sources, system, user)
            == seq![file],
        sources.user_config_file is None ==> sources::ordered_files(sources, system, user)
            == Seq::<FilePathView>::empty(),
{
    let files = sources::ordered_files(sources, system, user);
    if sources.user_config_file == Some(file) {
        assert(files =~= seq![file]);
    } else if sources.user_config_file is None {
        assert(files =~= Seq::<FilePathView>::empty());
    }
}

/// The user's drop-in files are the TOML files of the drop-in directory, in their order.
pub proof fn law_drop_in_files(
    sources: SourcesView,
    dir: FilePathView,
    system: Seq<Vec<DirEntry>>,
    user: Seq<DirEntry>,
    i: int,
)
    requires
        sources.explicit_config is None,
        sources.system_conf_dirs.len() == 0,
        sources.user_config_file is None,
        sources.user_conf_d == Some(dir),
    ensures
        sources::ordered_files(sources, system, user).len() == sources::toml_names(
            sources::entry_views(user),
        ).len(),
        0 <= i < sources::toml_names(sources::entry_views(user)).len() ==> sources::ordered_files(
            sources,
            system,
            user,
        )[i] == dir.join_bytes(sources::toml_names(sources::entry_views(user))[i]),
{
    let names = sources::toml_names(sources::entry_views(user));
    assert(sources::ordered_files(sources, system, user) =~= sources::files_in(dir, names));
}

/// One more system directory puts its TOML files, in their order, after those of the others.
pub proof fn law_one_more_system_dir(
    sources: SourcesView,
    dir: FilePathView,
    system: Seq<Vec<DirEntry>>,
    listing: Vec<DirEntry>,
    i: int,
)
    requires
        sources.explicit_config is None,
        sources.user_config_file is None,
        sources.user_conf_d is None,
        sources.system_conf_dirs.len() == system.len(),
    ensures
        ({
            let more = SourcesView {
                system_conf_dirs: sources.system_conf_dirs.push(dir),
                ..sources
            };
            let names = sources::toml_names(sources::entry_views(listing@));
            let before = sources::ordered_files(sources, system, seq![]);
            let after = sources::ordered_files(more, system.push(listing), seq![]);
            &&& after.len() == before.len() + names.len()
            &&& after.take(before.len() as int) == before
            &&& 0 <= i < names.len() ==> after[before.len() + i] == dir.join_bytes(names[i])
        }),
{
    let dirs = sources.system_conf_dirs;
    let more = SourcesView { system_conf_dirs: dirs.push(dir), ..sources };
    let names = sources::toml_names(sources::entry_views(listing@));
    let before = sources::ordered_files(sources, system, seq![]);
    let after = sources::ordered_files(more, system.push(listing), seq![]);
    lemma_system_files(dirs, dir, system, listing, dirs.len());
    let all = system.push(listing);
    assert(all[dirs.len() as int] == listing);
    assert(before =~= sources::system_files(dirs, system, dirs.len()));
    assert(after =~= sources::system_files(dirs.push(dir), all, dirs.len() + 1));
    assert(after =~= before + sources::files_in(dir, names));
    assert(after.take(before.len() as int) =~= before);
}

proof fn lemma_system_files(
    dirs: Seq<FilePathView>,
    dir: FilePathView,
    system: Seq<Vec<DirEntry>>,
    listing: Vec<DirEntry>,
    count: nat,
)
    requires
        count <= dirs.len() == system.len(),
    ensures
        sources::system_files(dirs.push(dir), system.push(listing), count)
            == sources::system_files(dirs, system, count),
    decreases count,
{
    if count > 0 {
        lemma_system_files(dirs, dir, system, listing, (count - 1) as nat);
        assert(dirs.push(dir)[count - 1] == dirs[count - 1]);
        assert(system.push(listing)[count - 1] == system[count - 1]);
    }
}

/// A system directory that could not be listed has no files.
pub proof fn law_unlisted_system_dir(sources: SourcesView, system: Seq<Vec<DirEntry>>)
    requires
        sources.explicit_config is None,
        sources.user_config_file is None,
        sources.user_conf_d is None,
        system.len() == 0,
    ensures
        sources::ordered_files(sources, system, seq![]) == Seq::<FilePathView>::empty(),
{
    lemma_nothing_listed(sources.system_conf_dirs, system, sources.system_conf_dirs.len());
    assert(sources::ordered_files(sources, system, seq![]) =~= Seq::<FilePathView>::empty());
}

proof fn lemma_nothing_listed(dirs: Seq<FilePathView>, system: Seq<Vec<DirEntry>>, count: nat)
    requires
        system.len() == 0,
    ensures
        sources::system_files(dirs, system, count) == Seq::<FilePathView>::empty(),
    decreases count,
{
    if count > 0 {
        lemma_nothing_listed(dirs, system, (count - 1) as nat);
        let entries = sources::listing_at(system, count - 1);
        reveal(Seq::filter);
        assert(names_of(entries) =~= Seq::<Seq<u8>>::empty());
        order::law_ascending::<Vec<u8>>(names_of(entries));
        assert(sources::system_files(dirs, system, count) =~= Seq::<FilePathView>::empty());
    }
}

/// A file has the extension `toml` exactly if its name is something and then `.toml`.
pub proof fn law_toml_extension(name: Seq<u8>, stem: Seq<u8>)
    ensures
        sources::is_toml_name(stem + utf8::encode_utf8(".toml"@)) <==> stem.len() > 0,
        sources::is_toml_name(name) ==> exists|front: Seq<u8>|
            front.len() > 0 && name == #[trigger] (front + utf8::encode_utf8(".toml"@)),
{
    let ending = utf8::encode_utf8(".toml"@);
    let whole = stem + ending;
    assert(whole.skip(whole.len() - ending.len()) =~= ending);
    if sources::is_toml_name(name) {
        let front = name.take(name.len() - ending.len());
        assert(name =~= front + ending) by {
            assert(name =~= front + name.skip(name.len() - ending.len()));
        }
    }
}

/// Files with different names are each taken once.
pub proof fn law_each_file_is_taken_once(entries: Seq<(Seq<u8>, bool)>)
    requires
        forall|i: int, j: int|
            0 <= i < j < entries.len() ==> (#[trigger] entries[i]).0 != (#[trigger] entries[j]).0,
    ensures
        sources::toml_names(entries).no_duplicates(),
{
    let names = names_of(entries);
    lemma_distinct_names(entries);
    order::law_ascending::<Vec<u8>>(names);
    names.lemma_multiset_has_no_duplicates();
    sources::toml_names(entries).lemma_multiset_has_no_duplicates_conv();
}

proof fn lemma_distinct_names(entries: Seq<(Seq<u8>, bool)>)
    requires
        forall|i: int, j: int|
            0 <= i < j < entries.len() ==> (#[trigger] entries[i]).0 != (#[trigger] entries[j]).0,
    ensures
        names_of(entries).no_duplicates(),
        forall|k: int|
            0 <= k < names_of(entries).len() ==> exists|i: int|
                0 <= i < entries.len() && (#[trigger] entries[i]).0 == #[trigger] names_of(
                    entries,
                )[k],
    decreases entries.len(),
{
    reveal(Seq::filter);
    if entries.len() > 0 {
        let front = entries.drop_last();
        let last = entries[entries.len() - 1];
        assert forall|i: int| 0 <= i < front.len() implies #[trigger] front[i] == entries[i] by {}
        lemma_distinct_names(front);
        let names = names_of(entries);
        let before = names_of(front);
        assert(names =~= (if last.1 && sources::is_toml_name(last.0) {
            before.push(last.0)
        } else {
            before
        }));
        assert forall|k: int| 0 <= k < names.len() implies exists|i: int|
            0 <= i < entries.len() && (#[trigger] entries[i]).0 == #[trigger] names[k] by {
            if k < before.len() {
                assert(names[k] == before[k]);
                let i = choose|i: int| 0 <= i < front.len() && (#[trigger] front[i]).0 == before[k];
                assert(entries[i].0 == names[k]);
            } else {
                assert(entries[entries.len() - 1].0 == names[k]);
            }
        }
        assert forall|i: int, j: int| 0 <= i < j < names.len() implies names[i] != names[j] by {
            if j == before.len() {
                assert(names[i] == before[i]);
                let k = choose|k: int| 0 <= k < front.len() && (#[trigger] front[k]).0 == before[i];
                assert(entries[k].0 != entries[entries.len() - 1].0);
            } else {
                assert(names[i] == before[i] && names[j] == before[j]);
            }
        }
    }
}

/// The legacy file has no say in which files are loaded.
pub proof fn law_legacy_file_is_not_loaded(
    sources: SourcesView,
    legacy: Option<FilePathView>,
    system: Seq<Vec<DirEntry>>,
    user: Seq<DirEntry>,
)
    ensures
        sources::ordered_files(sources, system, user) == sources::ordered_files(
            SourcesView { legacy_config_file: legacy, ..sources },
            system,
            user,
        ),
{
}

/// The files that are taken from a directory are its regular files with the extension `toml`, and
/// they come in ascending order.
pub proof fn law_toml_names(entries: Seq<(Seq<u8>, bool)>, name: Seq<u8>)
    ensures
        sources::toml_names(entries).contains(name) <==> entries.contains((name, true))
            && sources::is_toml_name(name),
        relations::sorted_by(
            sources::toml_names(entries),
            |a: Seq<u8>, b: Seq<u8>| order::bytes_le(a, b),
        ),
{
    let names = names_of(entries);
    order::law_ascending::<Vec<u8>>(names);
    let sorted = sources::toml_names(entries);
    names.to_multiset_ensures();
    sorted.to_multiset_ensures();
    assert(sorted.contains(name) <==> sorted.to_multiset().count(name) > 0);
    assert(names.contains(name) <==> names.to_multiset().count(name) > 0);
    let keep = |entry: (Seq<u8>, bool)| entry.1 && sources::is_toml_name(entry.0);
    let kept = entries.filter(keep);
    broadcast use seq_lib::group_filter_ensures;

    if names.contains(name) {
        let i = choose|i: int| 0 <= i < names.len() && names[i] == name;
        assert(keep(kept[i]));
        entries.lemma_filter_contains_rev(keep, kept[i]);
        assert(kept[i] == (name, true));
        assert(entries.contains(kept[i]));
    }
    if entries.contains((name, true)) && sources::is_toml_name(name) {
        let i = choose|i: int| 0 <= i < entries.len() && entries[i] == (name, true);
        assert(kept.contains(entries[i]));
        let j = choose|j: int| 0 <= j < kept.len() && kept[j] == (name, true);
        assert(names[j] == name);
    }
    assert forall|i: int, j: int| 0 <= i < j < sorted.len() implies order::bytes_le(
        #[trigger] sorted[i],
        #[trigger] sorted[j],
    ) by {
        let le = |a: Seq<u8>, b: Seq<u8>| <Vec<u8> as order::Ranked>::key_le(a, b);
        assert(le(sorted[i], sorted[j]));
    }
}

/// The names of the TOML files in a directory, in the order in which they are listed.
spec fn names_of(entries: Seq<(Seq<u8>, bool)>) -> Seq<Seq<u8>> {
    entries.filter(|entry: (Seq<u8>, bool)| entry.1 && sources::is_toml_name(entry.0)).map_values(
        |entry: (Seq<u8>, bool)| entry.0,
    )
}

proof fn lemma_names_of_add(a: Seq<(Seq<u8>, bool)>, b: Seq<(Seq<u8>, bool)>)
    ensures
        names_of(a + b) == names_of(a) + names_of(b),
        names_of(a + b).to_multiset() == names_of(a).to_multiset().add(names_of(b).to_multiset()),
{
    let keep = |entry: (Seq<u8>, bool)| entry.1 && sources::is_toml_name(entry.0);
    Seq::filter_distributes_over_add(a, b, keep);
    assert(names_of(a + b) =~= names_of(a) + names_of(b));
    seq_lib::lemma_multiset_commutative(names_of(a), names_of(b));
}

proof fn lemma_names_of_multiset(a: Seq<(Seq<u8>, bool)>, b: Seq<(Seq<u8>, bool)>)
    requires
        a.to_multiset() == b.to_multiset(),
    ensures
        names_of(a).to_multiset() == names_of(b).to_multiset(),
    decreases a.len(),
{
    a.to_multiset_ensures();
    b.to_multiset_ensures();
    if a.len() == 0 {
        assert(a =~= b);
    } else {
        let last = a.len() - 1;
        let item = a[last];
        assert(a.contains(item));
        assert(a.to_multiset().count(item) > 0);
        assert(b.contains(item));
        let j = choose|j: int| 0 <= j < b.len() && b[j] == item;
        let front = b.take(j);
        let back = b.skip(j + 1);
        assert(b.remove(j) =~= front + back);
        assert(a.remove(last) =~= a.drop_last());
        lemma_names_of_multiset(a.drop_last(), front + back);
        assert(a =~= a.drop_last() + seq![item]);
        assert(b =~= front + seq![item] + back);
        lemma_names_of_add(a.drop_last(), seq![item]);
        lemma_names_of_add(front + seq![item], back);
        lemma_names_of_add(front, seq![item]);
        lemma_names_of_add(front, back);
        assert(names_of(a).to_multiset() =~= names_of(b).to_multiset());
    }
}

/// In which order a directory lists its files does not matter.
pub proof fn law_listing_order_does_not_matter(a: Seq<(Seq<u8>, bool)>, b: Seq<(Seq<u8>, bool)>)
    requires
        a.to_multiset() == b.to_multiset(),
    ensures
        sources::toml_names(a) == sources::toml_names(b),
{
    lemma_names_of_multiset(a, b);
    order::law_ascending::<Vec<u8>>(names_of(a));
    order::law_ascending::<Vec<u8>>(names_of(b));
    <Vec<u8> as order::Ranked>::key_order();
    seq_lib::lemma_sorted_unique(
        sources::toml_names(a),
        sources::toml_names(b),
        |x: Seq<u8>, y: Seq<u8>| <Vec<u8> as order::Ranked>::key_le(x, y),
    );
}

} // verus!
