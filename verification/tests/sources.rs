use starship::config::StarshipConfig;
use starship::env::{Env, Platform};
use starship::migration::{
    compare_legacy_config, handle_legacy_config, validate_legacy_config, LegacyStep,
};
use starship::path::FilePath;
use starship::sources::{sorted_toml_files, system_conf_dirs, ConfigSources, DirEntry};
use starship::toml_text::read_value;
use starship::value::TomlValue;

fn env_with_home(home: &str) -> Env {
    let mut env = Env::new(Platform::Other, None, None, true);
    env.insert("HOME", home);
    env
}

fn shown(path: &FilePath) -> String {
    let mut text = String::from_utf8(path.base.clone()).unwrap();
    for name in &path.names {
        text.push('/');
        text.push_str(std::str::from_utf8(name).unwrap());
    }
    text
}

fn shown_some(path: &Option<FilePath>) -> Option<String> {
    path.as_ref().map(shown)
}

fn shown_all(paths: &[FilePath]) -> Vec<String> {
    paths.iter().map(shown).collect()
}

fn shown_step(step: &LegacyStep) -> String {
    match step {
        LegacyStep::Leave => "leave".to_string(),
        LegacyStep::NoTarget(legacy) => format!("no target for {}", shown(legacy)),
        LegacyStep::InUse { legacy, current } => {
            format!("{} in use, not {}", shown(current), shown(legacy))
        }
        LegacyStep::Copy { legacy, target } => {
            format!("copy {} to {}", shown(legacy), shown(target))
        }
    }
}

/// Whether two sources are equal where a path is told by how it is written in full.
fn same_sources(a: &ConfigSources, b: &ConfigSources) -> bool {
    match a.compared_paths(b) {
        Some(pairs) => pairs.iter().all(|(x, y)| shown(x) == shown(y)),
        None => false,
    }
}

fn file(name: &str) -> DirEntry {
    DirEntry {
        name: name.as_bytes().to_vec(),
        is_file: true,
    }
}

fn directory(name: &str) -> DirEntry {
    DirEntry {
        name: name.as_bytes().to_vec(),
        is_file: false,
    }
}

fn no_sources() -> ConfigSources {
    ConfigSources {
        explicit_config: None,
        user_config_home: None,
        user_config_file: None,
        user_conf_d: None,
        system_conf_dirs: Vec::new(),
        legacy_config_file: None,
    }
}

#[test]
fn config_sources_explicit_config_wins() {
    let mut env = env_with_home("/dir");
    env.insert("STARSHIP_CONFIG", "/dir/custom.toml");
    env.insert("STARSHIP_CONFIG_HOME", "/dir/starship-home");

    let sources = ConfigSources::from_env(&env);

    assert_eq!(
        shown_some(&sources.primary_edit_path()),
        Some("/dir/custom.toml".to_string())
    );
    assert_eq!(
        shown_all(&sources.ordered_config_files(
            &vec![vec![file("00-system.toml")]],
            &vec![file("10-user.toml")]
        )),
        vec!["/dir/custom.toml".to_string()]
    );
}

#[test]
fn config_sources_use_starship_config_home() {
    let mut env = env_with_home("/dir");
    env.insert("STARSHIP_CONFIG_HOME", "/dir/starship-home");

    let sources = ConfigSources::from_env(&env);

    assert_eq!(
        shown_some(&sources.user_config_home),
        Some("/dir/starship-home".to_string())
    );
    assert_eq!(
        shown_some(&sources.user_config_file),
        Some("/dir/starship-home/starship.toml".to_string())
    );
    assert_eq!(
        shown_some(&sources.user_conf_d),
        Some("/dir/starship-home/conf.d".to_string())
    );
}

#[test]
fn config_sources_use_xdg_config_home() {
    let mut env = env_with_home("/dir");
    env.insert("XDG_CONFIG_HOME", "/dir/xdg-config");

    let sources = ConfigSources::from_env(&env);

    assert_eq!(
        shown_some(&sources.user_config_home),
        Some("/dir/xdg-config/starship".to_string())
    );
}

#[test]
fn config_sources_use_xdg_config_dirs() {
    let mut env = env_with_home("/dir");
    env.insert("XDG_CONFIG_DIRS", "/dir/xdg-a:/dir/xdg-b");

    let sources = ConfigSources::from_env(&env);

    assert_eq!(
        shown_all(&sources.system_conf_dirs),
        vec![
            "/dir/xdg-a/starship/conf.d".to_string(),
            "/dir/xdg-b/starship/conf.d".to_string(),
        ]
    );
}

/// Files by their paths.
type Disk = Vec<(FilePath, String)>;

fn on_disk(disk: &Disk, path: &FilePath) -> Option<String> {
    disk.iter()
        .find(|(file, _)| shown(file) == shown(path))
        .map(|(_, content)| content.clone())
}

/// Deals with the legacy file and loads what the sources name, all on `disk`.
fn initialize(sources: &ConfigSources, disk: &mut Disk) -> (LegacyStep, StarshipConfig) {
    let exists = |path: &Option<FilePath>, disk: &Disk| {
        path.as_ref().is_some_and(|path| on_disk(disk, path).is_some())
    };
    let step = handle_legacy_config(
        sources,
        exists(&sources.legacy_config_file, disk),
        exists(&sources.user_config_file, disk),
    );
    if let LegacyStep::Copy { legacy, target } = &step {
        let content = on_disk(disk, legacy).unwrap();
        assert_eq!(validate_legacy_config(&content, &content), Ok(()));
        disk.push((target.clone(), content));
    }
    let contents = sources
        .ordered_config_files(&vec![], &vec![])
        .iter()
        .map(|path| on_disk(disk, path))
        .collect();
    (step, StarshipConfig::initialize_from_sources(&contents))
}

#[test]
fn legacy_config_is_copied_and_not_removed() {
    let legacy_config = FilePath::from_text("/dir/.config/starship.toml");
    let user_config_home = FilePath::from_text("/dir/xdg/starship");
    let user_config_file = user_config_home.join("starship.toml");
    let mut disk = vec![(
        legacy_config.clone(),
        "[custom.legacy]\ncommand = 'true'\n".to_string(),
    )];

    let sources = ConfigSources {
        explicit_config: None,
        user_config_home: Some(user_config_home.clone()),
        user_config_file: Some(user_config_file.clone()),
        user_conf_d: Some(user_config_home.join("conf.d")),
        system_conf_dirs: Vec::new(),
        legacy_config_file: Some(legacy_config.clone()),
    };

    let (step, config) = initialize(&sources, &mut disk);

    assert_eq!(
        shown_step(&step),
        "copy /dir/.config/starship.toml to /dir/xdg/starship/starship.toml"
    );
    assert!(on_disk(&disk, &legacy_config).is_some());
    assert!(on_disk(&disk, &user_config_file).is_some());
    assert!(config.config.unwrap().get("custom").is_some());
}

#[test]
fn legacy_config_is_ignored_when_new_config_exists() {
    let legacy_config = FilePath::from_text("/dir/.config/starship.toml");
    let user_config_home = FilePath::from_text("/dir/xdg/starship");
    let user_config_file = user_config_home.join("starship.toml");
    let mut disk = vec![
        (
            legacy_config.clone(),
            "[custom.legacy]\ncommand = 'true'\n".to_string(),
        ),
        (
            user_config_file.clone(),
            "[custom.new]\ncommand = 'true'\n".to_string(),
        ),
    ];

    let sources = ConfigSources {
        explicit_config: None,
        user_config_home: Some(user_config_home.clone()),
        user_config_file: Some(user_config_file.clone()),
        user_conf_d: Some(user_config_home.join("conf.d")),
        system_conf_dirs: Vec::new(),
        legacy_config_file: Some(legacy_config.clone()),
    };

    let (step, config) = initialize(&sources, &mut disk);

    assert_eq!(
        shown_step(&step),
        "/dir/xdg/starship/starship.toml in use, not /dir/.config/starship.toml"
    );
    let config = config.config.unwrap();
    let Some(TomlValue::Table(custom)) = config.get("custom") else {
        panic!("no table");
    };
    assert!(custom.get("new").is_some());
    assert!(custom.get("legacy").is_none());
}

#[test]
fn legacy_config_without_a_target_is_ignored() {
    let legacy = FilePath::from_text("/dir/.config/starship.toml");
    let mut sources = ConfigSources {
        legacy_config_file: Some(legacy),
        ..no_sources()
    };
    let step = |sources: &ConfigSources, legacy: bool, user: bool| {
        shown_step(&handle_legacy_config(sources, legacy, user))
    };
    assert_eq!(step(&sources, true, false), "no target for /dir/.config/starship.toml");
    assert_eq!(step(&sources, false, false), "leave");
    sources.explicit_config = Some(FilePath::from_text("/dir/custom.toml"));
    assert_eq!(step(&sources, true, false), "leave");
    assert_eq!(step(&no_sources(), true, true), "leave");
}

#[test]
fn a_copy_must_hold_the_same_values() {
    let mismatch = Err("copied config does not match legacy config".to_string());
    assert_eq!(validate_legacy_config("a = 1\nb = 2", "b = 2\na = 1"), Ok(()));
    assert_eq!(validate_legacy_config("a = 1", "a = 2"), mismatch);
    assert_eq!(validate_legacy_config("a = 1", "a = 1\nb = 1"), mismatch);
    assert_eq!(validate_legacy_config("a = -0.0", "a = 0.0"), Ok(()));
    assert_eq!(validate_legacy_config("a = nan", "a = nan"), mismatch);
    let broken = read_value("a = ").unwrap_err();
    assert!(!broken.is_empty());
    assert_eq!(validate_legacy_config("a = ", "b"), Err(broken.clone()));
    assert_eq!(validate_legacy_config("a = 1", "a = "), Err(broken));
}

#[test]
fn readings_are_compared_in_their_order() {
    let good = || Ok(TomlValue::Boolean(true));
    let bad = |text: &str| Err(text.to_string());
    assert_eq!(compare_legacy_config(bad("x"), bad("y")), Err("x".to_string()));
    assert_eq!(compare_legacy_config(good(), bad("y")), Err("y".to_string()));
    assert_eq!(compare_legacy_config(good(), good()), Ok(()));
}

#[test]
fn the_platform_decides_on_the_system_directories() {
    let mut env = Env::new(Platform::Other, None, None, false);
    assert_eq!(
        shown_all(&system_conf_dirs(&env)),
        vec!["/etc/xdg/starship/conf.d".to_string()]
    );
    env.insert("XDG_CONFIG_DIRS", "::");
    assert_eq!(
        shown_all(&system_conf_dirs(&env)),
        vec!["/etc/xdg/starship/conf.d".to_string()]
    );

    let mac = Env::new(Platform::MacOs, None, None, false);
    assert_eq!(
        shown_all(&system_conf_dirs(&mac)),
        vec!["/Library/Application Support/starship/conf.d".to_string()]
    );

    let mut windows = Env::new(Platform::Windows, None, None, false);
    assert!(system_conf_dirs(&windows).is_empty());
    windows.insert("PROGRAMDATA", "/data");
    assert_eq!(
        shown_all(&system_conf_dirs(&windows)),
        vec!["/data/starship/conf.d".to_string()]
    );
}

#[test]
fn the_platform_names_the_directories_that_no_variable_does() {
    let home = FilePath::from_text("/home/alice");
    let config = FilePath::from_text("/home/alice/.config");
    let mut env = Env::new(Platform::Other, Some(home), Some(config), false);
    env.insert("HOME", "/elsewhere");
    let sources = ConfigSources::from_env(&env);
    assert!(sources.explicit_config.is_none());
    assert_eq!(
        shown_some(&sources.user_config_file),
        Some("/home/alice/.config/starship/starship.toml".to_string())
    );
    assert_eq!(
        shown_some(&sources.legacy_config_file),
        Some("/home/alice/.config/starship.toml".to_string())
    );
    assert_eq!(
        shown_some(&sources.primary_edit_path()),
        shown_some(&sources.user_config_file)
    );
    env.home_from_env = true;
    assert_eq!(
        shown_some(&ConfigSources::from_env(&env).legacy_config_file),
        Some("/elsewhere/.config/starship.toml".to_string())
    );
}

#[test]
fn nothing_is_known_without_variables_and_directories() {
    let env = Env::new(Platform::Windows, None, None, true);
    assert!(same_sources(&ConfigSources::from_env(&env), &no_sources()));
    assert!(no_sources().primary_edit_path().is_none());
}

#[test]
fn sources_are_compared_path_by_path() {
    let mut by_starship = Env::new(Platform::Other, None, None, false);
    by_starship.insert("STARSHIP_CONFIG_HOME", "/a/starship");
    let mut by_xdg = Env::new(Platform::Other, None, None, false);
    by_xdg.insert("XDG_CONFIG_HOME", "/a");
    let a = ConfigSources::from_env(&by_starship);
    let b = ConfigSources::from_env(&by_xdg);
    assert!(same_sources(&a, &b));
    assert!(same_sources(&a.clone(), &a));
    assert_eq!(a.compared_paths(&b).unwrap().len(), 4);

    by_xdg.insert("XDG_CONFIG_HOME", "/b");
    assert!(!same_sources(&a, &ConfigSources::from_env(&by_xdg)));
    assert!(a.compared_paths(&no_sources()).is_none());
    by_xdg.insert("XDG_CONFIG_HOME", "/a");
    by_xdg.insert("XDG_CONFIG_DIRS", "/x:/y");
    assert!(a.compared_paths(&ConfigSources::from_env(&by_xdg)).is_none());
}

#[test]
fn variables_that_are_not_utf8_are_paths_only() {
    let mut env = Env::new(Platform::Other, None, None, false);
    env.insert_os("XDG_CONFIG_DIRS", vec![b'/', 0xff]);
    env.insert_os("STARSHIP_CONFIG", vec![b'/', 0xff]);
    assert_eq!(env.get_env("XDG_CONFIG_DIRS"), None);
    assert_eq!(
        shown_all(&system_conf_dirs(&env)),
        vec!["/etc/xdg/starship/conf.d".to_string()]
    );
    let explicit = ConfigSources::from_env(&env).explicit_config.unwrap();
    assert_eq!(explicit.base, vec![b'/', 0xff]);
    assert!(explicit.names.is_empty());
    env.insert_os("HOME", vec![0xc3, 0xa4]);
    assert_eq!(env.get_env("HOME"), Some("ä".to_string()));
    assert_eq!(env.get_env("OTHER"), None);
}

#[test]
fn toml_files_are_taken_in_order() {
    let entries = vec![
        file("10-local.toml"),
        file("README.md"),
        file("00-base.toml"),
        directory("05-dir.toml"),
        file(".toml"),
        file("..toml"),
        file("toml"),
        file("x.TOML"),
    ];
    let names: Vec<String> = sorted_toml_files(&entries)
        .into_iter()
        .map(|name| String::from_utf8(name).unwrap())
        .collect();
    assert_eq!(names, vec!["..toml", "00-base.toml", "10-local.toml"]);
}

#[test]
fn the_order_of_a_listing_does_not_matter() {
    let forward = vec![file("a.toml"), file("b.toml"), file("b.toml"), file("c")];
    let backward = vec![file("c"), file("b.toml"), file("a.toml"), file("b.toml")];
    assert_eq!(sorted_toml_files(&forward), sorted_toml_files(&backward));
}

#[test]
fn system_files_come_before_those_of_the_user() {
    let home = FilePath::from_text("/home");
    let sources = ConfigSources {
        user_config_home: Some(home.clone()),
        user_config_file: Some(home.join("starship.toml")),
        user_conf_d: Some(home.join("conf.d")),
        system_conf_dirs: vec![FilePath::from_text("/b"), FilePath::from_text("/a")],
        ..no_sources()
    };
    let files = sources.ordered_config_files(
        &vec![vec![file("2.toml"), file("1.toml")], vec![file("0.toml")]],
        &vec![file("90-local.toml"), file("00-base.toml")],
    );
    assert_eq!(
        shown_all(&files),
        vec![
            "/b/1.toml",
            "/b/2.toml",
            "/a/0.toml",
            "/home/starship.toml",
            "/home/conf.d/00-base.toml",
            "/home/conf.d/90-local.toml",
        ]
    );
    // A directory that could not be read has nothing in it.
    assert_eq!(
        shown_all(&sources.ordered_config_files(&vec![], &vec![])),
        vec!["/home/starship.toml"]
    );
}
