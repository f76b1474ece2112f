use starship::allowlist::{
    add_allowlist_path, allowlist_path, list_allowlist_paths, load_allowlist,
    remove_allowlist_path, Allowlist,
};
use starship::configs::ondemand::OndemandConfig;
use starship::context::StarshipRootConfig;
use starship::modules::ondemand::{
    approve_variable, filter_root_config, format_variable, item_module_name, item_names, module,
};
use starship::ondemand::{
    discover, ignored, merge_items_from_value, resolve_ondemand_dir, root_settings, scan_places,
    Ignored, OndemandState, PathProbe, ScannedDir, DIR_NAME,
};
use starship::path::{DirPath, FilePath, PathPart, PathPrefix, PathStep};
use starship::sources::ConfigSources;
use starship::toml_text::{read_table, read_value};
use starship::value::{Table, TomlValue};

fn dir(path: &str) -> DirPath {
    let mut parts: Vec<PathPart> = Vec::new();
    if path.starts_with('/') {
        parts.push(PathPart::RootDir);
    }
    for name in path.split('/').filter(|name| !name.is_empty()) {
        parts.push(PathPart::Normal(name.as_bytes().to_vec()));
    }
    DirPath {
        base: path.as_bytes().to_vec(),
        steps: Vec::new(),
        parts,
    }
}

/// How a path is written that nothing has been done to.
fn written(path: &DirPath) -> &str {
    assert!(path.steps.is_empty());
    std::str::from_utf8(&path.base).unwrap()
}

fn drive(prefix: PathPrefix) -> DirPath {
    DirPath {
        base: Vec::new(),
        steps: Vec::new(),
        parts: vec![PathPart::Prefix(prefix), PathPart::RootDir],
    }
}

fn probe(path: &str, child: Option<&str>) -> Result<PathProbe, String> {
    Ok(PathProbe {
        path: dir(path),
        shown: path.to_string(),
        is_dir: true,
        child: child.map(|child| Ok(dir(child))),
    })
}

fn sources(home: Option<&str>) -> ConfigSources {
    ConfigSources {
        explicit_config: None,
        user_config_home: home.map(FilePath::from_text),
        user_config_file: None,
        user_conf_d: None,
        system_conf_dirs: Vec::new(),
        legacy_config_file: None,
    }
}

fn scanned(place: &DirPath, contents: &[&str]) -> ScannedDir {
    ScannedDir {
        place: place.clone(),
        is_dir: true,
        canonical: Some(place.clone()),
        contents: contents.iter().map(|content| Some(content.to_string())).collect(),
    }
}

fn missing(place: &DirPath) -> ScannedDir {
    ScannedDir {
        place: place.clone(),
        is_dir: false,
        canonical: None,
        contents: Vec::new(),
    }
}

fn allowing(paths: &[&str]) -> Allowlist {
    load_allowlist(Some(paths.iter().map(|path| dir(path)).collect()))
}

fn same_table(a: &Table, document: &str) -> bool {
    a.same_as(&read_table(document).unwrap())
}

#[test]
fn resolve_accepts_starship_dir_or_direct_parent() {
    assert_eq!(
        resolve_ondemand_dir(probe("/tmp/dir", Some("/tmp/dir/.starship"))).unwrap(),
        dir("/tmp/dir/.starship")
    );
    assert_eq!(
        resolve_ondemand_dir(probe("/tmp/dir/.starship", None)).unwrap(),
        dir("/tmp/dir/.starship")
    );
}

#[test]
fn resolve_rejects_greater_parent() {
    assert!(resolve_ondemand_dir(probe("/tmp/dir", None)).is_err());
    assert_eq!(
        resolve_ondemand_dir(probe("/tmp/dir", None)),
        Err("No .starship directory found at /tmp/dir or its direct child".to_string())
    );
}

#[test]
fn resolve_hands_errors_on() {
    assert_eq!(
        resolve_ondemand_dir(Err("no such file".to_string())),
        Err("no such file".to_string())
    );
    let mut found = probe("/tmp/dir", None).unwrap();
    found.child = Some(Err("gone".to_string()));
    assert_eq!(resolve_ondemand_dir(Ok(found)), Err("gone".to_string()));
    // A file of that name is not a directory.
    let mut found = probe("/tmp/.starship", None).unwrap();
    found.is_dir = false;
    assert!(resolve_ondemand_dir(Ok(found)).is_err());
}

#[test]
fn discover_splits_allowlisted_and_unallowlisted_dirs() {
    let service = dir("/tmp/project/service");
    let parent_starship = dir("/tmp/project").join(DIR_NAME);
    let child_starship = service.join(DIR_NAME);
    let item = r#"
            [ondemand.parent]
            command = "printf parent"
            when = true
            "#;

    let (added, file) = add_allowlist_path(
        &sources(Some("/tmp/config")),
        resolve_ondemand_dir(probe("/tmp/project/.starship", None)),
        load_allowlist(None),
    )
    .unwrap();
    assert_eq!(added, parent_starship);
    let allowlist = load_allowlist(Some(file.paths));

    let scan: Vec<ScannedDir> = scan_places(&service, OndemandConfig::default().scan_depth)
        .iter()
        .map(|place| {
            if place.same_as(&parent_starship) {
                scanned(place, &[item])
            } else if place.same_as(&child_starship) {
                scanned(place, &["[ondemand.child]\ncommand = 'x'"])
            } else {
                missing(place)
            }
        })
        .collect();
    let state = discover(&scan, &allowlist);
    assert_eq!(state.allowlisted_dirs, vec![parent_starship]);
    assert_eq!(state.unallowlisted_dirs, vec![child_starship]);
    assert!(state.items.get("parent").is_some());
    assert!(state.items.get("child").is_none());
}

#[test]
fn renders_warning_and_allowlisted_items() {
    let parent_starship = dir("/tmp/project/.starship");
    let child_starship = dir("/tmp/project/service/.starship");
    let item = r#"
            [ondemand.parent]
            command = "printf parent"
            when = true
            format = "[$output](green) "
            "#;
    let state = discover(
        &vec![scanned(&child_starship, &[]), scanned(&parent_starship, &[item])],
        &allowing(&["/tmp/project/.starship"]),
    );
    let config = OndemandConfig {
        format: "$items",
        ..OndemandConfig::default()
    };
    let count = state.unallowlisted_dirs.len();
    let message = format!(
        "{} new config{} (starship allowlist add) ",
        approve_variable("count", count).unwrap(),
        approve_variable("suffix", count).unwrap()
    );
    assert_eq!(item_names(&state.items), vec!["parent"]);
    let items = module(&config, &state, Some(message), &vec![Some("parent ".to_string())]).unwrap();
    let actual = format_variable("items", &items).unwrap();

    assert!(actual.contains("1 new config"));
    assert!(actual.contains("parent"));
    assert_eq!(actual, "1 new config (starship allowlist add) parent ");
}

#[test]
fn a_scan_goes_up_to_the_root() {
    let places = scan_places(&dir("/a/b"), 8);
    assert_eq!(
        places,
        vec![dir("/a/b/.starship"), dir("/a/.starship"), dir("/.starship")]
    );
    assert_eq!(scan_places(&dir("/a/b"), 0), vec![dir("/a/b/.starship")]);
    assert_eq!(scan_places(&dir("/a/b"), usize::MAX), places);
    assert_eq!(
        scan_places(&dir("a"), 8),
        vec![dir("a/.starship"), dir(".starship")]
    );
}

#[test]
fn a_scan_reports_what_was_found_at_its_places() {
    let scan: Vec<ScannedDir> = scan_places(&dir("/a/b/c"), 2)
        .iter()
        .map(|place| ScannedDir {
            canonical: None,
            is_dir: !place.same_as(&dir("/a/b/.starship")),
            ..scanned(place, &[])
        })
        .collect();
    let state = discover(&scan, &allowing(&["/a/.starship", "/.starship"]));
    assert_eq!(state.allowlisted_dirs, vec![dir("/a/.starship")]);
    assert_eq!(state.unallowlisted_dirs, vec![dir("/a/b/c/.starship")]);
}

#[test]
fn nearer_directories_override_farther_ones() {
    let near = dir("/a/b/.starship");
    let far = dir("/a/.starship");
    let scan = vec![
        scanned(&near, &["[ondemand.x]\ncommand = 'near'"]),
        missing(&dir("/a/c/.starship")),
        scanned(
            &far,
            &["[ondemand.x]\ncommand = 'far'\nwhen = true", "[ondemand.y]\nwhen = false"],
        ),
    ];
    let state = discover(&scan, &allowing(&["/a/.starship", "/a/b/.starship"]));
    assert_eq!(state.allowlisted_dirs, vec![far, near]);
    assert!(same_table(&state.items, "[x]\ncommand = 'near'\nwhen = true\n[y]\nwhen = false"));
    assert!(same_table(&state.clone().items, "[x]\ncommand = 'near'\nwhen = true\n[y]\nwhen = false"));

    let none = discover(&scan, &Allowlist::new());
    assert_eq!(none.allowlisted_dirs, vec![]);
    assert_eq!(none.unallowlisted_dirs.len(), 2);
    assert_eq!(none.items.len(), 0);
}

#[test]
fn the_canonical_form_counts() {
    let place = dir("/link/.starship");
    let mut found = scanned(&place, &["[ondemand.x]\nwhen = true"]);
    found.canonical = Some(dir("/real/.starship"));
    let state = discover(&vec![found], &allowing(&["/real/.starship"]));
    assert_eq!(state.allowlisted_dirs, vec![dir("/real/.starship")]);
    let mut found = scanned(&place, &["[ondemand.x]\nwhen = true"]);
    found.canonical = None;
    let state = discover(&vec![found], &allowing(&["/real/.starship"]));
    assert_eq!(state.unallowlisted_dirs, vec![place]);
}

#[test]
fn files_that_are_no_toml_are_passed_over() {
    let mut found = scanned(&dir("/a/.starship"), &["[ondemand.x", "[ondemand.y]\nz = 1"]);
    found.contents.push(None);
    let state = discover(&vec![found], &allowing(&["/a/.starship"]));
    assert!(same_table(&state.items, "[y]\nz = 1"));
}

#[test]
fn only_items_are_taken_from_a_file() {
    let mut items = Table::new();
    let file = read_value(
        "other = 1\n[ondemand]\ndisabled = true\n[ondemand.items]\na = 1\n[ondemand.x]\na = 1\n[custom.y]\na = 1",
    )
    .unwrap();
    merge_items_from_value(&file, &mut items);
    assert!(same_table(&items, "[x]\na = 1"));
    merge_items_from_value(&TomlValue::Integer(1), &mut items);
    merge_items_from_value(&read_value("ondemand = 1").unwrap(), &mut items);
    assert!(same_table(&items, "[x]\na = 1"));
    merge_items_from_value(&read_value("[ondemand.x]\nb = 2").unwrap(), &mut items);
    assert!(same_table(&items, "[x]\na = 1\nb = 2"));
}

#[test]
fn the_allowlist_is_kept_beside_the_config() {
    assert_eq!(
        allowlist_path(&sources(Some("/config"))).map(|path| (path.base, path.names)),
        Some((b"/config".to_vec(), vec![b"allowlist.toml".to_vec()]))
    );
    assert!(allowlist_path(&sources(None)).is_none());
}

#[test]
fn the_allowlist_is_a_set_in_order() {
    let list = list_allowlist_paths(allowing(&["/b", "/a/c", "/a", "/b", "/a.b"]));
    assert_eq!(list, vec![dir("/a"), dir("/a/c"), dir("/a.b"), dir("/b")]);
    assert_eq!(list_allowlist_paths(load_allowlist(None)), vec![]);
}

#[test]
fn paths_stay_as_they_are_written() {
    let list = list_allowlist_paths(allowing(&["/b//c/", "/a/", "/b/c"]));
    let texts: Vec<&str> = list.iter().map(written).collect();
    assert_eq!(texts, vec!["/a/", "/b//c/"]);

    // One that is on the list already stays as it was written.
    let home = sources(Some("/config"));
    let (added, file) = add_allowlist_path(&home, Ok(dir("/b/c")), allowing(&["/b//c/"])).unwrap();
    assert_eq!(written(&added), "/b/c");
    let texts: Vec<&str> = file.paths.iter().map(written).collect();
    assert_eq!(texts, vec!["/b//c/"]);

    // A place that has no canonical form is written as the scan came to it.
    let places = scan_places(&dir("/a//b/"), 1);
    assert_eq!(places[0].base, b"/a//b/".to_vec());
    assert!(matches!(places[0].steps.as_slice(), [PathStep::Join(name)] if name == b".starship"));
    assert!(matches!(
        places[1].steps.as_slice(),
        [PathStep::Parent, PathStep::Join(name)] if name == b".starship"
    ));
    assert_eq!(places[1], dir("/a/.starship"));
}

#[test]
fn prefixes_come_in_the_order_of_their_kinds() {
    let name = |text: &str| text.as_bytes().to_vec();
    let ordered = || {
        vec![
            drive(PathPrefix::Verbatim(name("z"))),
            drive(PathPrefix::VerbatimUnc(name("server"), name("a"))),
            drive(PathPrefix::VerbatimUnc(name("server"), name("b"))),
            drive(PathPrefix::VerbatimDisk(b'C')),
            drive(PathPrefix::VerbatimDisk(b'D')),
            drive(PathPrefix::DeviceNs(name("a"))),
            drive(PathPrefix::Unc(name("a"), name("z"))),
            drive(PathPrefix::Unc(name("b"), name("a"))),
            drive(PathPrefix::Disk(b'A')),
            dir("/"),
            dir("a"),
        ]
    };
    let mut mixed = ordered();
    mixed.reverse();
    assert_eq!(list_allowlist_paths(load_allowlist(Some(mixed))), ordered());
}

#[test]
fn what_is_ignored_is_reported_in_order() {
    let file = read_value(
        "other = 1\n[ondemand]\ndisabled = true\n[ondemand.items]\na = 1\n[ondemand.x]\na = 1\n[custom.y]\na = 1",
    )
    .unwrap();
    assert_eq!(
        ignored(&file),
        vec![
            Ignored::Section("other".to_string()),
            Ignored::Key("disabled".to_string()),
            Ignored::Key("items".to_string()),
            Ignored::Section("custom".to_string()),
        ]
    );
    assert_eq!(ignored(&TomlValue::Integer(1)), vec![Ignored::File]);
    assert_eq!(ignored(&read_value("ondemand = 1").unwrap()), vec![Ignored::Ondemand]);
    assert_eq!(ignored(&read_value("[ondemand.x]\na = 1").unwrap()), vec![]);
}

#[test]
fn earlier_files_of_a_directory_override_other_directories() {
    let scan = vec![
        scanned(
            &dir("/a/b/.starship"),
            &["[ondemand.x]\ncommand = 'near'", "[ondemand.x]\nwhen = false"],
        ),
        scanned(&dir("/a/.starship"), &["[ondemand.x]\ncommand = 'far'\nshell = 'sh'"]),
    ];
    let state = discover(&scan, &allowing(&["/a/.starship", "/a/b/.starship"]));
    assert!(same_table(
        &state.items,
        "[x]\ncommand = 'near'\nshell = 'sh'\nwhen = false"
    ));
}

#[test]
fn removing_undoes_adding() {
    let home = sources(Some("/config"));
    let (added, file) =
        add_allowlist_path(&home, Ok(dir("/p/.starship")), allowing(&["/z"])).unwrap();
    assert_eq!(added, dir("/p/.starship"));
    assert_eq!(file.path.base, b"/config".to_vec());
    assert_eq!(file.path.names, vec![b"allowlist.toml".to_vec()]);
    assert_eq!(file.paths, vec![dir("/p/.starship"), dir("/z")]);
    let (removed, file) = remove_allowlist_path(
        &home,
        Ok(dir("/p/.starship")),
        "/p/.starship",
        load_allowlist(Some(file.paths)),
    )
    .unwrap();
    assert_eq!(removed, dir("/p/.starship"));
    assert_eq!(file.paths, vec![dir("/z")]);
    let (_, file) =
        remove_allowlist_path(&home, Ok(dir("/z")), "/z", load_allowlist(Some(file.paths))).unwrap();
    assert_eq!(file.paths, vec![]);
    let (_, file) = add_allowlist_path(&home, Ok(dir("/z")), load_allowlist(Some(file.paths))).unwrap();
    assert_eq!(file.paths, vec![dir("/z")]);
}

#[test]
fn the_allowlist_is_not_changed_without_need() {
    let nowhere = sources(None);
    let unknown = || Err("no such file".to_string());
    let no_home = "Unable to determine STARSHIP_CONFIG_HOME";
    assert_eq!(
        add_allowlist_path(&nowhere, unknown(), allowing(&[])).unwrap_err(),
        "no such file"
    );
    assert_eq!(
        add_allowlist_path(&nowhere, Ok(dir("/a")), allowing(&[])).unwrap_err(),
        no_home
    );
    assert_eq!(
        remove_allowlist_path(&nowhere, unknown(), "", allowing(&[])).unwrap_err(),
        "no such file"
    );
    assert_eq!(
        remove_allowlist_path(&nowhere, Ok(dir("/a")), "/a", allowing(&["/b"])).unwrap_err(),
        "/a is not allowlisted"
    );
    assert_eq!(
        remove_allowlist_path(&nowhere, Ok(dir("/a")), "/a", allowing(&["/a"])).unwrap_err(),
        no_home
    );
}

#[test]
fn the_settings_leave_the_reserved_name_out() {
    let config = read_value("disabled = true\n[items]\na = 1").unwrap();
    let Some(TomlValue::Table(settings)) = filter_root_config(&config) else {
        panic!("no settings");
    };
    assert!(same_table(&settings, "disabled = true"));
    assert!(filter_root_config(&read_value("[items]\na = 1").unwrap()).is_none());
    assert!(filter_root_config(&TomlValue::Boolean(true)).is_none());

    let mut root_config = StarshipRootConfig::default();
    assert!(root_settings(&root_config).is_none());
    root_config.ondemand = Some(read_table("scan_depth = 3\n[items]\na = 1").unwrap());
    let Some(TomlValue::Table(settings)) = root_settings(&root_config) else {
        panic!("no settings");
    };
    assert!(same_table(&settings, "scan_depth = 3"));
    root_config.ondemand = Some(read_table("[items]").unwrap());
    assert!(matches!(
        root_settings(&root_config),
        Some(TomlValue::Table(settings)) if settings.len() == 0
    ));
}

#[test]
fn the_default_settings() {
    let config = OndemandConfig::default();
    assert!(!config.disabled);
    assert_eq!(config.format, "$items");
    assert_eq!(
        config.approve_format,
        "[$count new config$suffix (starship allowlist add)](yellow bold) "
    );
    assert_eq!(config.item_separator, "");
    assert_eq!(config.scan_depth, 8);
}

#[test]
fn variables_of_the_note() {
    assert_eq!(approve_variable("count", 0), Some("0".to_string()));
    assert_eq!(approve_variable("count", 120), Some("120".to_string()));
    assert_eq!(approve_variable("suffix", 0), Some("s".to_string()));
    assert_eq!(approve_variable("suffix", 1), Some("".to_string()));
    assert_eq!(approve_variable("suffix", 2), Some("s".to_string()));
    assert_eq!(approve_variable("items", 1), None);
    assert_eq!(format_variable("count", "x"), None);
    assert_eq!(item_module_name("x"), "ondemand.x");
}

#[test]
fn items_are_shown_by_name() {
    let items = read_table("[b]\n[a]\n[B]\n[\"ä\"]\n[ab]").unwrap();
    assert_eq!(item_names(&items), vec!["B", "a", "ab", "b", "ä"]);
}

#[test]
fn parts_stand_between_separators() {
    let mut config = OndemandConfig {
        item_separator: ", ",
        ..OndemandConfig::default()
    };
    let mut state = OndemandState::default();
    let rendered = vec![
        Some("x".to_string()),
        None,
        Some(String::new()),
        Some("y".to_string()),
    ];
    assert_eq!(module(&config, &state, None, &vec![]), None);
    assert_eq!(module(&config, &state, None, &vec![None, Some(String::new())]), None);
    assert_eq!(
        module(&config, &state, Some("note".to_string()), &rendered),
        Some("x, y".to_string())
    );
    state.unallowlisted_dirs.push(dir("/a"));
    assert_eq!(
        module(&config, &state, Some("note".to_string()), &rendered),
        Some("note, x, y".to_string())
    );
    assert_eq!(
        module(&config, &state, Some("note".to_string()), &vec![]),
        Some("note".to_string())
    );
    assert_eq!(module(&config, &state, None, &rendered), None);
    config.disabled = true;
    assert_eq!(module(&config, &state, Some("note".to_string()), &rendered), None);
}
