use serde::de::DeserializeOwned;
use starship::config::{
    config_from_values, needs_second_reading, Either, ModuleConfig, StarshipConfig, VecOr,
};
use starship::path::FilePath;
use starship::sources::{ConfigSources, DirEntry};
use starship::style::{deserialize_style, AnsiStyle, Color, Style};
use starship::toml_text::{read_table, read_value};
use starship::value::{Table, TomlValue};

fn get<'a>(value: &'a TomlValue, key: &str) -> Option<&'a TomlValue> {
    match value {
        TomlValue::Table(table) => table.get(key),
        _ => None,
    }
}

fn text(value: Option<&TomlValue>) -> Option<&str> {
    match value {
        Some(TomlValue::String(s)) => Some(s.as_str()),
        _ => None,
    }
}

fn boolean(value: Option<&TomlValue>) -> Option<bool> {
    match value {
        Some(TomlValue::Boolean(b)) => Some(*b),
        _ => None,
    }
}

fn table(document: &str) -> TomlValue {
    TomlValue::Table(read_table(document).unwrap())
}

/// Reads the files of `sources` in their order from `disk`.
fn load(sources: &ConfigSources, user: &[&str], system: &[&str], disk: &[(&str, &str)]) -> StarshipConfig {
    let listing = |names: &[&str]| -> Vec<DirEntry> {
        names
            .iter()
            .map(|name| DirEntry {
                name: name.as_bytes().to_vec(),
                is_file: true,
            })
            .collect()
    };
    let mut contents = Vec::new();
    for path in sources.ordered_config_files(&vec![listing(system)], &listing(user)) {
        let mut name = String::from_utf8(path.base.clone()).unwrap();
        for part in &path.names {
            name.push('/');
            name.push_str(std::str::from_utf8(part).unwrap());
        }
        contents.push(
            disk.iter()
                .find(|(file, _)| *file == name)
                .map(|(_, content)| content.to_string()),
        );
    }
    StarshipConfig::initialize_from_sources(&contents)
}

fn user_sources(system_conf_dirs: Vec<FilePath>) -> ConfigSources {
    let user_config_home = FilePath::from_text("/user-starship");
    ConfigSources {
        explicit_config: None,
        user_config_home: Some(user_config_home.clone()),
        user_config_file: Some(user_config_home.join("starship.toml")),
        user_conf_d: Some(user_config_home.join("conf.d")),
        system_conf_dirs,
        legacy_config_file: None,
    }
}

#[test]
fn config_from_sources_merges_in_expected_order() {
    let disk = [
        (
            "/system/starship/conf.d/50-cli.toml",
            r#"
[custom.tweet]
symbol = "bird"
disabled = false
"#,
        ),
        (
            "/user-starship/starship.toml",
            r#"
[custom.tweet]
disabled = true
"#,
        ),
        (
            "/user-starship/conf.d/90-local.toml",
            r#"
[custom.tweet]
format = "local"
"#,
        ),
    ];
    let sources = user_sources(vec![FilePath::from_text("/system/starship/conf.d")]);

    let config = load(&sources, &["90-local.toml"], &["50-cli.toml"], &disk);
    let custom = config.config.as_ref().unwrap().get("custom").unwrap();
    let tweet = get(custom, "tweet").unwrap();

    assert_eq!(text(get(tweet, "symbol")), Some("bird"));
    assert_eq!(boolean(get(tweet, "disabled")), Some(true));
    assert_eq!(text(get(tweet, "format")), Some("local"));
}

#[test]
fn config_from_sources_sorts_conf_d_files() {
    let disk = [
        ("/user-starship/starship.toml", "[custom.order]\nvalue = 'main'\n"),
        ("/user-starship/conf.d/10-last.toml", "[custom.order]\nvalue = 'last'\n"),
        ("/user-starship/conf.d/00-first.toml", "[custom.order]\nvalue = 'first'\n"),
    ];
    let sources = user_sources(Vec::new());

    let config = load(&sources, &["10-last.toml", "00-first.toml"], &[], &disk);

    let custom = config.config.as_ref().unwrap().get("custom").unwrap();
    let order = get(custom, "order").unwrap();
    assert_eq!(text(get(order, "value")), Some("last"));
}

#[test]
fn files_that_cannot_be_used_do_not_count() {
    let none = StarshipConfig::initialize_from_sources(&vec![None, Some("a = ".to_string())]);
    assert!(none.config.is_none());
    let some = StarshipConfig::initialize_from_sources(&vec![
        Some("a = 1".to_string()),
        None,
        Some("a = ".to_string()),
        Some("b = 2".to_string()),
    ]);
    assert!(TomlValue::Table(some.config.unwrap()).same_as(&table("a = 1\nb = 2")));
    let empty = StarshipConfig::initialize_from_sources(&vec![Some(String::new())]);
    assert_eq!(empty.config.unwrap().len(), 0);
}

#[test]
fn values_that_are_no_tables_replace_what_was_there() {
    assert!(config_from_values(vec![]).is_none());
    let replaced = config_from_values(vec![table("a = 1"), TomlValue::Integer(1)]).unwrap();
    assert_eq!(replaced.len(), 0);
    let again =
        config_from_values(vec![table("a = 1"), TomlValue::Integer(1), table("b = 2")]).unwrap();
    assert!(TomlValue::Table(again).same_as(&table("b = 2")));
}

#[test]
fn a_config_is_initialized_from_one_file() {
    assert!(StarshipConfig::initialize(None).config.is_none());
    assert!(StarshipConfig::initialize(Some("a = ")).config.is_none());
    let config = StarshipConfig::initialize(Some("[a]\nb = 1")).config.unwrap();
    assert!(TomlValue::Table(config).same_as(&table("a = { b = 1 }")));
    assert!(StarshipConfig::default().config.is_none());
}

#[test]
fn a_path_leads_through_tables() {
    let config = StarshipConfig::initialize(Some(
        "x = 1\nname = 2\n[a.b]\nc = 'deep'\n[custom.tweet]\nsymbol = 'bird'\n[env_var]\nUSER = {}",
    ));
    assert_eq!(text(config.get_config(&["a", "b", "c"])), Some("deep"));
    assert!(matches!(config.get_config(&["a", "b"]), Some(TomlValue::Table(_))));
    assert!(config.get_config(&["a", "c"]).is_none());
    // A key that is not a table, or that is missing, leads nowhere.
    assert!(config.get_config(&["x", "b"]).is_none());
    assert!(config.get_config(&["missing", "name"]).is_none());

    assert!(matches!(config.get_module_config("x"), Some(TomlValue::Integer(1))));
    assert!(config.get_module_config("y").is_none());
    let tweet = config.get_custom_module_config("tweet").unwrap();
    assert_eq!(text(get(tweet, "symbol")), Some("bird"));
    assert!(config.get_custom_module_config("name").is_none());
    assert_eq!(config.get_custom_modules().unwrap().key_at(0), "tweet");
    assert_eq!(config.get_env_var_modules().unwrap().key_at(0), "USER");
}

#[test]
fn without_a_config_nothing_is_found() {
    let config = StarshipConfig::default();
    assert!(config.get_config(&[]).is_none());
    assert!(config.get_module_config("x").is_none());
    assert!(config.get_custom_modules().is_none());
    let config = StarshipConfig::initialize(Some("custom = 1"));
    assert!(config.get_custom_modules().is_none());
    assert!(config.get_env_var_modules().is_none());
    assert!(config.get_custom_module_config("x").is_none());
}

fn to_toml(value: &TomlValue) -> toml::Value {
    match value {
        TomlValue::String(s) => toml::Value::String(s.clone()),
        TomlValue::Integer(n) => toml::Value::Integer(*n),
        TomlValue::Float(bits) => toml::Value::Float(f64::from_bits(*bits)),
        TomlValue::Boolean(b) => toml::Value::Boolean(*b),
        TomlValue::Datetime(s) => toml::Value::Datetime(s.parse().unwrap()),
        TomlValue::Array(items) => toml::Value::Array(items.iter().map(to_toml).collect()),
        TomlValue::Table(table) => {
            let mut rows = toml::Table::new();
            for i in 0..table.len() {
                rows.insert(table.key_at(i).to_string(), to_toml(table.value_at(i)));
            }
            toml::Value::Table(rows)
        }
    }
}

#[derive(Debug, Default, PartialEq)]
struct Read<T>(T);

impl<'a, T: DeserializeOwned + Default> ModuleConfig<'a> for Read<T> {
    fn deserialize(config: &'a TomlValue, _: bool) -> Result<Self, String> {
        to_toml(config).try_into::<T>().map(Read).map_err(|error| error.to_string())
    }
}

/// The table, unless it has a key that is not among `known`.
fn known_keys<'a>(
    config: &'a TomlValue,
    known: &[&str],
    allow_unknown_keys: bool,
) -> Result<&'a Table, String> {
    let TomlValue::Table(table) = config else {
        return Err("expected a table".to_string());
    };
    for i in 0..table.len() {
        if !allow_unknown_keys && !known.contains(&table.key_at(i)) {
            return Err(format!("Error in table: Unknown key {}", table.key_at(i)));
        }
    }
    Ok(table)
}

#[test]
fn test_load_config() {
    #[derive(Default)]
    struct TestConfig<'a> {
        pub symbol: &'a str,
        pub disabled: bool,
        pub some_array: Vec<&'a str>,
    }

    impl<'a> ModuleConfig<'a> for TestConfig<'a> {
        fn deserialize(config: &'a TomlValue, allow: bool) -> Result<Self, String> {
            let table = known_keys(config, &["symbol", "disabled", "some_array"], allow)?;
            Ok(TestConfig {
                symbol: text(table.get("symbol")).ok_or("symbol")?,
                disabled: boolean(table.get("disabled")).ok_or("disabled")?,
                some_array: match table.get("some_array") {
                    Some(TomlValue::Array(items)) => {
                        items.iter().filter_map(|item| text(Some(item))).collect()
                    }
                    _ => return Err("some_array".to_string()),
                },
            })
        }
    }

    let config = table("symbol = \"T \"\ndisabled = true\nsome_array = [\"A\"]");
    let rust_config = TestConfig::from_config(&config).unwrap();

    assert_eq!(rust_config.symbol, "T ");
    assert!(rust_config.disabled);
    assert_eq!(rust_config.some_array, vec!["A"]);
}

#[test]
fn test_load_nested_config() {
    #[derive(Default)]
    struct TestConfig<'a> {
        pub untracked: SegmentDisplayConfig<'a>,
        pub modified: SegmentDisplayConfig<'a>,
    }

    #[derive(PartialEq, Debug, Default)]
    struct SegmentDisplayConfig<'a> {
        pub value: &'a str,
        pub style: Style,
    }

    impl<'a> ModuleConfig<'a> for SegmentDisplayConfig<'a> {
        fn deserialize(config: &'a TomlValue, allow: bool) -> Result<Self, String> {
            let table = known_keys(config, &["value", "style"], allow)?;
            Ok(SegmentDisplayConfig {
                value: text(table.get("value")).unwrap_or_default(),
                style: match text(table.get("style")) {
                    Some(style) => deserialize_style(style)?,
                    None => Style::default(),
                },
            })
        }
    }

    impl<'a> ModuleConfig<'a> for TestConfig<'a> {
        fn deserialize(config: &'a TomlValue, allow: bool) -> Result<Self, String> {
            let table = known_keys(config, &["untracked", "modified"], allow)?;
            Ok(TestConfig {
                untracked: SegmentDisplayConfig::try_load(table.get("untracked")),
                modified: SegmentDisplayConfig::try_load(table.get("modified")),
            })
        }
    }

    let config = table("untracked.value = \"x\"\nmodified = { value = \"∙\", style = \"red\" }");

    let git_status_config = TestConfig::from_config(&config).unwrap();

    assert_eq!(
        git_status_config.untracked,
        SegmentDisplayConfig {
            value: "x",
            style: Style::default(),
        }
    );
    assert_eq!(
        git_status_config.modified,
        SegmentDisplayConfig {
            value: "∙",
            style: AnsiStyle::new().fg(Color::Red).into(),
        }
    );
}

#[test]
fn test_load_optional_config() {
    #[derive(Default)]
    struct TestConfig<'a> {
        pub optional: Option<&'a str>,
        pub hidden: Option<&'a str>,
    }

    impl<'a> ModuleConfig<'a> for TestConfig<'a> {
        fn deserialize(config: &'a TomlValue, allow: bool) -> Result<Self, String> {
            let table = known_keys(config, &["optional", "hidden"], allow)?;
            Ok(TestConfig {
                optional: text(table.get("optional")),
                hidden: text(table.get("hidden")),
            })
        }
    }

    let config = table("optional = \"test\"");
    let rust_config = TestConfig::from_config(&config).unwrap();

    assert_eq!(rust_config.optional, Some("test"));
    assert_eq!(rust_config.hidden, None);
}

#[test]
fn test_load_enum_config() {
    #[derive(Default)]
    struct TestConfig {
        pub switch_a: Switch,
        pub switch_b: Switch,
        pub switch_c: Switch,
    }

    #[derive(Debug, PartialEq, Clone)]
    enum Switch {
        On,
        Off,
    }

    impl Default for Switch {
        fn default() -> Self {
            Self::Off
        }
    }

    impl<'a> ModuleConfig<'a> for Switch {
        fn deserialize(config: &'a TomlValue, _: bool) -> Result<Self, String> {
            match text(Some(config)).ok_or("expected a string")?.to_ascii_lowercase().as_str() {
                "on" => Ok(Self::On),
                _ => Ok(Self::Off),
            }
        }
    }

    impl<'a> ModuleConfig<'a> for TestConfig {
        fn deserialize(config: &'a TomlValue, allow: bool) -> Result<Self, String> {
            let table = known_keys(config, &["switch_a", "switch_b", "switch_c"], allow)?;
            Ok(TestConfig {
                switch_a: Switch::try_load(table.get("switch_a")),
                switch_b: Switch::try_load(table.get("switch_b")),
                switch_c: Switch::try_load(table.get("switch_c")),
            })
        }
    }

    let config = table("switch_a = \"on\"\nswitch_b = \"any\"");
    let rust_config = TestConfig::from_config(&config).unwrap();

    assert_eq!(rust_config.switch_a, Switch::On);
    assert_eq!(rust_config.switch_b, Switch::Off);
    assert_eq!(rust_config.switch_c, Switch::Off);
}

#[test]
fn test_load_unknown_key_config() {
    #[derive(Default)]
    struct TestConfig<'a> {
        pub foo: &'a str,
    }

    impl<'a> ModuleConfig<'a> for TestConfig<'a> {
        fn deserialize(config: &'a TomlValue, allow: bool) -> Result<Self, String> {
            let table = known_keys(config, &["foo"], allow)?;
            Ok(TestConfig {
                foo: text(table.get("foo")).unwrap_or_default(),
            })
        }
    }

    let config = table("foo = \"test\"\nbar = \"ignore me\"");
    assert!(TestConfig::deserialize(&config, false).is_err());
    let rust_config = TestConfig::from_config(&config);

    assert!(rust_config.is_ok());
    assert_eq!(rust_config.unwrap().foo, "test");
}

#[test]
fn test_from_string() {
    let config = TomlValue::String(String::from("S"));
    assert_eq!(Read::<String>::from_config(&config).unwrap().0, "S");
}

#[test]
fn test_from_bool() {
    let config = TomlValue::Boolean(true);
    assert!(Read::<bool>::from_config(&config).unwrap().0);
}

#[test]
fn test_from_i64() {
    let config = TomlValue::Integer(42);
    assert_eq!(Read::<i64>::from_config(&config).unwrap().0, 42);
}

#[test]
fn test_from_vec() {
    let config = TomlValue::Array(vec![TomlValue::String("S".to_string())]);
    assert_eq!(Read::<Vec<String>>::from_config(&config).unwrap().0, vec!["S"]);
}

#[test]
fn test_from_option() {
    let config = TomlValue::String(String::from("S"));
    assert_eq!(
        Read::<Option<String>>::from_config(&config).unwrap().0,
        Some("S".to_string())
    );
}

#[test]
fn a_config_that_is_refused_is_the_default() {
    let config = TomlValue::String(String::from("S"));
    assert!(Read::<i64>::from_config(&config).is_err());
    assert_eq!(Read::<i64>::load(&config), Read(0));
    assert_eq!(Read::<i64>::try_load(None), Read(0));
    assert_eq!(Read::<i64>::try_load(Some(&TomlValue::Integer(7))), Read(7));
}

#[test]
fn only_unknown_keys_are_read_again() {
    assert!(!needs_second_reading(&Ok::<bool, String>(true)));
    assert!(!needs_second_reading(&Err::<bool, String>("unknown key".to_string())));
    assert!(needs_second_reading(&Err::<bool, String>("x: Unknown key y".to_string())));
}

/// Guard against schemars `$defs` collisions by requiring distinct IDs for nested `VecOr` types.
#[test]
fn vec_or_schema_ids_distinguish_nesting() {
    let inner_id = VecOr::<&str>::schema_id("str");
    let inner_name = VecOr::<&str>::schema_name("string");
    assert_ne!(VecOr::<VecOr<&str>>::schema_id(&inner_id), inner_id);
    assert_ne!(VecOr::<VecOr<&str>>::schema_name(&inner_name), inner_name);
    assert_eq!(inner_id, "starship::config::VecOr<str>");
    assert_eq!(inner_name, "VecOr_string");
}

#[test]
fn a_single_value_is_a_list() {
    assert_eq!(VecOr::deserialize(Either::First(vec![1, 2])), VecOr(vec![1, 2]));
    assert_eq!(VecOr::deserialize(Either::Second(3)), VecOr(vec![3]));
    assert_eq!(VecOr::<u8>::default(), VecOr(vec![]));
    assert_eq!(VecOr(vec![1]).clone(), VecOr(vec![1]));
    let either: Either<u8, bool> = Either::Second(true);
    assert_eq!(either.clone(), either);
}

#[test]
fn documents_are_read_into_values() {
    let value = read_value("a = 'x'\nb = 1\nc = 1.5\nd = true\ne = 1979-05-27\nf = [1, {g = 2}]").unwrap();
    assert_eq!(text(get(&value, "a")), Some("x"));
    assert!(matches!(get(&value, "b"), Some(TomlValue::Integer(1))));
    assert!(matches!(get(&value, "c"), Some(TomlValue::Float(bits)) if f64::from_bits(*bits) == 1.5));
    assert!(matches!(get(&value, "d"), Some(TomlValue::Boolean(true))));
    assert!(matches!(get(&value, "e"), Some(TomlValue::Datetime(s)) if s == "1979-05-27"));
    let Some(TomlValue::Array(items)) = get(&value, "f") else {
        panic!("not an array");
    };
    assert!(matches!(items[0], TomlValue::Integer(1)));
    assert!(matches!(get(&items[1], "g"), Some(TomlValue::Integer(2))));
    assert!(read_table("a = 1\na = 2").is_err());
    assert!(read_value("a = 1\na = 2").is_err());
    // The keys keep their order.
    let rows = read_table("z = 1\na = 2").unwrap();
    assert_eq!((rows.key_at(0), rows.key_at(1)), ("z", "a"));
}

#[test]
fn a_clone_is_the_same_value() {
    let value = table("a = [1, 'x', {b = true}]\n[c]\nd = 1979-05-27\ne = 0.5");
    assert!(value.clone().same_as(&value));
}
