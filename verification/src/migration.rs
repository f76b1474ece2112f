//! Moving the configuration from where it used to be kept.
use vstd::prelude::*;

use crate::path::{FilePath, FilePathView};
use crate::sources::{ConfigSources, SourcesView};
use crate::toml_text;
use crate::value;
use crate::value::{TomlValue, TomlView};
use crate::value_laws;

verus! {

/// What is done about a configuration file in the legacy location.
#[derive(Debug)]
pub enum LegacyStep {
    /// Nothing.
    Leave,
    /// The legacy file is ignored, as the new location could not be determined.
    NoTarget(FilePath),
    /// The legacy file is ignored, as another file is in use.
    InUse { legacy: FilePath, current: FilePath },
    /// The legacy file is copied to the new location, and the copy is checked.
    Copy { legacy: FilePath, target: FilePath },
}

/// What a [`LegacyStep`] holds.
pub enum LegacyStepView {
    Leave,
    NoTarget(FilePathView),
    InUse { legacy: FilePathView, current: FilePathView },
    Copy { legacy: FilePathView, target: FilePathView },
}

impl View for LegacyStep {
    type V = LegacyStepView;

    open spec fn view(&self) -> LegacyStepView {
        match self {
            LegacyStep::Leave => LegacyStepView::Leave,
            LegacyStep::NoTarget(legacy) => LegacyStepView::NoTarget(legacy@),
            LegacyStep::InUse { legacy, current } => LegacyStepView::InUse {
                legacy: legacy@,
                current: current@,
            },
            LegacyStep::Copy { legacy, target } => LegacyStepView::Copy {
                legacy: legacy@,
                target: target@,
            },
        }
    }
}

/// What is done about the legacy file of `sources`, given which files exist.
pub open spec fn legacy_step(
    sources: SourcesView,
    legacy_exists: bool,
    user_exists: bool,
) -> LegacyStepView {
    match (sources.explicit_config, sources.legacy_config_file, sources.user_config_file) {
        (None, Some(legacy), Some(current)) if legacy_exists && user_exists => {
            LegacyStepView::InUse { legacy, current }
        },
        (None, Some(legacy), Some(target)) if legacy_exists => LegacyStepView::Copy {
            legacy,
            target,
        },
        (None, Some(legacy), None) if legacy_exists => LegacyStepView::NoTarget(legacy),
        _ => LegacyStepView::Leave,
    }
}

/// Copy the legacy config to the new location when migration is safe.
///
/// This only applies when `STARSHIP_CONFIG` is not set. The legacy file, for
/// example `~/.config/starship.toml`, is never removed and is not used after a
/// failed migration.
///
/// `legacy_exists` and `user_exists` say whether the legacy file and the main user config file
/// exist.
pub fn handle_legacy_config(
    config_sources: &ConfigSources,
    legacy_exists: bool,
    user_exists: bool,
) -> (r: LegacyStep)
    ensures
        r@ == legacy_step(config_sources@, legacy_exists, user_exists),
{
    if config_sources.explicit_config.is_some() || !legacy_exists {
        return LegacyStep::Leave;
    }
    match (&config_sources.legacy_config_file, &config_sources.user_config_file) {
        (None, _) => LegacyStep::Leave,
        (Some(legacy), None) => LegacyStep::NoTarget(legacy.clone()),
        (Some(legacy), Some(file)) => if user_exists {
            LegacyStep::InUse { legacy: legacy.clone(), current: file.clone() }
        } else {
            LegacyStep::Copy { legacy: legacy.clone(), target: file.clone() }
        },
    }
}

/// What checking a copy against the legacy file gives, where each was read as said: the first
/// reading error, if there is one, or else whether the values compare as equal.
pub open spec fn validated(
    legacy: Result<TomlView, Seq<char>>,
    copied: Result<TomlView, Seq<char>>,
) -> Result<(), Seq<char>> {
    match (legacy, copied) {
        (Err(error), _) => Err(error),
        (Ok(_), Err(error)) => Err(error),
        (Ok(a), Ok(b)) => if value::same_value(a, b) {
            Ok(())
        } else {
            Err("copied config does not match legacy config"@)
        },
    }
}

/// What reading a document gave.
pub open spec fn reading(read: Result<TomlValue, String>) -> Result<TomlView, Seq<char>> {
    match read {
        Ok(item) => Ok(item@),
        Err(error) => Err(error@),
    }
}

/// What an outcome without a value holds.
pub open spec fn outcome(r: Result<(), String>) -> Result<(), Seq<char>> {
    match r {
        Ok(()) => Ok(()),
        Err(error) => Err(error@),
    }
}

/// Checks what was read from the copy against what was read from the legacy file.
pub fn compare_legacy_config(
    legacy: Result<TomlValue, String>,
    copied: Result<TomlValue, String>,
) -> (r: Result<(), String>)
    ensures
        outcome(r) == validated(reading(legacy), reading(copied)),
{
    match (legacy, copied) {
        (Err(error), _) => Err(error),
        (Ok(_), Err(error)) => Err(error),
        (Ok(a), Ok(b)) => if a.same_as(&b) {
            Ok(())
        } else {
            Err("copied config does not match legacy config".to_owned())
        },
    }
}

/// Verify that the copied TOML parses to the same value as the legacy config.
///
/// Validation keeps migration non-destructive: if the copied file does not parse to the same TOML
/// value, callers can warn and leave the legacy file untouched.
pub fn validate_legacy_config(legacy: &str, copied: &str) -> (r: Result<(), String>)
    ensures
        outcome(r) == validated(toml_text::toml_value(legacy@), toml_text::toml_value(copied@)),
{
    compare_legacy_config(toml_text::read_value(legacy), toml_text::read_value(copied))
}

/// A copy that reads as the legacy file does is accepted exactly if the file is valid TOML and
/// holds no float that is not a number.
pub proof fn law_faithful_copy(read: Result<TomlView, Seq<char>>)
    requires
        read matches Ok(item) ==> value::well_formed(item),
    ensures
        validated(read, read) is Ok <==> (read matches Ok(item) && !value_laws::holds_nan(item)),
{
    if let Ok(item) = read {
        value_laws::law_same_value_reflexive(item);
    }
}

/// The legacy file is copied only where no file is in use, and then to the main user config file.
/// `STARSHIP_CONFIG` rules any copying out.
pub proof fn law_copy_is_safe(sources: SourcesView, legacy_exists: bool, user_exists: bool)
    ensures
        legacy_step(sources, legacy_exists, user_exists) is Copy <==> {
            &&& legacy_exists
            &&& !user_exists
            &&& sources.explicit_config is None
            &&& sources.legacy_config_file is Some
            &&& sources.user_config_file is Some
        },
        legacy_step(sources, legacy_exists, user_exists) matches LegacyStepView::Copy {
            legacy,
            target,
        } ==> {
            &&& sources.legacy_config_file == Some(legacy)
            &&& sources.user_config_file == Some(target)
        },
{
}

/// The legacy file is ignored, and named together with what is used, where the main user config
/// file exists, and ignored by itself where that could not be determined. In all other cases but a
/// copy nothing is done.
pub proof fn law_legacy_file_is_ignored(
    sources: SourcesView,
    legacy_exists: bool,
    user_exists: bool,
    legacy: FilePathView,
    file: FilePathView,
)
    requires
        sources.explicit_config is None,
        sources.legacy_config_file == Some(legacy),
        legacy_exists,
    ensures
        sources.user_config_file is None ==> legacy_step(sources, legacy_exists, user_exists)
            == LegacyStepView::NoTarget(legacy),
        sources.user_config_file == Some(file) && user_exists ==> legacy_step(
            sources,
            legacy_exists,
            user_exists,
        ) == (LegacyStepView::InUse { legacy, current: file }),
        sources.user_config_file == Some(file) && !user_exists ==> legacy_step(
            sources,
            legacy_exists,
            user_exists,
        ) == (LegacyStepView::Copy { legacy, target: file }),
{
}

/// Nothing is done where `STARSHIP_CONFIG` is set or there is no legacy file.
pub proof fn law_nothing_to_migrate(sources: SourcesView, legacy_exists: bool, user_exists: bool)
    requires
        sources.explicit_config is Some || sources.legacy_config_file is None || !legacy_exists,
    ensures
        legacy_step(sources, legacy_exists, user_exists) == LegacyStepView::Leave,
{
}

/// A copy is accepted exactly if both files are valid TOML and their values compare as equal. An
/// error of the legacy file is reported before one of the copy.
pub proof fn law_accepted_copy(
    legacy: Result<TomlView, Seq<char>>,
    copied: Result<TomlView, Seq<char>>,
)
    ensures
        validated(legacy, copied) is Ok <==> {
            &&& legacy is Ok
            &&& copied is Ok
            &&& value::same_value(legacy->Ok_0, copied->Ok_0)
        },
        legacy matches Err(error) ==> validated(legacy, copied) == Err::<(), Seq<char>>(error),
        legacy is Ok && copied is Err ==> validated(legacy, copied) == Err::<(), Seq<char>>(
            copied->Err_0,
        ),
{
}

} // verus!
