//! The settings of a run and what a settings file changes in them.

use vstd::prelude::*;
use vstd::string::StringExecFns;

verus! {

/// The name of the settings file. It is likely to hold the key, so a file
/// that lists exclusions always has it added to them.
pub open spec fn settings_file_name() -> Seq<char> {
    ".bunnysync"@
}

/// The settings of a run that a settings file can change.
#[derive(Clone, Debug, PartialEq, Eq)]
pub struct Settings {
    pub api_key: Option<String>,
    pub region: String,
    pub exclude: Vec<String>,
}

/// What a settings file holds. Each of its entries may be missing.
#[derive(Clone, Debug, PartialEq, Eq)]
pub struct Config {
    pub api_key: Option<String>,
    pub region: Option<String>,
    pub exclude: Option<Vec<String>>,
}

/// The strings of `list` as plain sequences.
pub open spec fn texts(list: Seq<String>) -> Seq<Seq<char>> {
    list.map_values(|s: String| s@)
}

/// Applies a settings file to the settings that the command line gave.
///
/// An entry of the file takes the place of the setting, and a missing one
/// leaves it. A list of exclusions in the file replaces the one given, and
/// the name of the settings file is added at its end.
pub fn apply_config(settings: &mut Settings, config: Config)
    ensures
        final(settings).api_key == if config.api_key.is_some() {
            config.api_key
        } else {
            old(settings).api_key
        },
        final(settings).region == if config.region.is_some() {
            config.region.unwrap()
        } else {
            old(settings).region
        },
        config.exclude.is_none() ==> final(settings).exclude == old(settings).exclude,
        config.exclude.is_some() ==> texts(final(settings).exclude@) == texts(
            config.exclude.unwrap()@,
        ).push(settings_file_name()),
{
    let Config { api_key, region, exclude } = config;
    if api_key.is_some() {
        settings.api_key = api_key;
    }
    if let Some(region) = region {
        settings.region = region;
    }
    if let Some(list) = exclude {
        let mut list = list;
        let ghost given = list@;
        list.push(String::from_str(".bunnysync"));
        proof {
            assert(texts(list@) =~= texts(given).push(settings_file_name()));
        }
        settings.exclude = list;
    }
}

} // verus!
