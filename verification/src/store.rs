//! Where the settings and the files of running servers are kept.

use vstd::prelude::*;

use crate::failure::Failure;
use crate::paths::{join_path_on, paths_are_seen_from_a_base, seen_on};
use crate::platform::Platform;

verus! {

/// The place of the settings file and of the files of running servers.
#[derive(Debug)]
pub struct ConfigStore {
    config_path: String,
    runtime_dir: String,
    platform: Platform,
}

/// The directory of the settings.
pub open spec fn config_dir(config_home: Seq<char>, platform: Platform) -> Seq<char> {
    seen_on(config_home, "remiaft"@, platform)
}

/// The directory of the program's data.
pub open spec fn data_dir(
    config_home: Seq<char>,
    data_home: Option<Seq<char>>,
    platform: Platform,
) -> Seq<char> {
    seen_on(
        match data_home {
            Some(home) => home,
            None => config_dir(config_home, platform),
        },
        "remiaft"@,
        platform,
    )
}

impl ConfigStore {
    /// The path of the settings file.
    pub closed spec fn settings(self) -> Seq<char> {
        self.config_path@
    }

    /// The directory of the files of running servers.
    pub closed spec fn runtime(self) -> Seq<char> {
        self.runtime_dir@
    }

    /// The system whose paths the store has.
    pub closed spec fn system(self) -> Platform {
        self.platform
    }

    /// The store below the user's directories for settings and for data.
    /// Without one for settings there is no store; without one for data that
    /// for settings is used.
    pub fn new(config_home: Option<String>, data_home: Option<String>, platform: Platform) -> (r:
        Result<Self, Failure>)
        ensures
            match (r, config_home) {
                (Ok(store), Some(home)) => {
                    &&& store.settings() == seen_on(
                        config_dir(home@, platform),
                        "config.toml"@,
                        platform,
                    )
                    &&& store.runtime() == seen_on(
                        data_dir(home@, crate::text::opt_text(data_home), platform),
                        "runtime"@,
                        platform,
                    )
                    &&& store.system() == platform
                },
                (Err(e), None) => e@ == "cannot resolve user config directory"@,
                _ => false,
            },
    {
        let home = match config_home {
            Some(home) => home,
            None => return Err(
                Failure { message: "cannot resolve user config directory".to_owned() },
            ),
        };
        let settings = join_path_on(home.as_str(), "remiaft", platform);
        let data = match &data_home {
            Some(dir) => join_path_on(dir.as_str(), "remiaft", platform),
            None => join_path_on(settings.as_str(), "remiaft", platform),
        };
        Ok(
            ConfigStore {
                config_path: join_path_on(settings.as_str(), "config.toml", platform),
                runtime_dir: join_path_on(data.as_str(), "runtime", platform),
                platform,
            },
        )
    }

    pub fn platform(&self) -> (r: Platform)
        ensures
            r == self.system(),
    {
        self.platform
    }

    pub fn config_path(&self) -> (r: &str)
        ensures
            r@ == self.settings(),
    {
        self.config_path.as_str()
    }

    pub fn runtime_dir(&self) -> (r: &str)
        ensures
            r@ == self.runtime(),
    {
        self.runtime_dir.as_str()
    }
}

/// The program's directories are named after it: below the user's directory for
/// settings, and below the one for data, or below the settings where there is
/// none.
pub proof fn directories_are_named_after_the_program(config_home: Seq<char>, data_home: Seq<char>)
    requires
        config_home.len() > 0,
        config_home.last() != '/',
        data_home.len() > 0,
        data_home.last() != '/',
    ensures
        config_dir(config_home, Platform::Unix) == config_home + "/remiaft"@,
        data_dir(config_home, Some(data_home), Platform::Unix) == data_home + "/remiaft"@,
        data_dir(config_home, None, Platform::Unix) == config_home + "/remiaft/remiaft"@,
{
    let name = "remiaft"@;
    reveal_strlit("remiaft");
    reveal_strlit("/remiaft");
    reveal_strlit("/remiaft/remiaft");
    paths_are_seen_from_a_base(config_home, name);
    paths_are_seen_from_a_base(data_home, name);
    let dir = config_home + seq!['/'] + name;
    paths_are_seen_from_a_base(dir, name);
    assert(seq!['/'] + name =~= "/remiaft"@);
    assert(config_home + (seq!['/'] + name) =~= config_home + seq!['/'] + name);
    assert(data_home + (seq!['/'] + name) =~= data_home + seq!['/'] + name);
    assert(dir + seq!['/'] + name =~= config_home + "/remiaft/remiaft"@);
}

} // verus!
