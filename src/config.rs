use crate::paths::join;
use vstd::prelude::*;

verus! {

/// The user's settings, kept as the JSON text of the settings file.
pub struct Settings {
    pub json: String,
}

/// The configuration directory and the settings loaded from it.
pub struct ConfigManager {
    config_dir: String,
    settings: Settings,
}

impl ConfigManager {
    pub closed spec fn dir_spec(&self) -> Seq<char> {
        self.config_dir@
    }

    pub closed spec fn settings_spec(&self) -> Settings {
        self.settings
    }

    pub fn new(config_dir: String, settings: Settings) -> (r: ConfigManager)
        ensures
            r.dir_spec() == config_dir@,
            r.settings_spec() == settings,
    {
        ConfigManager { config_dir, settings }
    }

    /// The configuration directory `<home>/.blink`, where the home directory
    /// is `HOME`, else `USERPROFILE`; none when neither is set.
    pub fn config_directory(home: Option<String>, user_profile: Option<String>) -> (r: Option<String>)
        ensures
            home is Some ==> r is Some && r->Some_0@ == join(home->Some_0@, ".blink"@),
            home is None && user_profile is Some ==> r is Some && r->Some_0@ == join(
                user_profile->Some_0@,
                ".blink"@,
            ),
            home is None && user_profile is None ==> r is None,
    {
        let base = match home {
            Some(h) => h,
            None => match user_profile {
                Some(p) => p,
                None => return None,
            },
        };
        Some(crate::paths::join_path(base.as_str(), ".blink"))
    }

    /// Where sessions are kept: `<config_dir>/sessions`.
    pub fn sessions_dir(&self) -> (r: String)
        ensures
            r@ == join(self.dir_spec(), "sessions"@),
    {
        crate::paths::join_path(self.config_dir.as_str(), "sessions")
    }

    pub fn settings(&self) -> (r: &Settings)
        ensures
            *r == self.settings_spec(),
    {
        &self.settings
    }

    pub fn settings_mut(&mut self) -> (r: &mut Settings)
        ensures
            *r == old(self).settings_spec(),
            final(self).settings_spec() == *final(r),
            final(self).dir_spec() == old(self).dir_spec(),
    {
        &mut self.settings
    }

    pub fn config_dir(&self) -> (r: &String)
        ensures
            r@ == self.dir_spec(),
    {
        &self.config_dir
    }
}

} // verus!
