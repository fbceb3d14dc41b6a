use vstd::prelude::*;
use vstd::string::StringExecFns;

use crate::errors::Error;
use crate::text::split_on;
use crate::text::split_str;
use crate::text::views_of;

verus! {

/// The process-wide configuration: the current profile's name and the
/// comma-delimited repository list.
pub struct ConfigFile {
    pub current_profile: String,
    pub repository_list: String,
}

/// The name of the current profile.
pub fn current_profile(config: &ConfigFile) -> (r: String)
    ensures
        r@ == config.current_profile@,
{
    config.current_profile.clone()
}

/// Points the configuration at `new_profile`; refused when no such profile
/// exists, in which case the configuration is left unchanged.
pub fn select_profile(config: &mut ConfigFile, new_profile: &String, exists: bool) -> (r: Result<
    (),
    Error,
>)
    ensures
        exists ==> r is Ok && final(config).current_profile@ == new_profile@
            && final(config).repository_list == old(config).repository_list,
        !exists ==> r == Err::<(), Error>(Error::ProfileNotFound) && *final(config) == *old(config),
{
    if exists {
        config.current_profile = new_profile.clone();
        Ok(())
    } else {
        Err(Error::ProfileNotFound)
    }
}

/// The repositories of the configuration, in their configured order: the
/// comma-delimited list split at every comma.
pub fn repositories(config: &ConfigFile) -> (r: Vec<String>)
    ensures
        views_of(r@) == split_on(config.repository_list@, ','),
{
    split_str(config.repository_list.as_str(), ',')
}

impl core::default::Default for ConfigFile {
    /// The configuration shipped before any has been written: the default
    /// profile name and the single default repository.
    fn default() -> (r: Self)
        ensures
            r.current_profile@ == "Fallout New Vegas"@,
            r.repository_list@ == "pipboy.aayla.dev"@,
    {
        ConfigFile {
            current_profile: String::from_str("Fallout New Vegas"),
            repository_list: String::from_str("pipboy.aayla.dev"),
        }
    }
}

} // verus!
