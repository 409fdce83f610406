//! Settings bootstrap and defaulting.
//!
//! The durable store is an outside collaborator; it hands over the two
//! recognised entries as plain optional strings, and this module turns
//! them into the settings of one invocation, applying the default
//! target where none was ever stored.

use vstd::prelude::*;

verus! {

/// The settings of one invocation, loaded once at startup. The target
/// file is always present after bootstrap; the api key may be absent,
/// in which case logging is disabled.
pub struct Settings {
    pub api_key: Option<String>,
    pub target_file: String,
}

/// The target path in force when none was ever stored.
pub open spec fn default_target() -> Seq<char> {
    "/periodic/daily/"@
}

/// What the stored api-key entry bootstraps to: exactly what was
/// found, absent when absent.
pub open spec fn bootstrap_key_spec(stored: Option<Seq<char>>) -> Option<Seq<char>> {
    stored
}

/// What the stored target entry bootstraps to: itself when present,
/// the daily periodic path when absent.
pub open spec fn bootstrap_target_spec(stored: Option<Seq<char>>) -> Seq<char> {
    match stored {
        Some(t) => t,
        None => default_target(),
    }
}

/// The two recognised entries as the store yielded them, each possibly
/// absent.
pub struct StoredSettings {
    pub api_key: Option<String>,
    pub target_file: Option<String>,
}

/// Builds the in-memory settings from what the store yielded (`None`
/// when the store was absent or unreadable). The api key is taken as
/// found; the target file receives its default when absent, so it is
/// present in every bootstrapped settings value.
pub fn bootstrap(loaded: Option<StoredSettings>) -> (s: Settings)
    ensures
        loaded matches Some(st) ==> s.api_key.deep_view() == bootstrap_key_spec(
            st.api_key.deep_view(),
        ) && s.target_file@ == bootstrap_target_spec(st.target_file.deep_view()),
        loaded is None ==> s.api_key is None && s.target_file@ == default_target(),
{
    match loaded {
        Some(st) => {
            let target_file = match st.target_file {
                Some(t) => t,
                None => String::from_str("/periodic/daily/"),
            };
            Settings { api_key: st.api_key, target_file }
        },
        None => Settings {
            api_key: None,
            target_file: String::from_str("/periodic/daily/"),
        },
    }
}

/// A saved change survives into the next invocation: a store holding
/// exactly the entries of the in-memory settings bootstraps back to
/// the same api key and the same target file.
pub proof fn lemma_saved_settings_reload(api_key: Option<Seq<char>>, target_file: Seq<char>)
    ensures
        bootstrap_key_spec(api_key) == api_key,
        bootstrap_target_spec(Some(target_file)) == target_file,
{
}

} // verus!
