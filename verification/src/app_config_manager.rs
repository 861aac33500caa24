//! The store side of the configuration: where the file lives, what a
//! load-or-create step does with the file's content, and what a save writes.
//!
//! The filesystem itself stays outside this crate; these functions work on
//! the file's content as a value. A caller reads the file (if it exists),
//! hands the content in, and writes back whatever text comes out.

use crate::app_config::{spec_path_join, path_join, AppConfig};
use crate::json::{config_json_chars, spec_parse_config, lemma_save_load_round_trip};
use vstd::prelude::*;

verus! {

/// The one failure this component can itself detect: the existing file does
/// not hold a well-formed configuration document.
#[derive(Debug, PartialEq, Eq, Structural)]
pub enum ConfigError {
    Format,
}

impl ConfigError {
    /// The diagnostic for this failure.
    pub fn message(&self) -> (m: &'static str)
        ensures
            m@ == "Failed to deserialize config"@,
    {
        "Failed to deserialize config"
    }
}

/// A loaded configuration together with the location it came from and will
/// be saved to.
pub struct AppConfigManager {
    pub config: AppConfig,
    pub config_path: String,
}

impl AppConfigManager {
    /// The load-or-create step on a given location. `stored` is the file's
    /// current content, `None` when the file does not exist. When the file
    /// is absent, the default configuration (both fields empty) is returned
    /// together with the text that must be written to create the file; when
    /// the file exists, its content is parsed and nothing is to be written.
    pub fn new_with_conig_path(config_path: String, stored: Option<&str>) -> (r: Result<
        (AppConfigManager, Option<String>),
        ConfigError,
    >)
        ensures
            stored is None ==> (r matches Ok(mw) && mw.0.config.GITHUB_TOKEN@ == Seq::<
                char,
            >::empty() && mw.0.config.REPO_PATH@ == Seq::<char>::empty() && mw.0.config_path@
                == config_path@ && (mw.1 matches Some(j) && j@ == config_json_chars(
                Seq::<char>::empty(),
                Seq::<char>::empty(),
            ))),
            stored matches Some(s) ==> match spec_parse_config(s@) {
                Some(tp) => r matches Ok(mw) && mw.0.config.GITHUB_TOKEN@ == tp.0
                    && mw.0.config.REPO_PATH@ == tp.1 && mw.0.config_path@ == config_path@
                    && mw.1 is None,
                None => r == Err::<(AppConfigManager, Option<String>), ConfigError>(
                    ConfigError::Format,
                ),
            },
    {
        match stored {
            None => {
                let config = AppConfig::default();
                let json = config.to_json();
                Ok((AppConfigManager { config, config_path }, Some(json)))
            },
            Some(s) => match AppConfig::from_json(s) {
                Some(config) => Ok((AppConfigManager { config, config_path }, None)),
                None => Err(ConfigError::Format),
            },
        }
    }

    /// The text that a save writes over the file: the document for the
    /// current field values.
    pub fn save_config(&self) -> (r: String)
        ensures
            r@ == config_json_chars(self.config.GITHUB_TOKEN@, self.config.REPO_PATH@),
    {
        self.config.to_json()
    }

    /// Resolves the configuration file location: `config.json` under the
    /// per-user configuration directory for this application. `None` when
    /// the host gives no such directory or its path is not Unicode.
    pub fn get_config_path() -> (r: Option<String>)
        ensures
            r matches Some(p) ==> exists|d: Seq<char>|
                d.len() > 0 && p@ == spec_path_join(d, "config.json"@),
    {
        match project_config_dir() {
            Some(dir) => {
                let p = path_join(dir.as_str(), "config.json");
                proof {
                    assert(dir@.len() > 0 && p@ == spec_path_join(dir@, "config.json"@));
                }
                Some(p)
            },
            None => None,
        }
    }
}

/// Loading right after a fresh load-or-create step changes nothing: the
/// text written for the default configuration parses back to exactly the
/// default field values, so the second step returns an equal configuration
/// and asks for no further write.
pub proof fn lemma_load_or_create_idempotent()
    ensures
        spec_parse_config(config_json_chars(Seq::<char>::empty(), Seq::<char>::empty())) == Some(
            (Seq::<char>::empty(), Seq::<char>::empty()),
        ),
{
    lemma_save_load_round_trip(Seq::<char>::empty(), Seq::<char>::empty());
}

/// Relies on directories::ProjectDirs::from("", "", "awesome-rust") and
/// ProjectDirs::config_dir: the per-user configuration directory for this
/// application, which on every supported platform is a non-empty path that
/// ends in a component derived from the application name; `None` when no
/// home directory is known or the path is not Unicode.
#[verifier::external_body]
fn project_config_dir() -> (r: Option<String>)
    ensures
        r matches Some(d) ==> d@.len() > 0,
{
    match directories::ProjectDirs::from("", "", "awesome-rust") {
        Some(dirs) => dirs.config_dir().to_str().map(|s| s.to_string()),
        None => None,
    }
}

} // verus!
