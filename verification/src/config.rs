use vstd::prelude::*;

use vstd::string::StrSliceExecFns;
use vstd::string::StringExecFns;

use crate::codec::{parse, parse_spec, render, render_spec};

verus! {

/// The connection settings that the application persists: the server it
/// talks to, and the key it authenticates with. Both fields may be
/// empty; an all-empty value is the unconfigured state.
#[derive(Clone, Debug)]
pub struct Config {
    pub server_url: String,
    pub api_key: String,
}

/// Failure to read or to understand the configuration file.
#[derive(Debug)]
pub enum LoadError {
    /// The file exists but could not be read; carries the cause.
    Read(String),
    /// The file's text is not a configuration; carries the cause.
    Parse(String),
}

/// Failure to persist the configuration, by the step that failed.
#[derive(Debug)]
pub enum SaveError {
    /// The parent directory could not be created; carries the cause.
    CreateDir(String),
    /// The configuration could not be rendered; carries the cause.
    Serialize(String),
    /// The file could not be written; carries the cause.
    Write(String),
}

/// Failure to locate the per-user configuration directory.
#[derive(Debug)]
pub struct PathError {}

pub open spec fn load_error_message_spec(e: LoadError) -> Seq<char> {
    match e {
        LoadError::Read(m) => "Failed to read config file: "@ + m@,
        LoadError::Parse(m) => "Failed to parse config file: "@ + m@,
    }
}

pub open spec fn save_error_message_spec(e: SaveError) -> Seq<char> {
    match e {
        SaveError::CreateDir(m) => "Failed to create config directory: "@ + m@,
        SaveError::Serialize(m) => "Failed to serialize config: "@ + m@,
        SaveError::Write(m) => "Failed to write config file: "@ + m@,
    }
}

impl LoadError {
    /// The human-readable description of the failure, cause included.
    pub fn message(&self) -> (r: String)
        ensures
            r@ == load_error_message_spec(*self),
    {
        match self {
            LoadError::Read(m) => {
                let mut s = String::from_str("Failed to read config file: ");
                s.append(m.as_str());
                s
            },
            LoadError::Parse(m) => {
                let mut s = String::from_str("Failed to parse config file: ");
                s.append(m.as_str());
                s
            },
        }
    }
}

impl SaveError {
    /// The human-readable description of the failure, cause included.
    pub fn message(&self) -> (r: String)
        ensures
            r@ == save_error_message_spec(*self),
    {
        match self {
            SaveError::CreateDir(m) => {
                let mut s = String::from_str("Failed to create config directory: ");
                s.append(m.as_str());
                s
            },
            SaveError::Serialize(m) => {
                let mut s = String::from_str("Failed to serialize config: ");
                s.append(m.as_str());
                s
            },
            SaveError::Write(m) => {
                let mut s = String::from_str("Failed to write config file: ");
                s.append(m.as_str());
                s
            },
        }
    }
}

impl PathError {
    /// The human-readable description of the failure.
    pub fn message(&self) -> (r: String)
        ensures
            r@ == "Failed to determine config directory"@,
    {
        String::from_str("Failed to determine config directory")
    }
}

impl Default for Config {
    /// The unconfigured state: both fields empty.
    fn default() -> (c: Self)
        ensures
            c.server_url@ == Seq::<char>::empty(),
            c.api_key@ == Seq::<char>::empty(),
    {
        Config { server_url: String::new(), api_key: String::new() }
    }
}

#[verifier::external_type_specification]
#[verifier::external_body]
pub struct ExProjectDirs(directories::ProjectDirs);

/// Relies on directories::ProjectDirs::from: the platform's per-user
/// project directories for the given qualifier, organization and
/// application; None when the platform cannot supply a home directory.
/// The paths depend on the environment, so nothing is promised of them.
pub assume_specification[ directories::ProjectDirs::from ](
    qualifier: &str,
    organization: &str,
    application: &str,
) -> Option<directories::ProjectDirs>;

/// Relies on directories::ProjectDirs::config_dir: the directory for
/// per-user configuration files, here converted to a string. The path
/// depends on the environment, so nothing is promised of it.
#[verifier::external_body]
fn config_dir_string(dirs: &directories::ProjectDirs) -> String {
    dirs.config_dir().to_string_lossy().into_owned()
}

/// The file name that ends the configuration file's path.
pub open spec fn config_file_name() -> Seq<char> {
    "/config.toml"@
}

impl Config {
    /// True exactly when both fields are set: a configuration is usable
    /// if and only if neither the server URL nor the API key is empty.
    pub open spec fn spec_valid(&self) -> bool {
        self.server_url@.len() > 0 && self.api_key@.len() > 0
    }

    /// Validate that the config has both required fields non-empty.
    pub fn is_valid(&self) -> (r: bool)
        ensures
            r == self.spec_valid(),
    {
        !self.server_url.as_str().is_empty() && !self.api_key.as_str().is_empty()
    }

    /// The path of the configuration file: the platform's per-user
    /// configuration directory for organization `nanochat`, application
    /// `nanochat-desktop`, with `config.toml` appended. Fails when the
    /// platform supplies no configuration directory.
    pub fn config_path() -> (r: Result<String, PathError>)
        ensures
            match r {
                Ok(p) => p@.len() >= config_file_name().len() && p@.skip(
                    p@.len() - config_file_name().len(),
                ) == config_file_name(),
                Err(_) => true,
            },
    {
        match directories::ProjectDirs::from("org", "nanochat", "nanochat-desktop") {
            Some(dirs) => {
                let mut p = config_dir_string(&dirs);
                p.append("/config.toml");
                proof {
                    assert(p@.skip(p@.len() - config_file_name().len()) =~= config_file_name());
                }
                Ok(p)
            },
            None => Err(PathError {}),
        }
    }

    /// Writes the configuration in its file format: one line per field,
    /// each value quoted and escaped.
    pub fn to_toml(&self) -> (r: String)
        ensures
            r@ == render_spec(self.server_url@, self.api_key@),
    {
        render(self.server_url.as_str(), self.api_key.as_str())
    }

    /// Reads a configuration back from its file text. Succeeds exactly
    /// on the text some configuration renders to, and returns that
    /// configuration; any other text is malformed and is an error,
    /// never a default.
    pub fn from_toml(s: &str) -> (r: Result<Config, LoadError>)
        ensures
            match r {
                Ok(c) => parse_spec(s@) == Some((c.server_url@, c.api_key@)) && s@ == render_spec(
                    c.server_url@,
                    c.api_key@,
                ),
                Err(e) => {
                    &&& parse_spec(s@) is None
                    &&& forall|u: Seq<char>, k: Seq<char>| s@ != #[trigger] render_spec(u, k)
                    &&& (e matches LoadError::Parse(m) && m@ == "malformed configuration text"@)
                },
            },
    {
        match parse(s) {
            Some((u, k)) => {
                proof {
                    crate::codec::lemma_parse_canonical(s@, u@, k@);
                }
                Ok(Config { server_url: u, api_key: k })
            },
            None => {
                proof {
                    assert forall|u: Seq<char>, k: Seq<char>|
                        s@ != #[trigger] render_spec(u, k) by {
                        if s@ == render_spec(u, k) {
                            crate::codec::lemma_parse_render(u, k);
                        }
                    }
                }
                Err(LoadError::Parse(String::from_str("malformed configuration text")))
            },
        }
    }
}

/// The round-trip law: the text a configuration renders to parses back
/// to exactly that configuration's two fields.
pub proof fn lemma_config_round_trip(c: Config)
    ensures
        parse_spec(render_spec(c.server_url@, c.api_key@)) == Some(
            (c.server_url@, c.api_key@),
        ),
{
    crate::codec::lemma_parse_render(c.server_url@, c.api_key@);
}

} // verus!
