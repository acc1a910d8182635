//! Model choices, where their files live, and the application settings.

use crate::text::str_eq;
use vstd::prelude::*;

verus! {

broadcast use vstd::string::group_string_axioms;

/// Where a model's weights come from and the file name they are cached under.
#[derive(Clone, Copy, Debug)]
pub struct ModelConfig {
    pub download_url: &'static str,
    pub expected_filename: &'static str,
}

/// Gemma 4 E2B: faster, with a smaller memory footprint.
pub open spec fn e2b_model() -> ModelConfig {
    ModelConfig {
        download_url: "https://models.r2-cf.mdev64.com/gemma4/gemma-4-E2B-it-Q4_K_M.gguf",
        expected_filename: "gemma-4-E2B-it-Q4_K_M.gguf",
    }
}

/// Gemma 4 E4B: more capable, with a larger memory footprint.
pub open spec fn e4b_model() -> ModelConfig {
    ModelConfig {
        download_url: "https://models.r2-cf.mdev64.com/gemma4/gemma-4-E4B-it-Q4_K_M.gguf",
        expected_filename: "gemma-4-E4B-it-Q4_K_M.gguf",
    }
}

/// The E2B model's source and cache file name.
pub fn gemma_e2b_config() -> (c: ModelConfig)
    ensures
        c == e2b_model(),
{
    ModelConfig {
        download_url: "https://models.r2-cf.mdev64.com/gemma4/gemma-4-E2B-it-Q4_K_M.gguf",
        expected_filename: "gemma-4-E2B-it-Q4_K_M.gguf",
    }
}

/// The E4B model's source and cache file name.
pub fn gemma_e4b_config() -> (c: ModelConfig)
    ensures
        c == e4b_model(),
{
    ModelConfig {
        download_url: "https://models.r2-cf.mdev64.com/gemma4/gemma-4-E4B-it-Q4_K_M.gguf",
        expected_filename: "gemma-4-E4B-it-Q4_K_M.gguf",
    }
}

/// The settings saved by the configuration wizard.
#[derive(Clone, Debug)]
pub struct AppConfig {
    pub model: String,
    pub shell: String,
    pub show_hints: bool,
    pub auto_copy: bool,
}

/// Why a configuration could not be used.
#[derive(Clone, Debug)]
pub enum ConfigError {
    /// The configuration names a model that is neither `E2B` nor `E4B`.
    UnknownModel(String),
}

/// The model that a configuration name selects, if any.
pub open spec fn model_named(name: Seq<char>) -> Option<ModelConfig> {
    if name == "E2B"@ {
        Some(e2b_model())
    } else if name == "E4B"@ {
        Some(e4b_model())
    } else {
        None
    }
}

/// The model configured under `name`: `E2B` or `E4B`; any other name is an
/// unknown model.
pub fn get_model_config(name: &str) -> (r: Result<ModelConfig, ConfigError>)
    ensures
        match r {
            Ok(c) => model_named(name@) == Some(c),
            Err(ConfigError::UnknownModel(n)) => model_named(name@) is None && n@ == name@,
        },
{
    if str_eq(name, "E2B") {
        Ok(gemma_e2b_config())
    } else if str_eq(name, "E4B") {
        Ok(gemma_e4b_config())
    } else {
        Err(ConfigError::UnknownModel(name.to_owned()))
    }
}

impl ConfigError {
    /// The text shown to the user for this error.
    pub fn message(&self) -> (r: String)
        ensures
            match self {
                ConfigError::UnknownModel(n) => r@ == "Unknown model '"@ + n@
                    + "' in configuration. Run `sage --config` to fix it."@,
            },
    {
        match self {
            ConfigError::UnknownModel(n) => {
                let mut r = "Unknown model '".to_owned();
                r.append(n.as_str());
                r.append("' in configuration. Run `sage --config` to fix it.");
                r
            },
        }
    }
}

/// `rel` placed under the directory `base`, as `Path::join` does on Unix: an
/// absolute `rel` stands alone, and a separator is put between the two unless
/// `base` is empty or already ends with one.
pub open spec fn join_path(base: Seq<char>, rel: Seq<char>) -> Seq<char> {
    if rel.len() > 0 && rel[0] == '/' {
        rel
    } else if base.len() == 0 || base.last() == '/' {
        base + rel
    } else {
        base + seq!['/'] + rel
    }
}

/// `rel` placed under the directory `base` (see [`join_path`]).
pub fn join(base: &str, rel: &str) -> (r: String)
    ensures
        r@ == join_path(base@, rel@),
{
    if rel.unicode_len() > 0 && rel.get_char(0) == '/' {
        return rel.to_owned();
    }
    let n = base.unicode_len();
    let mut r = base.to_owned();
    if n > 0 && base.get_char(n - 1) != '/' {
        r.append("/");
    }
    r.append(rel);
    proof {
        reveal_strlit("/");
    }
    r
}

/// The directory, under the home directory `home`, where models and settings
/// are kept: `.cache/sage`.
pub fn get_cache_dir(home: &str) -> (r: String)
    ensures
        r@ == join_path(home@, ".cache/sage"@),
{
    join(home, ".cache/sage")
}

/// Where the weights of `config` are cached, inside `cache_dir`.
pub fn get_model_path(cache_dir: &str, config: &ModelConfig) -> (r: String)
    ensures
        r@ == join_path(cache_dir@, config.expected_filename@),
{
    join(cache_dir, config.expected_filename)
}

/// Where the settings are saved, inside `cache_dir`: `config.json`.
pub fn config_file_path(cache_dir: &str) -> (r: String)
    ensures
        r@ == join_path(cache_dir@, "config.json"@),
{
    join(cache_dir, "config.json")
}

/// What was found where the settings are kept.
#[derive(Clone, Debug)]
pub enum ConfigFile {
    /// No settings file exists.
    Missing,
    /// The file exists but could not be read; the reason.
    Unreadable(String),
    /// The file was read but does not hold valid settings; the reason.
    Invalid(String),
    /// The file holds these settings.
    Parsed(AppConfig),
}

/// The settings to use, and a warning to show, if any.
#[derive(Clone, Debug)]
pub struct LoadedConfig {
    pub config: Option<AppConfig>,
    pub warning: Option<String>,
}

/// The warning for a settings file that could not be read.
pub open spec fn unreadable_warning(reason: Seq<char>) -> Seq<char> {
    "Warning: could not read config ("@ + reason + ")."@
}

/// The warning for a settings file that does not hold valid settings.
pub open spec fn invalid_warning(reason: Seq<char>) -> Seq<char> {
    "Warning: config is invalid ("@ + reason + "). Run `sage --config` to recreate it."@
}

/// Decides what a settings file gives: its settings when they were read and
/// are valid; nothing otherwise, with a warning when the file exists but
/// cannot be used, and silently when there is no file.
pub fn load_config_from(file: ConfigFile) -> (r: LoadedConfig)
    ensures
        match file {
            ConfigFile::Missing => r.config is None && r.warning is None,
            ConfigFile::Unreadable(e) => {
                &&& r.config is None
                &&& r.warning matches Some(w) && w@ == unreadable_warning(e@)
            },
            ConfigFile::Invalid(e) => {
                &&& r.config is None
                &&& r.warning matches Some(w) && w@ == invalid_warning(e@)
            },
            ConfigFile::Parsed(c) => r.config == Some(c) && r.warning is None,
        },
{
    match file {
        ConfigFile::Missing => LoadedConfig { config: None, warning: None },
        ConfigFile::Unreadable(e) => {
            let mut w = "Warning: could not read config (".to_owned();
            w.append(e.as_str());
            w.append(").");
            LoadedConfig { config: None, warning: Some(w) }
        },
        ConfigFile::Invalid(e) => {
            let mut w = "Warning: config is invalid (".to_owned();
            w.append(e.as_str());
            w.append("). Run `sage --config` to recreate it.");
            LoadedConfig { config: None, warning: Some(w) }
        },
        ConfigFile::Parsed(c) => LoadedConfig { config: Some(c), warning: None },
    }
}

/// A path joined under a directory lies in that directory and ends with the
/// joined name, unless the name is itself absolute.
pub proof fn lemma_join_path_parts(base: Seq<char>, rel: Seq<char>)
    requires
        !(rel.len() > 0 && rel[0] == '/'),
    ensures
        join_path(base, rel).take(base.len() as int) == base,
        join_path(base, rel).skip(join_path(base, rel).len() - rel.len()) == rel,
{
    let j = join_path(base, rel);
    assert(j.take(base.len() as int) =~= base);
    assert(j.skip(j.len() - rel.len()) =~= rel);
}

/// Both known models are cached under relative file names, so their paths
/// lie inside the cache directory and end with those names.
pub proof fn lemma_model_paths_in_cache_dir(cache_dir: Seq<char>)
    ensures
        ({
            let p = join_path(cache_dir, e2b_model().expected_filename@);
            p.take(cache_dir.len() as int) == cache_dir && p.skip(
                p.len() - e2b_model().expected_filename@.len(),
            ) == e2b_model().expected_filename@
        }),
        ({
            let p = join_path(cache_dir, e4b_model().expected_filename@);
            p.take(cache_dir.len() as int) == cache_dir && p.skip(
                p.len() - e4b_model().expected_filename@.len(),
            ) == e4b_model().expected_filename@
        }),
        ({
            let p = join_path(cache_dir, "config.json"@);
            p.take(cache_dir.len() as int) == cache_dir && p.skip(p.len() - "config.json"@.len())
                == "config.json"@
        }),
{
    reveal_strlit("gemma-4-E2B-it-Q4_K_M.gguf");
    reveal_strlit("gemma-4-E4B-it-Q4_K_M.gguf");
    reveal_strlit("config.json");
    lemma_join_path_parts(cache_dir, e2b_model().expected_filename@);
    lemma_join_path_parts(cache_dir, e4b_model().expected_filename@);
    lemma_join_path_parts(cache_dir, "config.json"@);
}

} // verus!
