//! The settings of the tool: where issues are stored and where the archive lives.

use vstd::prelude::*;
use vstd::string::*;

verus! {

/// The name of one setting.
#[derive(Clone, Copy, Debug, PartialEq, Eq, Structural)]
pub enum ConfigKey {
    DownloadPath,
    PhrackArchiveUrl,
}

/// The settings as plain text values.
pub struct Config {
    download_path: String,
    phrack_archive_url: String,
}

/// The mathematical value of a [`Config`].
pub ghost struct ConfigView {
    pub download_path: Seq<char>,
    pub phrack_archive_url: Seq<char>,
}

impl ConfigView {
    /// The text stored under `key`.
    pub open spec fn value_of(self, key: ConfigKey) -> Seq<char> {
        match key {
            ConfigKey::DownloadPath => self.download_path,
            ConfigKey::PhrackArchiveUrl => self.phrack_archive_url,
        }
    }

    /// The settings with `key` replaced by `value` and the other key untouched.
    pub open spec fn with_value(self, key: ConfigKey, value: Seq<char>) -> ConfigView {
        match key {
            ConfigKey::DownloadPath => ConfigView { download_path: value, ..self },
            ConfigKey::PhrackArchiveUrl => ConfigView { phrack_archive_url: value, ..self },
        }
    }
}

impl View for Config {
    type V = ConfigView;

    closed spec fn view(&self) -> ConfigView {
        ConfigView {
            download_path: self.download_path@,
            phrack_archive_url: self.phrack_archive_url@,
        }
    }
}

/// The directory under the home directory that holds the tool's files.
pub open spec fn config_dir_name() -> Seq<char> {
    ".config/phrack-issue-managaer"@
}

/// The name of the settings file inside the configuration directory.
pub open spec fn config_file_name() -> Seq<char> {
    "config.toml"@
}

/// The name of the default download directory inside the configuration directory.
pub open spec fn default_issues_dir_name() -> Seq<char> {
    "issues"@
}

/// The archive address used until the user sets another.
pub open spec fn default_archive_url() -> Seq<char> {
    "https://archives.phrack.org"@
}

/// A relative path appended to a base path: a separator is put between the two
/// unless the base is empty or already ends in one.
pub open spec fn join_path(base: Seq<char>, rel: Seq<char>) -> Seq<char> {
    if base.len() == 0 || base.last() == '/' {
        base + rel
    } else {
        base + seq!['/'] + rel
    }
}

/// Appends the relative path `rel` to `base`.
pub fn join(base: &str, rel: &str) -> (path: String)
    ensures
        path@ == join_path(base@, rel@),
{
    let n: usize = base.unicode_len();
    let mut path = String::from_str(base);
    if n != 0 && base.get_char(n - 1) != '/' {
        proof {
            reveal_strlit("/");
            assert("/"@ =~= seq!['/']);
        }
        path.append("/");
    }
    path.append(rel);
    path
}

/// The configuration directory of the user whose home directory is `home`.
pub fn config_dir(home: &str) -> (dir: String)
    ensures
        dir@ == join_path(home@, config_dir_name()),
{
    join(home, ".config/phrack-issue-managaer")
}

/// The settings file of the user whose home directory is `home`.
pub fn config_path(home: &str) -> (path: String)
    ensures
        path@ == join_path(join_path(home@, config_dir_name()), config_file_name()),
{
    let dir = config_dir(home);
    join(dir.as_str(), "config.toml")
}

impl Config {
    /// Settings with the given values.
    pub fn new(download_path: String, phrack_archive_url: String) -> (config: Config)
        ensures
            config@ == (ConfigView {
                download_path: download_path@,
                phrack_archive_url: phrack_archive_url@,
            }),
    {
        Config { download_path, phrack_archive_url }
    }

    /// The settings written when no settings file exists yet: issues go to
    /// `issues` under the configuration directory of `home`.
    pub fn initial(home: &str) -> (config: Config)
        ensures
            config@ == (ConfigView {
                download_path: join_path(
                    join_path(home@, config_dir_name()),
                    default_issues_dir_name(),
                ),
                phrack_archive_url: default_archive_url(),
            }),
    {
        let dir = config_dir(home);
        Config {
            download_path: join(dir.as_str(), "issues"),
            phrack_archive_url: String::from_str("https://archives.phrack.org"),
        }
    }

    /// The value stored under `key`.
    pub fn get_as_str(&self, key: &ConfigKey) -> (value: String)
        ensures
            value@ == self@.value_of(*key),
    {
        match key {
            ConfigKey::DownloadPath => self.download_path.clone(),
            ConfigKey::PhrackArchiveUrl => self.phrack_archive_url.clone(),
        }
    }

    /// The directory that holds one directory per mirrored issue.
    pub fn download_path(&self) -> (path: &String)
        ensures
            path@ == self@.download_path,
    {
        &self.download_path
    }

    /// The base address of the archive.
    pub fn phrack_archive_url(&self) -> (url: &String)
        ensures
            url@ == self@.phrack_archive_url,
    {
        &self.phrack_archive_url
    }

    /// Stores `value` under `key` and leaves the other key as it is.
    pub fn set_value(&mut self, key: &ConfigKey, value: &str)
        ensures
            final(self)@ == old(self)@.with_value(*key, value@),
    {
        match key {
            ConfigKey::DownloadPath => {
                self.download_path = String::from_str(value);
            },
            ConfigKey::PhrackArchiveUrl => {
                self.phrack_archive_url = String::from_str(value);
            },
        }
    }
}

impl ConfigKey {
    /// The key as it is written on the command line.
    pub open spec fn arg_name(self) -> Seq<char> {
        match self {
            ConfigKey::DownloadPath => "download-path"@,
            ConfigKey::PhrackArchiveUrl => "phrack-archive-url"@,
        }
    }

    /// Every key, in declaration order.
    pub fn all() -> (keys: Vec<ConfigKey>)
        ensures
            keys@ == seq![ConfigKey::DownloadPath, ConfigKey::PhrackArchiveUrl],
    {
        vec![ConfigKey::DownloadPath, ConfigKey::PhrackArchiveUrl]
    }

    /// The key as it is written on the command line.
    pub fn as_arg(&self) -> (name: String)
        ensures
            name@ == self.arg_name(),
    {
        match self {
            ConfigKey::DownloadPath => String::from_str("download-path"),
            ConfigKey::PhrackArchiveUrl => String::from_str("phrack-archive-url"),
        }
    }
}

/// Setting a key and reading it back gives the value that was set, and the
/// other key keeps its value.
pub proof fn lemma_set_then_get(config: ConfigView, key: ConfigKey, other: ConfigKey, value: Seq<char>)
    ensures
        config.with_value(key, value).value_of(key) == value,
        other != key ==> config.with_value(key, value).value_of(other) == config.value_of(other),
{
}

} // verus!
