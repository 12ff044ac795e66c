use phrack_issue_manager::config::{config_dir, config_path, join, Config, ConfigKey};
use phrack_issue_manager::error::PhrackIssueManagerError;
use phrack_issue_manager::exit_code::ExitCode;

#[test]
fn exit_codes_are_zero_and_one() {
    assert_eq!(ExitCode::Success.as_i32(), 0);
    assert_eq!(ExitCode::GenericError.as_i32(), 1);
}

#[test]
fn keys_are_written_in_kebab_case() {
    assert_eq!(ConfigKey::DownloadPath.as_arg(), "download-path");
    assert_eq!(ConfigKey::PhrackArchiveUrl.as_arg(), "phrack-archive-url");
    assert_eq!(ConfigKey::all(), vec![ConfigKey::DownloadPath, ConfigKey::PhrackArchiveUrl]);
}

#[test]
fn join_puts_one_separator_between_the_parts() {
    assert_eq!(join("/home/ann", "issues"), "/home/ann/issues");
    assert_eq!(join("/home/ann/", "issues"), "/home/ann/issues");
    assert_eq!(join("", "issues"), "issues");
    assert_eq!(join("/", "issues"), "/issues");
}

#[test]
fn configuration_lives_under_the_home_directory() {
    assert_eq!(config_dir("/home/ann"), "/home/ann/.config/phrack-issue-managaer");
    assert_eq!(
        config_path("/home/ann"),
        "/home/ann/.config/phrack-issue-managaer/config.toml"
    );
}

#[test]
fn initial_settings_point_at_the_archive() {
    let config = Config::initial("/home/ann");
    assert_eq!(
        config.download_path().as_str(),
        "/home/ann/.config/phrack-issue-managaer/issues"
    );
    assert_eq!(config.phrack_archive_url().as_str(), "https://archives.phrack.org");
}

#[test]
fn set_value_changes_one_key_only() {
    let mut config = Config::new("/data".to_string(), "https://a.example".to_string());
    assert_eq!(config.get_as_str(&ConfigKey::DownloadPath), "/data");
    assert_eq!(config.get_as_str(&ConfigKey::PhrackArchiveUrl), "https://a.example");
    config.set_value(&ConfigKey::DownloadPath, "/other");
    assert_eq!(config.get_as_str(&ConfigKey::DownloadPath), "/other");
    assert_eq!(config.get_as_str(&ConfigKey::PhrackArchiveUrl), "https://a.example");
    config.set_value(&ConfigKey::PhrackArchiveUrl, "https://b.example");
    assert_eq!(config.download_path().as_str(), "/other");
    assert_eq!(config.phrack_archive_url().as_str(), "https://b.example");
}

#[test]
fn each_error_has_its_own_prefix() {
    let m = || "boom".to_string();
    assert_eq!(PhrackIssueManagerError::Reqwest(m()).message(), "HTTP error: boom");
    assert_eq!(PhrackIssueManagerError::ParseInt(m()).message(), "Parse int error: boom");
    assert_eq!(PhrackIssueManagerError::Io(m()).message(), "IO error: boom");
    assert_eq!(PhrackIssueManagerError::Toml(m()).message(), "TOML error: boom");
    assert_eq!(
        PhrackIssueManagerError::TomlDe(m()).message(),
        "TOML deserialization error: boom"
    );
    assert_eq!(PhrackIssueManagerError::GenPdf(m()).message(), "PDF generation error: boom");
    assert_eq!(
        PhrackIssueManagerError::EpubGeneration(m()).message(),
        "EPUB generation error: boom"
    );
    assert_eq!(
        PhrackIssueManagerError::Environment(m()).message(),
        "Environment error: boom"
    );
}
