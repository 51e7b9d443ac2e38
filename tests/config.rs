use oneseed::cli::{
    config_key, encrypts_to_self, realm_source, seed_file_source, Cli, Commands, ConfigKey, SettingSource,
};
use oneseed::release::{is_windows_platform, platform_name, release_version, text_eq};
use oneseed::config::Config;
use std::path::PathBuf;

#[test]
fn realms_add_sorted_without_duplicates() {
    let mut config = Config::default();
    config.add_realm("work");
    config.add_realm("personal");
    config.add_realm("work");
    assert_eq!(config.realms, vec!["personal".to_string(), "work".to_string()]);
}

#[test]
fn realms_add_sorts_existing_list() {
    let mut config = Config::default();
    config.realms = vec!["zeta".to_string(), "alpha".to_string()];
    config.add_realm("beta");
    assert_eq!(config.realms, vec!["alpha", "beta", "zeta"]);
}

#[test]
fn realms_remove() {
    let mut config = Config::default();
    config.realms = vec!["a".to_string(), "b".to_string(), "a".to_string()];
    config.remove_realm("a");
    assert_eq!(config.realms, vec!["b".to_string()]);
    config.remove_realm("missing");
    assert_eq!(config.realms, vec!["b".to_string()]);
}

fn cli(realm: Option<&str>, seed_file: Option<&str>) -> Cli {
    Cli {
        realm: realm.map(|r| r.to_string()),
        seed_file: seed_file.map(PathBuf::from),
        command: Commands::Status,
    }
}

#[test]
fn realm_priority() {
    let mut config = Config::default();
    assert_eq!(cli(None, None).get_realm(None), "default");
    assert_eq!(cli(None, None).get_realm(Some(&config)), "default");
    config.realm = Some("saved".to_string());
    assert_eq!(cli(None, None).get_realm(Some(&config)), "saved");
    assert_eq!(cli(Some("flag"), None).get_realm(Some(&config)), "flag");
}

#[test]
fn seed_file_priority() {
    let mut config = Config::default();
    assert_eq!(cli(None, None).get_seed_file(None), None);
    assert_eq!(cli(None, None).get_seed_file(Some(&config)), None);
    config.seed_file = Some(PathBuf::from("/saved"));
    assert_eq!(cli(None, None).get_seed_file(Some(&config)), Some(PathBuf::from("/saved")));
    assert_eq!(cli(None, Some("/flag")).get_seed_file(Some(&config)), Some(PathBuf::from("/flag")));
}

#[test]
fn config_keys() {
    assert_eq!(config_key("realm"), Some(ConfigKey::Realm));
    assert_eq!(config_key("seed-file"), Some(ConfigKey::SeedFile));
    assert_eq!(config_key("seed_file"), None);
    assert_eq!(config_key(""), None);
}

#[test]
fn setting_sources() {
    assert_eq!(realm_source(true, false, true), SettingSource::Flag);
    assert_eq!(realm_source(true, true, false), SettingSource::Env);
    assert_eq!(realm_source(false, false, true), SettingSource::Config);
    assert_eq!(realm_source(false, false, false), SettingSource::Default);
    assert_eq!(seed_file_source(true, false), SettingSource::Flag);
    assert_eq!(seed_file_source(false, true), SettingSource::Env);
    assert_eq!(seed_file_source(false, false), SettingSource::Config);
}

#[test]
fn encrypt_to_self_rule() {
    assert!(encrypts_to_self(false, 0, 0));
    assert!(encrypts_to_self(true, 2, 0));
    assert!(!encrypts_to_self(false, 1, 0));
    assert!(!encrypts_to_self(false, 0, 1));
}

#[test]
fn release_names() {
    assert_eq!(platform_name("linux", "x86_64"), "linux-amd64");
    assert_eq!(platform_name("macos", "aarch64"), "darwin-arm64");
    assert_eq!(platform_name("windows", "arm64"), "windows-arm64");
    assert_eq!(platform_name("freebsd", "riscv64"), "freebsd-riscv64");
    assert_eq!(release_version("v1.2.3"), "1.2.3");
    assert_eq!(release_version("vv2"), "2");
    assert_eq!(release_version("1.0"), "1.0");
    assert_eq!(release_version(""), "");
    assert!(is_windows_platform("windows-amd64"));
    assert!(is_windows_platform("x-windows"));
    assert!(!is_windows_platform("linux-amd64"));
    assert!(!is_windows_platform("win"));
    assert!(text_eq("é", "é"));
    assert!(!text_eq("a", "ab"));
}
