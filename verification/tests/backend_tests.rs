use dropper::backend::{BackendConfig, ErrorKind, PackageBackend};
use dropper::parser::{ErrorKind as ParserError, PluginFetchable};

/// A canned parser: enough of a `PluginFetchable` to build a backend around.
struct StubParser;

impl PluginFetchable for StubParser {
    fn fetch(&self, _package_name: &str, _version_code: &str)
        -> Result<Option<String>, ParserError> {
        Ok(None)
    }

    fn find_newest_version(&self, _package_name: &str)
        -> Result<Option<(String, String)>, ParserError> {
        Ok(None)
    }

    fn enumerate_versions(&self, _package_name: &str)
        -> Result<Option<(Vec<String>, Vec<String>)>, ParserError> {
        Ok(None)
    }
}

fn full_config() -> BackendConfig {
    BackendConfig {
        server_version: Some("1.12".to_string()),
        plugin_website: Some("bukkit".to_string()),
    }
}

#[test]
fn validate_accepts_a_full_config() {
    assert!(PackageBackend::validate(Some(&full_config())).is_ok());
}

#[test]
fn validate_rejects_a_missing_config() {
    assert_eq!(PackageBackend::validate(None), Err(ErrorKind::ConfigMissing));
}

#[test]
fn validate_names_a_missing_server_version() {
    let config = BackendConfig { server_version: None, plugin_website: Some("x".to_string()) };
    assert_eq!(
        PackageBackend::validate(Some(&config)),
        Err(ErrorKind::ConfigInvalid("server_version".to_string()))
    );
}

#[test]
fn validate_names_a_missing_plugin_website() {
    let config = BackendConfig { server_version: Some("1.12".to_string()), plugin_website: None };
    assert_eq!(
        PackageBackend::validate(Some(&config)),
        Err(ErrorKind::ConfigInvalid("plugin_website".to_string()))
    );
}

#[test]
fn new_copies_the_config_fields() {
    let parser = StubParser;
    let backend = PackageBackend::new(&parser, Some(&full_config())).unwrap();
    assert_eq!(backend.server_version, "1.12");
    assert_eq!(backend.plugin_website, "bukkit");
}

#[test]
fn new_fails_as_validate_does() {
    let parser = StubParser;
    match PackageBackend::new(&parser, None) {
        Ok(_) => panic!("a missing config must not build a backend"),
        Err(e) => assert_eq!(e, ErrorKind::ConfigMissing),
    }
}

#[test]
fn backend_error_messages_read_as_sentences() {
    assert_eq!(
        ErrorKind::YamlInvalid("config.yml".to_string()).message(),
        "invalid YAML syntax on file config.yml"
    );
    assert_eq!(
        ErrorKind::PkgSpecInvalid("a@@1".to_string()).message(),
        "'a@@1' is not a valid package specifier"
    );
    assert_eq!(
        ErrorKind::ConfigInvalid("server_version".to_string()).message(),
        "param 'server_version' missing from config"
    );
    assert_eq!(ErrorKind::ConfigMissing.message(), "the config file was not found!");
}
