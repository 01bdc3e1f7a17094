use dropper::extract::ExtractionError;
use dropper::parser::{BukkitHTMLPluginParser, ErrorKind};
use dropper::version::VersionTuple;

#[test]
fn new_keeps_its_arguments() {
    let p = BukkitHTMLPluginParser::new(
        "https://dev.bukkit.org/search?search={}",
        ".listing",
        "div.results-name > a",
        "1.11".to_string(),
    );
    assert_eq!(p.search_url, "https://dev.bukkit.org/search?search={}");
    assert_eq!(p.list_selector, ".listing");
    assert_eq!(p.item_selector, "div.results-name > a");
    assert_eq!(p.minecraft_version, "1.11");
}

#[test]
fn stringify_renders_present_fields() {
    assert_eq!(
        BukkitHTMLPluginParser::stringify_version_tuple((6, 1, Some(9), None), None),
        "6.1.9"
    );
    assert_eq!(BukkitHTMLPluginParser::stringify_version_tuple((6, 1, None, None), None), "6.1");
    assert_eq!(
        BukkitHTMLPluginParser::stringify_version_tuple((1, 2, Some(3), Some(4)), None),
        "1.2.3.4"
    );
}

#[test]
fn stringify_appends_beta_suffix() {
    assert_eq!(
        BukkitHTMLPluginParser::stringify_version_tuple((6, 1, Some(9), None), Some("2".to_string())),
        "6.1.9b2"
    );
}

#[test]
fn version_tuple_stringify_matches_canonical_form() {
    let t = VersionTuple { major: 10, minor: 0, patch: Some(7), build: None };
    assert_eq!(t.stringify(), "10.0.7");
}

#[test]
fn extract_version_numbers_renders_the_selected_column() {
    let names = vec![
        "Plugin 6.1.9 (MC 1.12)".to_string(),
        "Plugin 6.1.11 (MC 1.12)".to_string(),
        "Plugin 6.2.0 (MC 1.12)".to_string(),
    ];
    let out = BukkitHTMLPluginParser::extract_version_numbers(names).unwrap();
    assert_eq!(out, vec!["6.1.9".to_string(), "6.1.11".to_string(), "6.2.0".to_string()]);
}

#[test]
fn extract_version_numbers_rejects_versionless_names() {
    let names = vec!["no version here".to_string()];
    assert_eq!(
        BukkitHTMLPluginParser::extract_version_numbers(names),
        Err(ExtractionError::UnparseableLabel("no version here".to_string()))
    );
}

#[test]
fn known_minecraft_versions_map_to_bukkit_codes() {
    let cases = [
        ("1.12", "2020709689:6588"),
        ("1.11", "2020709689:630"),
        ("1.10", "2020709689:591"),
        ("1.9", "2020709689:585"),
        ("1.8.1", "2020709689:532"),
        ("1.8", "2020709689:531"),
        ("CB 1.7.9-R0.2", "2020709689:490"),
        ("CB 1.7.9-R0.1", "2020709689:473"),
        ("CB 1.7.2-R0.3", "2020709689:403"),
        ("1.7.4", "2020709689:6391"),
    ];
    for (mc, code) in cases {
        let p = BukkitHTMLPluginParser::new("u", "l", "i", mc.to_string());
        assert_eq!(p.bukkit_mc_version_code().unwrap(), code);
    }
}

#[test]
fn unknown_minecraft_version_is_reported() {
    let p = BukkitHTMLPluginParser::new("u", "l", "i", "9.9".to_string());
    assert_eq!(
        p.bukkit_mc_version_code(),
        Err(ErrorKind::ServerVersionNotFound("9.9".to_string()))
    );
}

#[test]
fn parser_error_messages_read_as_sentences() {
    assert_eq!(ErrorKind::RequestFailed(404).message(), "request failed with code 404");
    assert_eq!(
        ErrorKind::ServerVersionNotFound("1.6".to_string()).message(),
        "a plugin for server version 1.6 not found"
    );
    assert_eq!(
        ErrorKind::BadVersioningFormat.message(),
        "plugin has a version format we cannot handle"
    );
}
