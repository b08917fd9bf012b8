use cdt_api::config_section::{parse_config_section, ConfigSection};
use cdt_api::error::ApiErrorCode;

#[test]
fn known_sections_parse() {
    assert_eq!(parse_config_section("general").unwrap(), ConfigSection::General);
    assert_eq!(parse_config_section("display").unwrap(), ConfigSection::Display);
    assert_eq!(parse_config_section("notifications").unwrap(), ConfigSection::Notifications);
    assert_eq!(parse_config_section("ssh").unwrap(), ConfigSection::Ssh);
    assert_eq!(parse_config_section("httpServer").unwrap(), ConfigSection::HttpServer);
    assert_eq!(parse_config_section("updater").unwrap(), ConfigSection::Updater);
    assert_eq!(parse_config_section("keyboardShortcuts").unwrap(), ConfigSection::KeyboardShortcuts);
}

#[test]
fn unknown_section_is_refused() {
    let e = parse_config_section("http_server").unwrap_err();
    assert_eq!(e.code, ApiErrorCode::ValidationError);
    assert_eq!(e.message, "unknown section: http_server");
    assert!(parse_config_section("").is_err());
    assert!(parse_config_section("General").is_err());
}
