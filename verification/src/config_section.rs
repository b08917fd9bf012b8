//! The sections of the application configuration that an update request
//! may name.

use vstd::prelude::*;

use crate::error::{ApiError, ApiErrorCode};
use crate::text::str_eq;

verus! {

/// A section of the application configuration.
#[derive(Debug, Clone, Copy, PartialEq, Eq, Structural)]
pub enum ConfigSection {
    General,
    Display,
    Notifications,
    Ssh,
    HttpServer,
    Updater,
    KeyboardShortcuts,
}

/// The name by which requests address a section.
pub open spec fn section_name(s: ConfigSection) -> Seq<char> {
    match s {
        ConfigSection::General => "general"@,
        ConfigSection::Display => "display"@,
        ConfigSection::Notifications => "notifications"@,
        ConfigSection::Ssh => "ssh"@,
        ConfigSection::HttpServer => "httpServer"@,
        ConfigSection::Updater => "updater"@,
        ConfigSection::KeyboardShortcuts => "keyboardShortcuts"@,
    }
}

/// Message of the error for a name that is no section.
pub open spec fn unknown_section_text(name: Seq<char>) -> Seq<char> {
    "unknown section: "@ + name
}

/// The section an update request names; a validation error for any other
/// name.
pub fn parse_config_section(name: &str) -> (r: Result<ConfigSection, ApiError>)
    ensures
        r matches Ok(s) ==> section_name(s) == name@,
        r is Err ==> forall|s: ConfigSection| section_name(s) != name@,
        r matches Err(e) ==> e.code == ApiErrorCode::ValidationError && e.message@ == unknown_section_text(name@),
{
    if str_eq(name, "general") {
        Ok(ConfigSection::General)
    } else if str_eq(name, "display") {
        Ok(ConfigSection::Display)
    } else if str_eq(name, "notifications") {
        Ok(ConfigSection::Notifications)
    } else if str_eq(name, "ssh") {
        Ok(ConfigSection::Ssh)
    } else if str_eq(name, "httpServer") {
        Ok(ConfigSection::HttpServer)
    } else if str_eq(name, "updater") {
        Ok(ConfigSection::Updater)
    } else if str_eq(name, "keyboardShortcuts") {
        Ok(ConfigSection::KeyboardShortcuts)
    } else {
        proof {
            assert forall|s: ConfigSection| section_name(s) != name@ by {
                match s {
                    ConfigSection::General => {},
                    ConfigSection::Display => {},
                    ConfigSection::Notifications => {},
                    ConfigSection::Ssh => {},
                    ConfigSection::HttpServer => {},
                    ConfigSection::Updater => {},
                    ConfigSection::KeyboardShortcuts => {},
                }
            }
        }
        let mut msg = String::from_str("unknown section: ");
        msg.append(name);
        Err(ApiError::validation(msg))
    }
}

} // verus!
