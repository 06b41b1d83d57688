//! SIP / PBX bridge configuration: validation of the `[asterisk]` section and
//! the text that the dashboard writes back into the live configuration file.

pub mod text;
pub mod secret;
pub mod sec_asterisk;
pub mod lines;
pub mod asterisk;
pub mod config_text;
pub mod section_read;
