use vstd::prelude::*;

pub mod diff;
pub mod external_sources;
pub mod digest;
pub mod disks;
pub mod modrinth;
pub mod one_shot;
pub mod order;
pub mod pack;
pub mod pack_api;
pub mod path_model;
pub mod personalization;
pub mod bootstrap;
pub mod bootstrap_resolver;
pub mod changelog;
pub mod client_app;
pub mod client_profile;
pub mod combine;
pub mod curseforge;
pub mod pending_changes;
pub mod private_protocol;
pub mod profile_rules;
pub mod release;
pub mod images;
pub mod log_buffer;
pub mod main_ui;
pub mod manager_profile;
pub mod meta_json;
pub mod meta_text;
pub mod text;
pub mod updater_source;
pub mod version_history;
pub mod web_types;
pub mod version_meta;
pub mod workspace_files;

verus! {

} // verus!
