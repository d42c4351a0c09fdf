pub mod add;
pub mod add_filtered;
pub mod add_project;
pub mod base64_text;
pub mod catalogs;
pub mod checksum;
pub mod client;
pub mod commands;
pub mod config;
pub mod dist_tags;
pub mod entries;
pub mod env;
pub mod gvs;
pub mod json;
pub mod lifecycle;
pub mod lockfile;
pub mod manifest;
pub mod manifest_json;
pub mod mise;
pub mod no_save;
pub mod npmrc;
pub mod package_name;
pub mod packument;
pub mod packument_fetch;
pub mod paths;
pub mod progress;
pub mod registry_url;
pub mod retry;
pub mod script_settings;
pub mod self_download;
pub mod self_install;
pub mod semver;
pub mod sponsors;
pub mod text;
pub mod text_map;
pub mod workspace_install;
pub mod workspace_mutations;
pub mod yaml;
