//! Verified core of a declarative workstation manager: dump and manifest
//! text handling, package drift, plans and their remediations.
pub mod text;
pub mod lists;
pub mod dconf;
pub mod dconf_laws;
pub mod manifest;
pub mod packages;
pub mod reconcile;
pub mod reconcile_plan;
pub mod reconcile_laws;
pub mod plan;
pub mod plan_laws;
pub mod drift;
pub mod interface;
pub mod providers;
pub mod git;
pub mod settings;
pub mod eq_import;
pub mod machine;
pub mod primitives;
pub mod journal;
pub mod ledger;
pub mod probe;
pub mod converge;
pub mod prune;
pub mod discovery;
pub mod ui;
pub mod fleet;
pub mod escalation;
pub mod effective;
pub mod spec_edit;
pub mod template;
pub mod version_stamp;
pub mod dconf_describe;
pub mod jsonc;
pub mod json_value;
pub mod jsonc_edit;
pub mod toml_value;
