//! Configuration data for the analysis engine.
//!
//! Argument parsing, project-file discovery and disk I/O belong to the
//! surrounding program; this module holds the resulting plain values and
//! the priority rule for the effective flavor name.

use vstd::prelude::*;

verus! {

/// A project configuration document.
#[derive(Debug, PartialEq)]
pub struct ProjectConfig {
    pub project: ProjectSettings,
}

/// The project section of a project configuration.
#[derive(Debug, PartialEq)]
pub struct ProjectSettings {
    pub default_flavor: Option<String>,
    pub settings: Option<AdditionalSettings>,
}

/// Optional editor-facing settings.
#[derive(Debug, PartialEq)]
pub struct AdditionalSettings {
    pub enable_diagnostics: Option<bool>,
    pub completion_style: Option<String>,
}

/// Combined configuration from all sources, as plain values.
#[derive(Debug, PartialEq)]
pub struct Config {
    /// Flavor name explicitly requested by the caller.
    pub cli_flavor: Option<String>,
    /// Flavor name from the project configuration.
    pub project_flavor: Option<String>,
    /// Directories to search for flavor definition files.
    pub flavor_dirs: Vec<String>,
    /// Where the project configuration was found, if anywhere.
    pub project_config_path: Option<String>,
    /// Logging verbosity.
    pub log_level: String,
}

impl Config {
    /// The effective flavor name: the explicit request wins over the
    /// project default; `None` when neither names one.
    pub fn get_effective_flavor(&self) -> (r: Option<String>)
        ensures
            match self.cli_flavor {
                Some(ref s) => r is Some && r->0@ == s@,
                None => match self.project_flavor {
                    Some(ref s) => r is Some && r->0@ == s@,
                    None => r is None,
                },
            },
    {
        match &self.cli_flavor {
            Some(s) => Some(s.clone()),
            None => match &self.project_flavor {
                Some(s) => Some(s.clone()),
                None => None,
            },
        }
    }

    /// True when a project configuration file was found.
    pub fn has_project_config(&self) -> (r: bool)
        ensures
            r == (self.project_config_path is Some),
    {
        self.project_config_path.is_some()
    }

    /// Where the project configuration was found, if anywhere.
    pub fn project_config_path(&self) -> (r: Option<&String>)
        ensures
            match self.project_config_path {
                Some(ref p) => r is Some && r->0@ == p@,
                None => r is None,
            },
    {
        self.project_config_path.as_ref()
    }
}

} // verus!
