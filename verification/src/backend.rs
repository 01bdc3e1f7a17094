//! The package-management backend's configuration handling: the typed
//! configuration values, their validation, and construction of a backend
//! around a plugin parser.
//!
//! Reading the YAML files from disk belongs to the surrounding program; it
//! hands the decoded values in as a [`BackendConfig`].

use vstd::prelude::*;
use crate::parser::PluginFetchable;

verus! {

/// The errors of the backend.
#[derive(Clone, PartialEq, Eq, Debug)]
pub enum ErrorKind {
    /// A YAML file could not be parsed; carries the file name.
    YamlInvalid(String),
    /// A package specifier matches none of the possible formats; carries
    /// the bad specifier.
    PkgSpecInvalid(String),
    /// The config file misses a required key; carries the key.
    ConfigInvalid(String),
    /// The config file itself is missing.
    ConfigMissing,
}

impl ErrorKind {
    /// The human-readable description of the error.
    pub fn message(&self) -> (r: String)
        ensures
            match *self {
                ErrorKind::YamlInvalid(s) => r@ == "invalid YAML syntax on file "@ + s@,
                ErrorKind::PkgSpecInvalid(s) =>
                    r@ == "'"@ + s@ + "' is not a valid package specifier"@,
                ErrorKind::ConfigInvalid(s) => r@ == "param '"@ + s@ + "' missing from config"@,
                ErrorKind::ConfigMissing => r@ == "the config file was not found!"@,
            },
    {
        match self {
            ErrorKind::YamlInvalid(s) => {
                let mut m = "invalid YAML syntax on file ".to_owned();
                m.append(s.as_str());
                m
            }
            ErrorKind::PkgSpecInvalid(s) => {
                let mut m = "'".to_owned();
                m.append(s.as_str());
                m.append("' is not a valid package specifier");
                m
            }
            ErrorKind::ConfigInvalid(s) => {
                let mut m = "param '".to_owned();
                m.append(s.as_str());
                m.append("' missing from config");
                m
            }
            ErrorKind::ConfigMissing => "the config file was not found!".to_owned(),
        }
    }
}

/// The backend's configuration, as plain values: each field holds what the
/// config file's key of the same name decodes to as a string, or nothing
/// where the key is absent or not a string.
#[derive(Clone, PartialEq, Eq, Debug)]
pub struct BackendConfig {
    pub server_version: Option<String>,
    pub plugin_website: Option<String>,
}

/// The configuration of the backend, together with the plugin parser that
/// feeds it repository information.
pub struct PackageBackend<'a> {
    pub plugin_website: String,
    pub package_parser: &'a dyn PluginFetchable,
    pub server_version: String,
}

impl<'a> PackageBackend<'a> {
    /// Checks that the configuration exists and holds the required keys:
    /// `ConfigMissing` without a configuration, `ConfigInvalid` naming the
    /// first required key that is absent.
    pub fn validate(config: Option<&BackendConfig>) -> (r: Result<(), ErrorKind>)
        ensures
            match r {
                Ok(_) => config matches Some(c)
                    && c.server_version is Some && c.plugin_website is Some,
                Err(e) => match e {
                    ErrorKind::ConfigMissing => config is None,
                    ErrorKind::ConfigInvalid(k) => config matches Some(c)
                        && (if c.server_version is None {
                            k@ == "server_version"@
                        } else {
                            c.plugin_website is None && k@ == "plugin_website"@
                        }),
                    _ => false,
                },
            },
    {
        match config {
            None => Err(ErrorKind::ConfigMissing),
            Some(c) => {
                if c.server_version.is_none() {
                    Err(ErrorKind::ConfigInvalid("server_version".to_owned()))
                } else if c.plugin_website.is_none() {
                    Err(ErrorKind::ConfigInvalid("plugin_website".to_owned()))
                } else {
                    Ok(())
                }
            }
        }
    }

    /// Builds a backend over the given plugin parser from a validated
    /// configuration; fails exactly as [`PackageBackend::validate`] does.
    pub fn new(
        package_parser: &'a dyn PluginFetchable,
        config: Option<&BackendConfig>,
    ) -> (r: Result<PackageBackend<'a>, ErrorKind>)
        ensures
            match r {
                Ok(b) => config matches Some(c)
                    && (c.server_version matches Some(sv) && b.server_version == sv)
                    && (c.plugin_website matches Some(pw) && b.plugin_website == pw),
                Err(e) => match e {
                    ErrorKind::ConfigMissing => config is None,
                    ErrorKind::ConfigInvalid(k) => config matches Some(c)
                        && (if c.server_version is None {
                            k@ == "server_version"@
                        } else {
                            c.plugin_website is None && k@ == "plugin_website"@
                        }),
                    _ => false,
                },
            },
    {
        match Self::validate(config) {
            Err(e) => Err(e),
            Ok(_) => {
                let c = match config {
                    Some(c) => c,
                    None => {
                        return Err(ErrorKind::ConfigMissing);
                    }
                };
                let server_version = match &c.server_version {
                    Some(s) => s.clone(),
                    None => {
                        return Err(ErrorKind::ConfigMissing);
                    }
                };
                let plugin_website = match &c.plugin_website {
                    Some(s) => s.clone(),
                    None => {
                        return Err(ErrorKind::ConfigMissing);
                    }
                };
                Ok(PackageBackend { plugin_website, package_parser, server_version })
            }
        }
    }
}

} // verus!
