//! Workspace-level configuration.

use vstd::prelude::*;

verus! {

/// The configuration of a workspace.
#[derive(Debug)]
pub struct Config {
    /// Version of the configuration format.
    pub schema_version: u32,
    /// File that the configuration was read from.
    pub source: Option<String>,
}

/// The model of a [`Config`].
pub struct ConfigView {
    pub schema_version: int,
    pub source: Option<Seq<char>>,
}

impl DeepView for Config {
    type V = ConfigView;

    open spec fn deep_view(&self) -> ConfigView {
        ConfigView {
            schema_version: self.schema_version as int,
            source: self.source.deep_view(),
        }
    }
}

impl Config {
    /// The configuration of a workspace that has none of its own.
    #[must_use]
    pub fn defaults() -> (out: Self)
        ensures
            out.deep_view() == (ConfigView { schema_version: 1, source: None }),
    {
        Config { schema_version: 1, source: None }
    }
}

impl Default for Config {
    fn default() -> (out: Self)
        ensures
            out.deep_view() == (ConfigView { schema_version: 0, source: None }),
    {
        Config { schema_version: 0, source: None }
    }
}

impl Clone for Config {
    fn clone(&self) -> (out: Self)
        ensures
            out.deep_view() == self.deep_view(),
    {
        Config {
            schema_version: self.schema_version,
            source: match &self.source {
                Some(s) => Some(s.clone()),
                None => None,
            },
        }
    }
}

} // verus!
