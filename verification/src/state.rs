//! What the organization keeps about itself: its configuration and the
//! version of the controller that set it up.

use vstd::prelude::*;

verus! {

/// The view of an optional text.
pub open spec fn optional_text(o: Option<String>) -> Option<Seq<char>> {
    match o {
        Some(s) => Some(s@),
        None => None,
    }
}

/// The organization's name, description and image.
#[derive(Debug, PartialEq, Eq)]
pub struct Config {
    pub name: String,
    pub description: String,
    pub image_url: Option<String>,
}

/// A configuration as plain text.
pub struct ConfigView {
    pub name: Seq<char>,
    pub description: Seq<char>,
    pub image_url: Option<Seq<char>>,
}

impl View for Config {
    type V = ConfigView;

    open spec fn view(&self) -> ConfigView {
        ConfigView {
            name: self.name@,
            description: self.description@,
            image_url: optional_text(self.image_url),
        }
    }
}

impl Clone for Config {
    fn clone(&self) -> (copy: Self)
        ensures
            copy@ == self@,
    {
        let image_url = match &self.image_url {
            Some(url) => Some(url.clone()),
            None => None,
        };
        Config { name: self.name.clone(), description: self.description.clone(), image_url }
    }
}

/// Holds the organization's configuration.
pub struct ConfigStore {
    config: Config,
}

impl View for ConfigStore {
    type V = ConfigView;

    closed spec fn view(&self) -> ConfigView {
        self.config@
    }
}

impl ConfigStore {
    /// A store that holds `config`.
    pub fn new(config: Config) -> (store: Self)
        ensures
            store@ == config@,
    {
        ConfigStore { config }
    }

    /// The configuration in force.
    pub fn get(&self) -> (config: Config)
        ensures
            config@ == self@,
    {
        self.config.clone()
    }

    /// Puts `config` in force, in place of the current configuration.
    pub fn update(&mut self, config: Config)
        ensures
            final(self)@ == config@,
    {
        self.config = config;
    }
}

/// The name under which the controller is registered.
pub const CONTRACT_NAME: &'static str = "crates.io:cw-governance";

/// The version of the controller.
pub const CONTRACT_VERSION: &'static str = "0.1.0";

/// Which controller set the organization up, and in which version.
#[derive(Debug, PartialEq, Eq)]
pub struct ContractVersion {
    pub contract: String,
    pub version: String,
}

/// A controller version as plain text.
pub struct ContractVersionView {
    pub contract: Seq<char>,
    pub version: Seq<char>,
}

impl View for ContractVersion {
    type V = ContractVersionView;

    open spec fn view(&self) -> ContractVersionView {
        ContractVersionView { contract: self.contract@, version: self.version@ }
    }
}

impl Clone for ContractVersion {
    fn clone(&self) -> (copy: Self)
        ensures
            copy@ == self@,
    {
        ContractVersion { contract: self.contract.clone(), version: self.version.clone() }
    }
}

impl ContractVersion {
    /// The version that this library writes into an organization it sets up.
    pub open spec fn current_view() -> ContractVersionView {
        ContractVersionView { contract: CONTRACT_NAME@, version: CONTRACT_VERSION@ }
    }

    /// The version that this library writes into an organization it sets up.
    pub fn current() -> (version: ContractVersion)
        ensures
            version@ == Self::current_view(),
    {
        ContractVersion { contract: CONTRACT_NAME.to_owned(), version: CONTRACT_VERSION.to_owned() }
    }
}

} // verus!
