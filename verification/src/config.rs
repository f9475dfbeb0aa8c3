//! Deployment settings and the environment they select.
//!
//! Reading the process environment is the caller's part; the values arrive
//! here as plain text and numbers.

use crate::encoding::text_eq;
use crate::eth::{address_from_text, address_of_text};
use vstd::prelude::*;
use vstd::string::*;

verus! {

/// The deployment environment a wallet instance runs in.
#[derive(Debug, Clone, Copy, PartialEq, Eq, Structural)]
pub enum Environment {
    Test,
    Production,
}

/// Why settings were refused.
#[derive(Debug, Clone, Copy, PartialEq, Eq, Structural)]
pub enum ConfigError {
    /// The token contract's address does not spell an address.
    InvalidContractAddress,
}

/// The settings of one deployment.
pub struct Settings {
    /// The environment's name; `prod` selects production.
    pub environment: String,
    /// The port the request surface listens on.
    pub port: u16,
    /// The node's endpoint.
    pub rpc_url: String,
    /// The address the event bus binds.
    pub publisher_bind_address: String,
    /// The watched token contract.
    pub usdt_contract_address: [u8; 20],
    /// The vault's passphrase.
    pub wallet_pw: String,
    /// The derivation path below which addresses are allocated.
    pub derivation_path: String,
}

/// The environment that a name selects: production for `prod`, test for
/// anything else.
pub open spec fn environment_named(name: Seq<char>) -> Environment {
    if name == "prod"@ {
        Environment::Production
    } else {
        Environment::Test
    }
}

impl Environment {
    /// The short label of the environment.
    pub open spec fn label(self) -> Seq<char> {
        match self {
            Environment::Test => "test"@,
            Environment::Production => "prod"@,
        }
    }

    /// Returns the short label used to pick the settings file.
    pub fn as_str(&self) -> (label: &'static str)
        ensures
            label@ == self.label(),
    {
        match self {
            Environment::Test => "test",
            Environment::Production => "prod",
        }
    }

    /// The environment that the variable `ENV` selects: production for
    /// `prod`; test for any other value and where the variable is not set.
    pub fn from_env(value: Option<&str>) -> (environment: Self)
        ensures
            environment == (match value {
                Some(name) => environment_named(name@),
                None => Environment::Test,
            }),
    {
        match value {
            Some(name) => if text_eq(name, "prod") {
                Environment::Production
            } else {
                Environment::Test
            },
            None => Environment::Test,
        }
    }

    /// The name of the file that holds the settings of this environment.
    pub fn env_file_name(&self) -> (name: String)
        ensures
            name@ == ".env."@ + self.label(),
    {
        String::from_str(".env.").concat(self.as_str())
    }
}

impl ConfigError {
    /// A one-line description of the error.
    pub open spec fn text(self) -> Seq<char> {
        match self {
            ConfigError::InvalidContractAddress => "token contract address is not an address"@,
        }
    }

    /// A one-line description of the error.
    pub fn message(&self) -> (text: &'static str)
        ensures
            text@ == self.text(),
    {
        match self {
            ConfigError::InvalidContractAddress => "token contract address is not an address",
        }
    }
}

impl Settings {
    /// Settings from their plain values. Fails exactly when
    /// `usdt_contract_address` does not spell an address.
    pub fn new(
        environment: &str,
        port: u16,
        rpc_url: &str,
        publisher_bind_address: &str,
        usdt_contract_address: &str,
        wallet_pw: &str,
        derivation_path: &str,
    ) -> (settings: Result<Settings, ConfigError>)
        ensures
            settings is Ok <==> address_of_text(usdt_contract_address@) is Some,
            settings matches Ok(s) ==> {
                &&& s.environment@ == environment@
                &&& s.port == port
                &&& s.rpc_url@ == rpc_url@
                &&& s.publisher_bind_address@ == publisher_bind_address@
                &&& Some(s.usdt_contract_address@) == address_of_text(usdt_contract_address@)
                &&& s.wallet_pw@ == wallet_pw@
                &&& s.derivation_path@ == derivation_path@
            },
            settings matches Err(e) ==> e == ConfigError::InvalidContractAddress,
    {
        match address_from_text(usdt_contract_address) {
            Some(contract) => Ok(
                Settings {
                    environment: String::from_str(environment),
                    port,
                    rpc_url: String::from_str(rpc_url),
                    publisher_bind_address: String::from_str(publisher_bind_address),
                    usdt_contract_address: contract,
                    wallet_pw: String::from_str(wallet_pw),
                    derivation_path: String::from_str(derivation_path),
                },
            ),
            None => Err(ConfigError::InvalidContractAddress),
        }
    }

    /// The environment that the settings name.
    pub fn environment(&self) -> (environment: Environment)
        ensures
            environment == environment_named(self.environment@),
    {
        if text_eq(self.environment.as_str(), "prod") {
            Environment::Production
        } else {
            Environment::Test
        }
    }
}

/// The environment that `settings` name.
pub fn environment(settings: &Settings) -> (environment: Environment)
    ensures
        environment == environment_named(settings.environment@),
{
    settings.environment()
}

/// The node's endpoint.
pub fn rpc_url(settings: &Settings) -> (url: &str)
    ensures
        url@ == settings.rpc_url@,
{
    settings.rpc_url.as_str()
}

/// The watched token contract.
pub fn usdt_contract_address(settings: &Settings) -> (contract: [u8; 20])
    ensures
        contract == settings.usdt_contract_address,
{
    settings.usdt_contract_address
}

/// The vault's passphrase.
pub fn wallet_pw(settings: &Settings) -> (password: &str)
    ensures
        password@ == settings.wallet_pw@,
{
    settings.wallet_pw.as_str()
}

/// The port the request surface listens on.
pub fn port(settings: &Settings) -> (port: u16)
    ensures
        port == settings.port,
{
    settings.port
}

/// The address the event bus binds.
pub fn publisher_bind_address(settings: &Settings) -> (address: &str)
    ensures
        address@ == settings.publisher_bind_address@,
{
    settings.publisher_bind_address.as_str()
}

/// The derivation path below which addresses are allocated.
pub fn derivation_path(settings: &Settings) -> (path: &str)
    ensures
        path@ == settings.derivation_path@,
{
    settings.derivation_path.as_str()
}

} // verus!
