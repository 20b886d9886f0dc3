//! The rules that a configuration file's entries must follow.

use vstd::prelude::*;

verus! {

/// One account to log in with.
#[derive(Debug)]
pub struct ConfigItem {
    pub username: String,
    pub password: String,
    pub host: String,
    pub ip: Option<String>,
    pub interface: Option<String>,
}

/// Why a configuration was refused.
#[derive(Debug, Clone, Copy, PartialEq, Eq, Structural)]
pub enum ConfigError {
    EmptyUsername,
    EmptyPassword,
    EmptyHost,
    BothIpAndInterface,
    NeitherIpNorInterface,
}

/// The first rule that `item` breaks, in a configuration of `count` entries:
/// the user name, password and host must not be empty, at most one of `ip`
/// and `interface` may be given, and with more than one entry one of them
/// must be.
pub open spec fn item_error(item: ConfigItem, count: nat) -> Option<ConfigError> {
    if item.username@.len() == 0 {
        Some(ConfigError::EmptyUsername)
    } else if item.password@.len() == 0 {
        Some(ConfigError::EmptyPassword)
    } else if item.host@.len() == 0 {
        Some(ConfigError::EmptyHost)
    } else if item.ip is Some && item.interface is Some {
        Some(ConfigError::BothIpAndInterface)
    } else if item.ip is None && item.interface is None && count > 1 {
        Some(ConfigError::NeitherIpNorInterface)
    } else {
        None
    }
}

/// The message that reports a configuration error.
pub open spec fn error_message(e: ConfigError) -> Seq<char> {
    match e {
        ConfigError::EmptyUsername => "Empty username."@,
        ConfigError::EmptyPassword => "Empty password."@,
        ConfigError::EmptyHost => "Empty host."@,
        ConfigError::BothIpAndInterface => "Both ip and interface are specified."@,
        ConfigError::NeitherIpNorInterface => "Neither ip nor interface is specified."@,
    }
}

impl ConfigError {
    /// The message that reports the error.
    pub fn message(&self) -> (text: &'static str)
        ensures
            text@ == error_message(*self),
    {
        match self {
            ConfigError::EmptyUsername => "Empty username.",
            ConfigError::EmptyPassword => "Empty password.",
            ConfigError::EmptyHost => "Empty host.",
            ConfigError::BothIpAndInterface => "Both ip and interface are specified.",
            ConfigError::NeitherIpNorInterface => "Neither ip nor interface is specified.",
        }
    }
}

fn item_check(item: &ConfigItem, count: usize) -> (r: Option<ConfigError>)
    ensures
        r == item_error(*item, count as nat),
{
    if item.username.as_str().is_empty() {
        Some(ConfigError::EmptyUsername)
    } else if item.password.as_str().is_empty() {
        Some(ConfigError::EmptyPassword)
    } else if item.host.as_str().is_empty() {
        Some(ConfigError::EmptyHost)
    } else if item.ip.is_some() && item.interface.is_some() {
        Some(ConfigError::BothIpAndInterface)
    } else if item.ip.is_none() && item.interface.is_none() && count > 1 {
        Some(ConfigError::NeitherIpNorInterface)
    } else {
        None
    }
}

/// Checks every entry in order and reports the first rule broken.
pub fn validate_config(config: &[ConfigItem]) -> (r: Result<(), ConfigError>)
    ensures
        r is Ok <==> forall|i: int|
            0 <= i < config@.len() ==> (#[trigger] item_error(config@[i], config@.len())) is None,
        r matches Err(e) ==> exists|i: int|
            0 <= i < config@.len() && item_error(config@[i], config@.len()) == Some(e) && forall|
                j: int,
            |
                0 <= j < i ==> (#[trigger] item_error(config@[j], config@.len())) is None,
{
    let count = config.len();
    let mut i: usize = 0;
    while i < count
        invariant
            count == config@.len(),
            i <= count,
            forall|j: int| 0 <= j < i ==> (#[trigger] item_error(config@[j], count as nat)) is None,
        decreases count - i,
    {
        if let Some(e) = item_check(&config[i], count) {
            return Err(e);
        }
        i = i + 1;
    }
    Ok(())
}

} // verus!
