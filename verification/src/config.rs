//! The configuration of the proxy, and what makes one usable.

use crate::error::SlyError;
use crate::target::Target;
use vstd::prelude::*;

verus! {

/// What the proxy is started with.
#[derive(Debug, PartialEq, Eq)]
pub struct AppConfig {
    /// The name of the application.
    pub name: String,
    /// The ports to listen on, in their order.
    pub listen_on: Vec<u16>,
    /// The backend addresses, in their order.
    pub target: Vec<Target>,
}

/// What keeps a configuration from being used.
#[derive(Clone, Copy, Debug, PartialEq, Eq, Structural)]
pub enum ConfigFault {
    /// No port to listen on is named.
    NoListenPort,
    /// A port to listen on is 0, which is no port.
    PortOutOfRange,
    /// No backend is named.
    NoTarget,
}

/// The first fault of a configuration with these ports and this many
/// targets, if it has one. A usable configuration names at least one port,
/// only ports from 1 on, and at least one target.
pub open spec fn config_fault(listen_on: Seq<u16>, targets: nat) -> Option<ConfigFault> {
    if listen_on.len() == 0 {
        Some(ConfigFault::NoListenPort)
    } else if listen_on.contains(0u16) {
        Some(ConfigFault::PortOutOfRange)
    } else if targets == 0 {
        Some(ConfigFault::NoTarget)
    } else {
        None
    }
}

impl ConfigFault {
    /// The text that tells of the fault.
    pub open spec fn text(self) -> Seq<char> {
        match self {
            ConfigFault::NoListenPort => "no port to listen on"@,
            ConfigFault::PortOutOfRange => "port 0 cannot be listened on"@,
            ConfigFault::NoTarget => "Services list can't be 0"@,
        }
    }

    /// Whether `error` is the error that the fault makes at startup: a
    /// missing backend is the error of an empty registry, any other fault
    /// one of the configuration, with the text of the fault.
    pub open spec fn makes(self, error: SlyError) -> bool {
        match self {
            ConfigFault::NoTarget => error == SlyError::RegistryEmpty,
            _ => match error {
                SlyError::Config(text) => text@ == self.text(),
                _ => false,
            },
        }
    }

    /// The error that the fault makes at startup.
    pub fn error(self) -> (error: SlyError)
        ensures
            self.makes(error),
            error.kind_of().is_fatal_kind(),
    {
        match self {
            ConfigFault::NoListenPort => SlyError::Config(String::from_str("no port to listen on")),
            ConfigFault::PortOutOfRange => SlyError::Config(
                String::from_str("port 0 cannot be listened on"),
            ),
            ConfigFault::NoTarget => SlyError::RegistryEmpty,
        }
    }
}

impl AppConfig {
    pub fn ports(&self) -> (ports: &[u16])
        ensures
            ports@ == self.listen_on@,
    {
        self.listen_on.as_slice()
    }

    /// The first fault of the configuration, if it has one.
    pub fn fault(&self) -> (fault: Option<ConfigFault>)
        ensures
            fault == config_fault(self.listen_on@, self.target@.len()),
    {
        if self.listen_on.len() == 0 {
            return Some(ConfigFault::NoListenPort);
        }
        let mut i: usize = 0;
        while i < self.listen_on.len()
            invariant
                i <= self.listen_on.len(),
                forall|k: int| 0 <= k < i ==> self.listen_on@[k] != 0,
            decreases self.listen_on.len() - i,
        {
            if self.listen_on[i] == 0 {
                return Some(ConfigFault::PortOutOfRange);
            }
            i += 1;
        }
        if self.target.len() == 0 {
            Some(ConfigFault::NoTarget)
        } else {
            None
        }
    }

    /// Whether the proxy can start on the configuration; where it cannot,
    /// the error of the first fault.
    pub fn validate(&self) -> (checked: Result<(), SlyError>)
        ensures
            checked is Ok <==> config_fault(self.listen_on@, self.target@.len()) is None,
            checked matches Err(error) ==> error.kind_of().is_fatal_kind() && config_fault(
                self.listen_on@,
                self.target@.len(),
            )->0.makes(error),
    {
        match self.fault() {
            Some(fault) => Err(fault.error()),
            None => Ok(()),
        }
    }
}

} // verus!
