use vstd::prelude::*;

verus! {

/// The command line: one subcommand.
#[derive(Debug, Clone)]
pub struct Cli {
    pub command: Command,
}

#[derive(Debug, Clone)]
pub enum Command {
    /// Start the keyboard remapping hook.
    Start {
        /// Configuration file path (default: ~/.config/okey/config.yaml).
        config: Option<String>,
        /// Whether to start the process as a daemon.
        daemon: bool,
        systemd: bool,
    },
    /// Utility commands for the systemd service.
    Service { command: SystemdSubcommand },
    /// Utility commands for debugging input devices.
    Device { command: DeviceSubcommand },
}

#[derive(Debug, Clone, Copy, PartialEq, Eq, Structural)]
pub enum SystemdSubcommand {
    Start,
    Stop,
    Restart,
    Status,
    Install,
    Uninstall,
}

#[derive(Debug, Clone, Copy, PartialEq, Eq, Structural)]
pub enum DeviceSubcommand {
    /// List the input devices that support keys.
    List {
        /// Whether to list keyboards only.
        keyboard: bool,
    },
}

} // verus!
