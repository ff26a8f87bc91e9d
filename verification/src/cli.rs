//! The commands the client understands, as parsed from its command line.

use vstd::prelude::*;

verus! {

/// GhostNet CLI — encrypted mesh network client by the N11X Collective.
#[derive(Debug, Clone, PartialEq, Eq)]
pub struct Cli {
    /// Disable colored output.
    pub no_color: bool,
    /// The command to run; none enters the interactive shell.
    pub command: Option<Commands>,
}

/// A top-level command.
#[allow(inconsistent_fields)]
#[derive(Debug, Clone, PartialEq, Eq)]
pub enum Commands {
    /// Install the GhostNet SDK bridge (runs `npm install @n11x/ghostnet-sdk`).
    Setup,
    /// Show CLI / SDK status and N11X Collective info.
    Info,
    /// Show local installation and configuration diagnostics.
    Doctor,
    /// Show the configured endpoint, identities, and SDK readiness.
    Status,
    /// Manage non-secret local CLI configuration.
    Config { action: ConfigAction },
    /// Print locally recorded message metadata (never message bodies).
    History { limit: usize },
    /// Create or restore a GhostNet identity.
    Identity { action: IdentityAction },
    /// Send an end-to-end encrypted message to a peer.
    Send { peer: String, message: String, seed: Option<String>, endpoint: Option<String> },
    /// Connect to the mesh and stream incoming messages.
    Listen { seed: Option<String>, endpoint: Option<String> },
}

/// What to do with identities.
#[allow(inconsistent_fields)]
#[derive(Debug, Clone, PartialEq, Eq)]
pub enum IdentityAction {
    /// Generate a brand-new identity, optionally saving its public node ID
    /// under a local label.
    Create { name: Option<String> },
    /// Restore an identity from a 12-word seed phrase (or `GHOSTNET_SEED`),
    /// optionally saving its public node ID under a local label.
    Load { seed: Option<String>, name: Option<String> },
    /// List locally saved public identity labels.
    List,
    /// Remove a local public identity label (not the network identity).
    Remove { name: String },
}

/// What to do with the configuration.
#[derive(Debug, Clone, PartialEq, Eq)]
pub enum ConfigAction {
    /// Print the current non-secret configuration.
    Show,
    /// Save the default relay endpoint (must be wss://).
    SetEndpoint { endpoint: String },
    /// Clear the default endpoint and use the SDK default.
    ClearEndpoint,
}

/// Number of history entries shown when no limit is given.
pub const DEFAULT_HISTORY_LIMIT: usize = 20;

} // verus!
