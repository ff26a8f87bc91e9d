//! The decisions behind each command: what runs, which bridge arguments are
//! sent, and what is refused before anything reaches the network.

use vstd::prelude::*;

use crate::cli::{Commands, ConfigAction, IdentityAction};
use crate::config::{unlabelled, validate_endpoint, valid_endpoint, Config, ConfigView, EndpointError};
use crate::text::{blank, debug_quoted, debug_text, has_prefix, is_blank, string_views};

verus! {

broadcast use vstd::string::group_string_axioms;

/// The handler a parsed command runs.
#[derive(Debug, PartialEq, Eq)]
pub enum Route {
    Setup,
    Info,
    /// Create or restore an identity through the bridge.
    Identity(IdentityAction),
    /// List the saved identity labels.
    IdentityList,
    /// Remove a saved identity label.
    IdentityRemove { name: String },
    Config(ConfigAction),
    Doctor,
    Status,
    History { limit: usize },
    Send { peer: String, message: String, seed: Option<String>, endpoint: Option<String> },
    Listen { seed: Option<String>, endpoint: Option<String> },
}

/// Picks the handler of a parsed command; shared by one-shot mode and the
/// interactive shell.
pub fn dispatch(command: Commands) -> (r: Route)
    ensures
        match command {
            Commands::Setup => r == Route::Setup,
            Commands::Info => r == Route::Info,
            Commands::Identity { action } => match action {
                IdentityAction::List => r == Route::IdentityList,
                IdentityAction::Remove { name } => r == (Route::IdentityRemove { name }),
                other => r == Route::Identity(other),
            },
            Commands::Config { action } => r == Route::Config(action),
            Commands::Doctor => r == Route::Doctor,
            Commands::Status => r == Route::Status,
            Commands::History { limit } => r == (Route::History { limit }),
            Commands::Send { peer, message, seed, endpoint } => r == (Route::Send {
                peer,
                message,
                seed,
                endpoint,
            }),
            Commands::Listen { seed, endpoint } => r == (Route::Listen { seed, endpoint }),
        },
{
    match command {
        Commands::Setup => Route::Setup,
        Commands::Info => Route::Info,
        Commands::Identity { action } => match action {
            IdentityAction::List => Route::IdentityList,
            IdentityAction::Remove { name } => Route::IdentityRemove { name },
            other => Route::Identity(other),
        },
        Commands::Config { action } => Route::Config(action),
        Commands::Doctor => Route::Doctor,
        Commands::Status => Route::Status,
        Commands::History { limit } => Route::History { limit },
        Commands::Send { peer, message, seed, endpoint } => Route::Send {
            peer,
            message,
            seed,
            endpoint,
        },
        Commands::Listen { seed, endpoint } => Route::Listen { seed, endpoint },
    }
}

/// The seed phrase in use: the one given on the command line, else the one in
/// `GHOSTNET_SEED`; a blank phrase counts as none.
pub open spec fn chosen_seed(explicit: Option<String>, env: Option<String>) -> Option<String> {
    if explicit is Some && !is_blank(explicit->0@) {
        explicit
    } else if env is Some && !is_blank(env->0@) {
        env
    } else {
        None
    }
}

/// Resolves the seed phrase from the command line and `GHOSTNET_SEED`.
pub fn resolve_seed(explicit: Option<String>, env: Option<String>) -> (r: Option<String>)
    ensures
        r == chosen_seed(explicit, env),
{
    match explicit {
        Some(s) if !blank(s.as_str()) => Some(s),
        _ => match env {
            Some(s) if !blank(s.as_str()) => Some(s),
            _ => None,
        },
    }
}

/// Largest message body, in bytes of UTF-8.
pub const MAX_MESSAGE_BYTES: usize = 65536;

/// Why a message is not sent.
#[derive(Debug, PartialEq, Eq)]
pub enum SendError {
    /// The message is longer than 64 KiB of UTF-8.
    MessageTooLarge,
    /// The peer node ID is blank.
    EmptyPeer,
    /// No seed phrase was given: a temporary identity could not be answered.
    NoIdentity,
}

impl SendError {
    /// The message shown to the user.
    pub fn message(&self) -> (r: &'static str)
        ensures
            r@ == match self {
                SendError::MessageTooLarge => "message exceeds the 64 KiB UTF-8 limit"@,
                SendError::EmptyPeer => "peer node ID cannot be empty"@,
                SendError::NoIdentity =>
                    "an identity is required: set GHOSTNET_SEED or pass --seed; refusing to create an unreachable temporary identity"@,
            },
    {
        match self {
            SendError::MessageTooLarge => "message exceeds the 64 KiB UTF-8 limit",
            SendError::EmptyPeer => "peer node ID cannot be empty",
            SendError::NoIdentity => "an identity is required: set GHOSTNET_SEED or pass --seed; refusing to create an unreachable temporary identity",
        }
    }
}

/// Checks a message before it is sent, in this order: its size, its peer and
/// the identity it is sent from. Returns the seed phrase to send with.
pub fn check_send(peer: &str, message: &str, seed: Option<String>, env_seed: Option<String>) -> (r:
    Result<String, SendError>)
    ensures
        message.len() > MAX_MESSAGE_BYTES ==> r == Err::<String, SendError>(
            SendError::MessageTooLarge,
        ),
        message.len() <= MAX_MESSAGE_BYTES && is_blank(peer@) ==> r == Err::<
            String,
            SendError,
        >(SendError::EmptyPeer),
        message.len() <= MAX_MESSAGE_BYTES && !is_blank(peer@) ==> match chosen_seed(
            seed,
            env_seed,
        ) {
            Some(s) => r == Ok::<String, SendError>(s),
            None => r == Err::<String, SendError>(SendError::NoIdentity),
        },
{
    if message.len() > MAX_MESSAGE_BYTES {
        return Err(SendError::MessageTooLarge);
    }
    if blank(peer) {
        return Err(SendError::EmptyPeer);
    }
    match resolve_seed(seed, env_seed) {
        Some(s) => Ok(s),
        None => Err(SendError::NoIdentity),
    }
}

/// `["--endpoint", e]` when an endpoint is given, else nothing.
pub open spec fn endpoint_args(endpoint: Option<String>) -> Seq<Seq<char>> {
    match endpoint {
        Some(e) => seq!["--endpoint"@, e@],
        None => Seq::empty(),
    }
}

fn push_endpoint(args: &mut Vec<String>, endpoint: Option<String>)
    ensures
        string_views(final(args)@) == string_views(old(args)@) + endpoint_args(endpoint),
{
    match endpoint {
        Some(e) => {
            let ghost before = args@;
            let flag: String = "--endpoint".to_owned();
            let ghost fv = flag@;
            let ghost ev = e@;
            args.push(flag);
            args.push(e);
            assert(string_views(args@) =~= string_views(before) + seq![fv, ev]);
        },
        None => {
            assert(string_views(args@) =~= string_views(args@) + Seq::<Seq<char>>::empty());
        },
    }
}

/// Bridge arguments that send `message` to `peer`, through `endpoint` when given.
pub fn send_args(peer: String, message: String, endpoint: Option<String>) -> (r: Vec<String>)
    ensures
        string_views(r@) == seq!["send"@, peer@, message@] + endpoint_args(endpoint),
{
    let mut args: Vec<String> = Vec::new();
    let ghost pv = peer@;
    let ghost mv = message@;
    args.push("send".to_owned());
    args.push(peer);
    args.push(message);
    assert(string_views(args@) =~= seq!["send"@, pv, mv]);
    push_endpoint(&mut args, endpoint);
    args
}

/// Bridge arguments that listen for messages, through `endpoint` when given.
/// An endpoint override must be a valid `wss://` endpoint; an invalid one is
/// refused before any bridge run exists. No saved default is consulted.
pub fn listen_args(endpoint: Option<String>) -> (r: Result<Vec<String>, EndpointError>)
    ensures
        match endpoint {
            None => r matches Ok(args) && string_views(args@) == seq!["listen"@],
            Some(e) => if valid_endpoint(e@) {
                r matches Ok(args) && string_views(args@) == seq!["listen"@, "--endpoint"@, e@]
            } else {
                r matches Err(err) && (err == EndpointError::NotSecure <==> !has_prefix(
                    e@,
                    "wss://"@,
                ))
            },
        },
{
    if let Some(e) = &endpoint {
        validate_endpoint(e.as_str())?;
    }
    let mut args: Vec<String> = Vec::new();
    args.push("listen".to_owned());
    assert(string_views(args@) =~= seq!["listen"@]);
    push_endpoint(&mut args, endpoint);
    Ok(args)
}

/// A bridge run: its arguments and the seed phrase handed to it through its
/// environment (never its arguments).
#[derive(Debug, PartialEq, Eq)]
pub struct BridgeRequest {
    pub args: Vec<String>,
    pub seed: Option<String>,
}

/// Why an identity command fails.
#[derive(Debug, PartialEq, Eq)]
pub enum IdentityError {
    /// Restoring needs a seed phrase and none was given.
    SeedRequired,
    /// No label is saved under this name.
    NoSuchLabel(String),
}

impl IdentityError {
    /// The message shown to the user.
    pub fn message(&self) -> (r: String)
        ensures
            r@ == match self {
                IdentityError::SeedRequired =>
                    "a 12-word seed phrase is required (pass it as an argument or set GHOSTNET_SEED)"@,
                IdentityError::NoSuchLabel(name) => "no identity label named "@ + debug_quoted(
                    name@,
                ),
            },
    {
        match self {
            IdentityError::SeedRequired => "a 12-word seed phrase is required (pass it as an argument or set GHOSTNET_SEED)".to_owned(),
            IdentityError::NoSuchLabel(name) => {
                let mut m = "no identity label named ".to_owned();
                let quoted = debug_text(name.as_str());
                m.append(quoted.as_str());
                m
            },
        }
    }
}

/// The bridge run that creates or restores an identity.
pub fn identity_request(action: &IdentityAction, env_seed: Option<String>) -> (r: Result<
    BridgeRequest,
    IdentityError,
>)
    requires
        action is Create || action is Load,
    ensures
        match action {
            IdentityAction::Create { .. } => r matches Ok(req) && string_views(req.args@) == seq![
                "identity-create"@,
            ] && req.seed is None,
            IdentityAction::Load { seed, .. } => match chosen_seed(*seed, env_seed) {
                Some(s) => r matches Ok(req) && string_views(req.args@) == seq!["identity-load"@]
                    && req.seed == Some(s),
                None => r == Err::<BridgeRequest, IdentityError>(IdentityError::SeedRequired),
            },
            _ => false,
        },
{
    match action {
        IdentityAction::Create { .. } => {
            let mut args: Vec<String> = Vec::new();
            args.push("identity-create".to_owned());
            assert(string_views(args@) =~= seq!["identity-create"@]);
            Ok(BridgeRequest { args, seed: None })
        },
        IdentityAction::Load { seed, .. } => {
            let seed = resolve_seed(seed.clone(), env_seed);
            if seed.is_none() {
                return Err(IdentityError::SeedRequired);
            }
            let mut args: Vec<String> = Vec::new();
            args.push("identity-load".to_owned());
            assert(string_views(args@) =~= seq!["identity-load"@]);
            Ok(BridgeRequest { args, seed })
        },
        _ => {
            assert(false);
            Err(IdentityError::SeedRequired)
        },
    }
}

/// Removes the identity label `name`; fails when there is none.
pub fn remove(config: &mut Config, name: String) -> (r: Result<(), IdentityError>)
    ensures
        r is Ok <==> old(config)@.labels.contains_key(name@),
        r is Err ==> r == Err::<(), IdentityError>(IdentityError::NoSuchLabel(name)),
        final(config)@ == unlabelled(old(config)@, name@),
{
    match config.remove_label(name.as_str()) {
        Some(_) => Ok(()),
        None => Err(IdentityError::NoSuchLabel(name)),
    }
}

/// What a `config` command did.
#[derive(Debug, PartialEq, Eq)]
pub enum ConfigChange {
    /// Nothing changed; the configuration is to be shown.
    Shown,
    /// The default endpoint is now this one.
    EndpointSet(String),
    /// The default endpoint was cleared.
    EndpointCleared,
}

/// Carries out a `config` command on the configuration. A refused endpoint
/// leaves it unchanged.
pub fn apply_config_action(config: &mut Config, action: ConfigAction) -> (r: Result<
    ConfigChange,
    EndpointError,
>)
    ensures
        match action {
            ConfigAction::Show => r == Ok::<ConfigChange, EndpointError>(ConfigChange::Shown)
                && final(config)@ == old(config)@,
            ConfigAction::SetEndpoint { endpoint } => if valid_endpoint(endpoint@) {
                r == Ok::<ConfigChange, EndpointError>(ConfigChange::EndpointSet(endpoint))
                    && final(config)@ == (ConfigView {
                    endpoint: Some(endpoint@),
                    ..old(config)@
                })
            } else {
                &&& final(config)@ == old(config)@
                &&& r matches Err(e) && (e == EndpointError::NotSecure <==> !has_prefix(
                    endpoint@,
                    "wss://"@,
                ))
            },
            ConfigAction::ClearEndpoint => r == Ok::<ConfigChange, EndpointError>(
                ConfigChange::EndpointCleared,
            ) && final(config)@ == (ConfigView { endpoint: None, ..old(config)@ }),
        },
{
    match action {
        ConfigAction::Show => Ok(ConfigChange::Shown),
        ConfigAction::SetEndpoint { endpoint } => {
            validate_endpoint(endpoint.as_str())?;
            config.set_endpoint(Some(endpoint.clone()));
            Ok(ConfigChange::EndpointSet(endpoint))
        },
        ConfigAction::ClearEndpoint => {
            config.set_endpoint(None);
            Ok(ConfigChange::EndpointCleared)
        },
    }
}

/// What `status` reports.
#[derive(Debug, PartialEq, Eq)]
pub struct StatusReport {
    /// Whether the SDK bridge is installed, in words.
    pub bridge: String,
    /// The default endpoint, or `SDK default`.
    pub endpoint: String,
    /// Number of saved public identity labels.
    pub label_count: usize,
    /// Whether an identity is available from the environment, in words.
    pub identity: String,
}

/// The state of the SDK bridge, in words.
pub open spec fn bridge_state_text(installed: bool) -> Seq<char> {
    if installed {
        "installed"@
    } else {
        "not installed — run `ghostnet setup`"@
    }
}

/// Describes the state of the bridge in words.
pub fn bridge_state(installed: bool) -> (r: &'static str)
    ensures
        r@ == bridge_state_text(installed),
{
    if installed {
        "installed"
    } else {
        "not installed — run `ghostnet setup`"
    }
}

/// The `status` report, given the configuration, whether the SDK is installed
/// and the value of `GHOSTNET_SEED`.
pub fn status_report(config: &Config, bridge_installed: bool, env_seed: Option<String>) -> (r:
    StatusReport)
    ensures
        r.bridge@ == bridge_state_text(bridge_installed),
        r.endpoint@ == match config@.endpoint {
            Some(e) => e,
            None => "SDK default"@,
        },
        r.label_count == config@.labels.len(),
        r.identity@ == if env_seed is Some && !is_blank(env_seed->0@) {
            "yes (environment)"@
        } else {
            "no"@
        },
{
    let loaded = match &env_seed {
        Some(s) => !blank(s.as_str()),
        None => false,
    };
    StatusReport {
        bridge: bridge_state(bridge_installed).to_owned(),
        endpoint: config.endpoint_text(),
        label_count: config.label_count(),
        identity: if loaded {
            "yes (environment)".to_owned()
        } else {
            "no".to_owned()
        },
    }
}

} // verus!
