use ghostnet::banner::frame_padding;
use ghostnet::cli::{Commands, ConfigAction, IdentityAction};
use ghostnet::commands::{
    check_send, dispatch, identity_request, listen_args, resolve_seed, send_args, status_report,
    IdentityError, Route, SendError,
};
use ghostnet::config::{label, Config, EndpointError};
use ghostnet::history::{recent, Entry};

fn s(v: &str) -> String {
    v.to_string()
}

#[test]
fn routes() {
    assert_eq!(dispatch(Commands::Setup), Route::Setup);
    assert_eq!(dispatch(Commands::Info), Route::Info);
    assert_eq!(dispatch(Commands::Doctor), Route::Doctor);
    assert_eq!(dispatch(Commands::Status), Route::Status);
    assert_eq!(dispatch(Commands::History { limit: 5 }), Route::History { limit: 5 });
    assert_eq!(
        dispatch(Commands::Identity { action: IdentityAction::List }),
        Route::IdentityList
    );
    assert_eq!(
        dispatch(Commands::Identity { action: IdentityAction::Remove { name: s("a") } }),
        Route::IdentityRemove { name: s("a") }
    );
    assert_eq!(
        dispatch(Commands::Identity { action: IdentityAction::Create { name: None } }),
        Route::Identity(IdentityAction::Create { name: None })
    );
    assert_eq!(
        dispatch(Commands::Config { action: ConfigAction::Show }),
        Route::Config(ConfigAction::Show)
    );
    assert_eq!(
        dispatch(Commands::Listen { seed: None, endpoint: Some(s("wss://x")) }),
        Route::Listen { seed: None, endpoint: Some(s("wss://x")) }
    );
}

#[test]
fn seeds() {
    assert_eq!(resolve_seed(Some(s("a b")), Some(s("env"))), Some(s("a b")));
    assert_eq!(resolve_seed(Some(s("  ")), Some(s("env"))), Some(s("env")));
    assert_eq!(resolve_seed(None, Some(s(" "))), None);
    assert_eq!(resolve_seed(None, None), None);
}

#[test]
fn send_checks() {
    let big = "x".repeat(64 * 1024 + 1);
    assert_eq!(check_send("0x1", &big, Some(s("seed")), None), Err(SendError::MessageTooLarge));
    let exact = "é".repeat(32 * 1024);
    assert_eq!(check_send("0x1", &exact, Some(s("seed")), None), Ok(s("seed")));
    let over = format!("{exact}a");
    assert_eq!(check_send("0x1", &over, Some(s("seed")), None), Err(SendError::MessageTooLarge));
    assert_eq!(check_send(" ", "hi", Some(s("seed")), None), Err(SendError::EmptyPeer));
    assert_eq!(check_send("0x1", "hi", None, None), Err(SendError::NoIdentity));
    assert_eq!(check_send("0x1", "hi", None, Some(s("env seed"))), Ok(s("env seed")));
    assert_eq!(SendError::MessageTooLarge.message(), "message exceeds the 64 KiB UTF-8 limit");
    assert_eq!(SendError::EmptyPeer.message(), "peer node ID cannot be empty");
}

#[test]
fn bridge_arguments() {
    assert_eq!(send_args(s("0x1"), s("hi"), None), vec![s("send"), s("0x1"), s("hi")]);
    assert_eq!(
        send_args(s("0x1"), s("hi"), Some(s("wss://r"))),
        vec![s("send"), s("0x1"), s("hi"), s("--endpoint"), s("wss://r")]
    );
    assert_eq!(listen_args(None), Ok(vec![s("listen")]));
    assert_eq!(
        listen_args(Some(s("wss://r"))),
        Ok(vec![s("listen"), s("--endpoint"), s("wss://r")])
    );
    assert_eq!(listen_args(Some(s("ws://relay.example"))), Err(EndpointError::NotSecure));
    assert_eq!(listen_args(Some(s("wss://"))), Err(EndpointError::NotAbsolute));
}

#[test]
fn identity_requests() {
    let r = identity_request(&IdentityAction::Create { name: Some(s("me")) }, Some(s("env"))).ok().unwrap();
    assert_eq!(r.args, vec![s("identity-create")]);
    assert_eq!(r.seed, None);
    let r = identity_request(&IdentityAction::Load { seed: Some(s("w1 w2")), name: None }, None).ok().unwrap();
    assert_eq!(r.args, vec![s("identity-load")]);
    assert_eq!(r.seed, Some(s("w1 w2")));
    assert_eq!(
        identity_request(&IdentityAction::Load { seed: None, name: None }, None),
        Err(IdentityError::SeedRequired)
    );
    assert_eq!(
        IdentityError::SeedRequired.message(),
        "a 12-word seed phrase is required (pass it as an argument or set GHOSTNET_SEED)"
    );
    assert_eq!(
        IdentityError::NoSuchLabel(s("wo\"rk")).message(),
        "no identity label named \"wo\\\"rk\""
    );
}

#[test]
fn status() {
    let mut config = Config::new();
    label(&mut config, s("me"), s("0x1"), 5).unwrap();
    let r = status_report(&config, false, Some(s("seed")));
    assert_eq!(r.bridge, "not installed — run `ghostnet setup`");
    assert_eq!(r.endpoint, "SDK default");
    assert_eq!(r.label_count, 1);
    assert_eq!(r.identity, "yes (environment)");
    let r = status_report(&config, true, Some(s(" ")));
    assert_eq!(r.bridge, "installed");
    assert_eq!(r.identity, "no");
}

fn entry(t: u64) -> Entry {
    Entry::new("sent", "0xp", 3, "sent", t)
}

#[test]
fn recent_entries_newest_first() {
    let parsed = vec![Some(entry(1)), None, Some(entry(2)), Some(entry(3)), None];
    let got: Vec<u64> = recent(parsed, 2).iter().map(|e| e.timestamp).collect();
    assert_eq!(got, vec![3, 2]);
    let parsed = vec![Some(entry(1)), None, Some(entry(2))];
    let got: Vec<u64> = recent(parsed, 20).iter().map(|e| e.timestamp).collect();
    assert_eq!(got, vec![2, 1]);
    assert!(recent(vec![Some(entry(1))], 0).is_empty());
    let e = entry(7);
    assert_eq!((e.direction.as_str(), e.peer.as_str(), e.bytes, e.outcome.as_str()), ("sent", "0xp", 3, "sent"));
}

#[test]
fn banner_padding() {
    assert_eq!(frame_padding(""), (23, 24));
    assert_eq!(frame_padding("N 1 1 X   C O L L E C T I V E"), (9, 9));
    assert_eq!(frame_padding("encrypted · decentralized · private"), (6, 6));
    assert_eq!(frame_padding(&"x".repeat(60)), (0, 0));
}
