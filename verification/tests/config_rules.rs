use ghostnet::commands::{apply_config_action, remove, ConfigChange, IdentityError};
use ghostnet::cli::ConfigAction;
use ghostnet::config::{
    config_version, endpoint, label, less_text, validate_endpoint, Config, EndpointError,
    IdentityLabel, LabelError,
};

#[test]
fn only_secure_endpoints_are_accepted() {
    assert!(validate_endpoint("wss://relay.example/path").is_ok());
    assert!(validate_endpoint("ws://relay.example").is_err());
    assert!(validate_endpoint("wss:///missing-host").is_err());
}

#[test]
fn endpoint_errors_say_why() {
    assert_eq!(validate_endpoint("http://x"), Err(EndpointError::NotSecure));
    assert_eq!(validate_endpoint("wss://"), Err(EndpointError::NotAbsolute));
    assert_eq!(validate_endpoint("wss://relay#frag"), Err(EndpointError::NotAbsolute));
    assert_eq!(validate_endpoint("wss://relay .example"), Err(EndpointError::NotAbsolute));
    assert_eq!(validate_endpoint("wss://relay\u{3000}x"), Err(EndpointError::NotAbsolute));
    assert_eq!(validate_endpoint("WSS://relay"), Err(EndpointError::NotSecure));
    assert_eq!(validate_endpoint("wss://relay.example:443"), Ok(()));
    assert_eq!(EndpointError::NotSecure.message(), "endpoint must start with wss://");
    assert_eq!(
        EndpointError::NotAbsolute.message(),
        "endpoint must be an absolute wss:// URL without a fragment"
    );
}

#[test]
fn override_endpoint_wins_and_is_checked() {
    assert_eq!(endpoint(None, None), Ok(None));
    assert_eq!(
        endpoint(Some("wss://a".to_string()), Some("wss://b".to_string())),
        Ok(Some("wss://a".to_string()))
    );
    assert_eq!(
        endpoint(None, Some("wss://b".to_string())),
        Ok(Some("wss://b".to_string()))
    );
    assert_eq!(
        endpoint(Some("ws://a".to_string()), Some("wss://b".to_string())),
        Err(EndpointError::NotSecure)
    );
    assert_eq!(endpoint(None, Some("wss://".to_string())), Err(EndpointError::NotAbsolute));
}

#[test]
fn default_version_is_one() {
    assert_eq!(config_version(), 1);
    assert_eq!(Config::default().version(), 0);
}

fn names(config: &Config) -> Vec<String> {
    config.labels().into_iter().map(|(n, _)| n).collect()
}

#[test]
fn labels_are_saved_and_listed_in_order() {
    let mut config = Config::new();
    assert_eq!(label(&mut config, "zed".into(), "0x3".into(), 30), Ok(()));
    assert_eq!(label(&mut config, "alice".into(), "0x1".into(), 10), Ok(()));
    assert_eq!(label(&mut config, "Bob".into(), "0x2".into(), 20), Ok(()));
    assert_eq!(label(&mut config, "ärger".into(), "0x4".into(), 40), Ok(()));
    assert_eq!(label(&mut config, "alice".into(), "0x9".into(), 90), Ok(()));
    assert_eq!(config.label_count(), 4);
    let mut expected: std::collections::BTreeMap<String, u64> = std::collections::BTreeMap::new();
    for (n, t) in [("zed", 30), ("alice", 90), ("Bob", 20), ("ärger", 40)] {
        expected.insert(n.to_string(), t);
    }
    let listed = config.labels();
    let got: Vec<(String, u64)> = listed.iter().map(|(n, l)| (n.clone(), l.created_at)).collect();
    let want: Vec<(String, u64)> = expected.into_iter().collect();
    assert_eq!(got, want);
    assert_eq!(listed[1].1.node_id, "0x9");
}

#[test]
fn blank_labels_are_refused() {
    let mut config = Config::new();
    assert_eq!(label(&mut config, "  \t".into(), "0x1".into(), 1), Err(LabelError::EmptyLabel));
    assert_eq!(label(&mut config, "".into(), "0x1".into(), 1), Err(LabelError::EmptyLabel));
    assert_eq!(label(&mut config, "\u{a0}".into(), "0x1".into(), 1), Err(LabelError::EmptyLabel));
    assert_eq!(config.label_count(), 0);
    assert_eq!(LabelError::EmptyLabel.message(), "identity label cannot be empty");
}

#[test]
fn removing_labels() {
    let mut config = Config::new();
    config.insert_label("a".into(), IdentityLabel { node_id: "0xa".into(), created_at: 1 });
    config.insert_label("b".into(), IdentityLabel { node_id: "0xb".into(), created_at: 2 });
    assert_eq!(remove(&mut config, "a".into()), Ok(()));
    assert_eq!(names(&config), vec!["b".to_string()]);
    assert_eq!(
        remove(&mut config, "a".into()),
        Err(IdentityError::NoSuchLabel("a".to_string()))
    );
    let removed = config.remove_label("b");
    assert_eq!(removed.map(|l| l.node_id), Some("0xb".to_string()));
    assert_eq!(config.label_count(), 0);
}

#[test]
fn text_order_matches_string_order() {
    let words = ["", "a", "ab", "b", "B", "é", "z", "\u{1F47B}", "ghost", "ghostnet", "Ä"];
    for a in words {
        for b in words {
            assert_eq!(less_text(a, b), a < b, "{a:?} < {b:?}");
        }
    }
}

#[test]
fn config_actions_change_the_endpoint() {
    let mut config = Config::new();
    assert_eq!(apply_config_action(&mut config, ConfigAction::Show), Ok(ConfigChange::Shown));
    assert_eq!(config.endpoint_text(), "SDK default");
    assert_eq!(
        apply_config_action(
            &mut config,
            ConfigAction::SetEndpoint { endpoint: "wss://relay.example".into() }
        ),
        Ok(ConfigChange::EndpointSet("wss://relay.example".into()))
    );
    assert_eq!(config.endpoint(), Some("wss://relay.example".to_string()));
    assert_eq!(config.endpoint_text(), "wss://relay.example");
    assert_eq!(
        apply_config_action(&mut config, ConfigAction::SetEndpoint { endpoint: "ws://x".into() }),
        Err(EndpointError::NotSecure)
    );
    assert_eq!(config.endpoint(), Some("wss://relay.example".to_string()));
    assert_eq!(
        apply_config_action(&mut config, ConfigAction::ClearEndpoint),
        Ok(ConfigChange::EndpointCleared)
    );
    assert_eq!(config.endpoint(), None);
}

#[test]
fn settings_constructor() {
    let config = Config::with_settings(1, Some("wss://x".into()));
    assert_eq!(config.version(), 1);
    assert_eq!(config.endpoint().as_deref(), Some("wss://x"));
    assert_eq!(config.label_count(), 0);
}

#[test]
fn labels_rebuild_the_same_configuration() {
    let mut config = Config::with_settings(1, Some("wss://relay".into()));
    label(&mut config, "zed".into(), "0x3".into(), 30).unwrap();
    label(&mut config, "alice".into(), "0x1".into(), 10).unwrap();
    let rebuilt = Config::from_labels(config.version(), config.endpoint(), config.labels());
    let flat = |c: &Config| -> Vec<(String, String, u64)> {
        c.labels().into_iter().map(|(n, l)| (n, l.node_id, l.created_at)).collect()
    };
    assert_eq!(flat(&rebuilt), flat(&config));
    assert_eq!(rebuilt.version(), 1);
    assert_eq!(rebuilt.endpoint(), Some("wss://relay".to_string()));
    // A later label of the same name wins; order of the input does not matter.
    let unordered = vec![
        ("b".to_string(), IdentityLabel { node_id: "0x1".into(), created_at: 1 }),
        ("a".to_string(), IdentityLabel { node_id: "0x2".into(), created_at: 2 }),
        ("b".to_string(), IdentityLabel { node_id: "0x3".into(), created_at: 3 }),
    ];
    let c = Config::from_labels(0, None, unordered);
    assert_eq!(flat(&c), vec![("a".into(), "0x2".into(), 2), ("b".into(), "0x3".into(), 3)]);
}
