use ghostnet::bridge::{classify_listen_line, parse_last_json, require_ready, BridgeError, ListenLine};
use ghostnet::location::{bridge_dir, bridge_script, data_dir, history_path, home_dir, path, sdk_package_dir, HomeError};

#[test]
fn readiness() {
    assert_eq!(require_ready(false, false), Err(BridgeError::NotSetUp));
    assert_eq!(require_ready(false, true), Err(BridgeError::NotSetUp));
    assert_eq!(require_ready(true, false), Err(BridgeError::SdkMissing));
    assert_eq!(require_ready(true, true), Ok(()));
    assert_eq!(
        BridgeError::NotSetUp.message(),
        "the GhostNet SDK bridge isn't set up yet — run `ghostnet setup` first"
    );
    assert_eq!(
        BridgeError::SdkMissing.message(),
        "the GhostNet SDK isn't installed yet — run `ghostnet setup` first"
    );
}

#[test]
fn no_output() {
    let e = parse_last_json("\n  \n", "  boom \n").err().unwrap();
    assert_eq!(e, BridgeError::NoOutput { stderr: "boom".into() });
    assert_eq!(e.message(), "the SDK bridge produced no output:\nboom");
    let e = parse_last_json("", " ").err().unwrap();
    assert_eq!(e.message(), "the SDK bridge produced no output");
}

#[test]
fn last_line_is_read() {
    let reply = parse_last_json("{\"event\":\"x\"}\nnoise\n{\"ok\":true,\"nodeId\":\"0xabc\"}\n\n", "")
        .ok()
        .unwrap();
    assert_eq!(reply.field("nodeId"), "0xabc");
    assert_eq!(reply.field("seedPhrase"), "(unknown)");
    let e = parse_last_json("{\"ok\":true}\nnot json\n", "").err().unwrap();
    assert_eq!(e, BridgeError::Unparsable { line: "not json".into() });
    assert_eq!(e.message(), "parsing bridge output: not json");
}

#[test]
fn refused_replies() {
    let e = parse_last_json("{\"ok\":false,\"error\":\"bad peer\"}", "").err().unwrap();
    assert_eq!(e, BridgeError::Reported { message: "bad peer".into() });
    assert_eq!(e.message(), "bad peer");
    let e = parse_last_json("{\"ok\":false}", "").err().unwrap();
    assert_eq!(e.message(), "bridge reported an error");
    assert!(parse_last_json("{\"ok\":\"false\"}", "").is_ok());
    assert!(parse_last_json("[1,2]", "").is_ok());
}

#[test]
fn listen_lines() {
    assert_eq!(classify_listen_line("  "), ListenLine::Blank);
    assert_eq!(classify_listen_line("hello"), ListenLine::Raw("hello".into()));
    assert_eq!(
        classify_listen_line("{\"event\":\"identity\",\"nodeId\":\"0x1\"}"),
        ListenLine::Identity { node_id: "0x1".into() }
    );
    assert_eq!(
        classify_listen_line("{\"event\":\"identity\"}"),
        ListenLine::Identity { node_id: "(unknown)".into() }
    );
    assert_eq!(classify_listen_line("{\"event\":\"connect\"}"), ListenLine::Connected);
    assert_eq!(
        classify_listen_line("{\"event\":\"disconnect\"}"),
        ListenLine::Disconnected { reason: "".into() }
    );
    assert_eq!(
        classify_listen_line("{\"event\":\"message\",\"from\":\"0x2\",\"data\":\"hi\"}"),
        ListenLine::Message { from: "0x2".into(), data: "hi".into() }
    );
    assert_eq!(
        classify_listen_line("{\"event\":\"message\"}"),
        ListenLine::Message { from: "?".into(), data: "".into() }
    );
    assert_eq!(
        classify_listen_line("{\"event\":\"error\"}"),
        ListenLine::Failure { error: "unknown error".into() }
    );
    assert_eq!(
        classify_listen_line("{ \"b\" : 1 , \"a\" : [true] }"),
        ListenLine::Other { rendered: "{\"a\":[true],\"b\":1}".into() }
    );
}

#[test]
fn locations() {
    assert_eq!(home_dir(Some(1), Some(2)), Ok(1));
    assert_eq!(home_dir(None, Some(2)), Ok(2));
    assert_eq!(home_dir::<u8>(None, None), Err(HomeError::NoHome));
    assert_eq!(HomeError::NoHome.message(), "could not determine your home directory");
    assert_eq!(path(None, Some("h")).ok().unwrap().parts, vec![".ghostnet-cli", "config.json"]);
    assert_eq!(data_dir(Some("u"), Some("h")).ok().unwrap().base, "u");
    assert_eq!(data_dir(Some("u"), None).ok().unwrap().parts, vec![".ghostnet-cli"]);
    assert_eq!(history_path(Some("u"), None).ok().unwrap().parts, vec![".ghostnet-cli", "history.ndjson"]);
    assert_eq!(bridge_dir(Some("u"), None).ok().unwrap().parts, vec![".ghostnet-cli", "bridge"]);
    assert_eq!(
        bridge_script(Some("u"), None).ok().unwrap().parts,
        vec![".ghostnet-cli", "bridge", "ghostnet-bridge.mjs"]
    );
    assert_eq!(
        sdk_package_dir(Some("u"), None).ok().unwrap().parts,
        vec![".ghostnet-cli", "bridge", "node_modules", "@n11x", "ghostnet-sdk"]
    );
    assert!(bridge_script::<u8>(None, None).is_err());
}
