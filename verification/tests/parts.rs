use std::path::PathBuf;

use azalea_reflection_proxy::builder::{admits, ConfigError, ProxyBuilder};
use azalea_reflection_proxy::clock::{elapsed_millis, remaining, remaining_ticks};
use azalea_reflection_proxy::local_server::{
    Intention, LocalError, LocalLogin, LocalPacket, LocalReply, LocalStep,
};
use azalea_reflection_proxy::plugin::{decide, Frame, Pipeline, ProxyPlugin, Verdict};
use azalea_reflection_proxy::table::Table;
use azalea_reflection_proxy::text::{
    equal, parse_port, rsplit_once, same, split_once, starts_with, trim,
};
use azalea_reflection_proxy::upstream::{
    auth_cache_file, UpstreamLogin, UpstreamPacket, UpstreamStep,
};

fn builder() -> ProxyBuilder {
    ProxyBuilder::default().email("me@example.com")
}

#[test]
fn defaults_stay_on_the_loopback() {
    let config = builder().into_config().ok().unwrap();
    assert_eq!(config.local.bind, "127.0.0.1:25566");
    assert_eq!(config.upstream.host, "localhost");
    assert_eq!(config.upstream.port, 25565);
    assert_eq!(config.upstream.email, "me@example.com");
    assert_eq!(config.upstream.auth_cache, None);
    assert!(config.pipeline.plugins.is_empty());
    assert!(config.whitelist.is_empty());
    assert_eq!(config.opts.max_clients, None);
    assert!(!config.opts.always_first_control);
    assert_eq!(config.max_pending_handshakes, None);
}

#[test]
fn an_email_is_required() {
    assert_eq!(
        ProxyBuilder::default().into_config().err(),
        Some(ConfigError::EmailRequired)
    );
}

#[test]
fn every_option_is_taken() {
    let config = builder()
        .bind("127.0.0.1:0")
        .auth_cache(PathBuf::from("/tmp/cache.json"))
        .plugin(Box::new(Silent))
        .plugin(Box::new(Silent))
        .whitelist(&["Ann", "Ben"])
        .max_clients(4)
        .max_pending_handshakes(9)
        .always_first_control(true)
        .into_config()
        .ok()
        .unwrap();
    assert_eq!(config.local.bind, "127.0.0.1:0");
    assert_eq!(config.upstream.auth_cache, Some(PathBuf::from("/tmp/cache.json")));
    assert_eq!(config.pipeline.plugins.len(), 2);
    assert_eq!(config.whitelist, vec!["Ann".to_string(), "Ben".to_string()]);
    assert_eq!(config.opts.max_clients, Some(4));
    assert!(config.opts.always_first_control);
    assert_eq!(config.max_pending_handshakes, Some(9));
}

#[test]
fn targets_may_name_a_port() {
    let cases = [
        ("mc.hypixel.net", "mc.hypixel.net", 25565),
        ("example.com:1234", "example.com", 1234),
        ("example.com:+80", "example.com", 80),
        ("example.com:65535", "example.com", 65535),
        ("example.com:65536", "example.com:65536", 25565),
        ("example.com:", "example.com:", 25565),
        ("example.com:x", "example.com:x", 25565),
        ("a:b:7", "a:b", 7),
        (":9", "", 9),
    ];
    for (target, host, port) in cases {
        let config = builder().target(target).into_config().ok().unwrap();
        assert_eq!((config.upstream.host.as_str(), config.upstream.port), (host, port));
    }
    let config = builder().target("a:7").target("b").into_config().ok().unwrap();
    assert_eq!((config.upstream.host.as_str(), config.upstream.port), ("b", 7));
}

#[test]
fn the_whitelist_ignores_case() {
    let list = vec!["Ann".to_string(), "Ben".to_string()];
    assert!(admits(&list, "aNN"));
    assert!(admits(&list, "Ben"));
    assert!(!admits(&list, "Anna"));
    assert!(admits(&vec![], "anyone"));
}

#[test]
fn texts_are_compared_and_cut() {
    assert!(same("HeLLo", "hEllO"));
    assert!(!same("hello", "hell"));
    assert!(!same("[", "{"));
    // Only ASCII letters have two cases here.
    assert!(!same("\u{e4}", "\u{c4}"));
    assert!(equal("abc", "abc") && !equal("abc", "abC") && !equal("ab", "abc"));
    assert!(starts_with(",x", ',') && !starts_with("x,", ',') && !starts_with("", ','));
    for text in ["  a b \t", "", "   ", "\u{3000}x\u{a0}", "x", "\u{200b}x\n", "\u{85}y\u{2029}"] {
        assert_eq!(trim(text), text.trim());
    }
    for text in ["a b c", " ", "abc", "", "x "] {
        assert_eq!(split_once(text, ' '), text.split_once(' '));
        assert_eq!(rsplit_once(text, ' '), text.rsplit_once(' '));
    }
    let ports = [
        "0", "80", "+80", "65535", "65536", "99999999999999999999", "-1", "", "+", "8a", "++1",
    ];
    for text in ports {
        assert_eq!(parse_port(text), text.parse::<u16>().ok());
    }
}

#[test]
fn time_runs_out_in_ticks() {
    assert_eq!(elapsed_millis(5, 5), 0);
    assert_eq!(elapsed_millis(9, 5), 0);
    assert_eq!(elapsed_millis(0, 1_999_999), 1);
    assert_eq!(remaining(10, 3), 7);
    assert_eq!(remaining(10, 30), 0);
    assert_eq!(remaining_ticks(0, 100), 100);
    assert_eq!(remaining_ticks(49, 100), 100);
    assert_eq!(remaining_ticks(50, 100), 99);
    assert_eq!(remaining_ticks(u64::MAX, 100), 0);
    assert_eq!(remaining_ticks(u64::MAX, u64::MAX), u64::MAX - 368934881474191032);
}

#[test]
fn tables_walk_in_the_order_of_their_keys() {
    let mut t: Table<String, u32> = Table::new();
    for (k, v) in [("b", 1), ("a", 2), ("c", 3), ("b", 4), ("\u{e4}", 5), ("ab", 6)] {
        t.insert(k.to_string(), v);
    }
    let keys: Vec<&str> = (0..t.len()).map(|i| t.key_at(i).as_str()).collect();
    assert_eq!(keys, vec!["a", "ab", "b", "c", "\u{e4}"]);
    assert_eq!(*t.value_at(2), 4);
    assert_eq!(t.get(&"b".to_string()), Some(&4));
    assert_eq!(t.remove(&"b".to_string()), Some(4));
    assert_eq!(t.remove(&"b".to_string()), None);
    assert!(!t.contains(&"b".to_string()) && t.contains(&"c".to_string()));
    t.clear();
    assert_eq!(t.len(), 0);
}

struct Silent;

impl ProxyPlugin for Silent {
    fn name(&self) -> &'static str {
        "silent"
    }
}

struct Dropper;

impl ProxyPlugin for Dropper {
    fn name(&self) -> &'static str {
        "dropper"
    }

    fn on_clientbound(&self, frame: &Frame) -> Verdict {
        if frame.packet_id == 1 {
            Verdict::Drop
        } else {
            Verdict::Forward
        }
    }
}

struct Renamer;

impl ProxyPlugin for Renamer {
    fn name(&self) -> &'static str {
        "renamer"
    }

    fn on_clientbound(&self, frame: &Frame) -> Verdict {
        Verdict::Replace(vec![
            Frame { packet_id: frame.packet_id + 10, body: vec![] },
            Frame { packet_id: frame.packet_id + 20, body: vec![] },
        ])
    }
}

fn packet(packet_id: u32) -> Frame {
    Frame { packet_id, body: vec![] }
}

#[test]
fn the_first_plugin_that_does_not_forward_decides() {
    let none = Pipeline { plugins: vec![] };
    assert_eq!(none.clientbound(packet(1)), vec![packet(1)]);
    assert_eq!(none.serverbound(packet(1)), vec![packet(1)]);
    let both = Pipeline {
        plugins: vec![Box::new(Silent), Box::new(Dropper), Box::new(Renamer)],
    };
    assert_eq!(both.clientbound(packet(1)), vec![]);
    assert_eq!(both.clientbound(packet(2)), vec![packet(12), packet(22)]);
    // Hooks that are not overridden forward.
    assert_eq!(both.serverbound(packet(1)), vec![packet(1)]);
    let swapped = Pipeline { plugins: vec![Box::new(Renamer), Box::new(Dropper)] };
    assert_eq!(swapped.clientbound(packet(1)), vec![packet(11), packet(21)]);
}

/// Gives one verdict on what comes from the controller, and drops what comes
/// from the server.
struct Scripted(Option<Vec<Frame>>, bool);

impl ProxyPlugin for Scripted {
    fn name(&self) -> &'static str {
        "scripted"
    }

    fn on_clientbound(&self, _frame: &Frame) -> Verdict {
        Verdict::Drop
    }

    fn on_serverbound(&self, frame: &Frame) -> Verdict {
        assert!(self.1, "asked although another plugin has decided");
        assert_eq!(frame, &Frame { packet_id: 9, body: vec![1] });
        match &self.0 {
            Some(frames) => Verdict::Replace(frames.clone()),
            None => Verdict::Forward,
        }
    }
}

#[test]
fn serverbound_frames_meet_the_serverbound_hooks_in_order() {
    let replacement = vec![
        Frame { packet_id: 1, body: vec![7] },
        Frame { packet_id: 2, body: vec![] },
    ];
    let pipeline = Pipeline {
        plugins: vec![
            Box::new(Scripted(None, true)),
            Box::new(Scripted(Some(replacement.clone()), true)),
            Box::new(Scripted(Some(vec![]), false)),
        ],
    };
    let frame = Frame { packet_id: 9, body: vec![1] };
    assert_eq!(pipeline.serverbound(frame.clone()), replacement);
    assert_eq!(pipeline.clientbound(frame), vec![]);
}

#[test]
fn verdicts_are_applied_in_turn() {
    assert_eq!(decide(packet(1), vec![]), vec![packet(1)]);
    assert_eq!(
        decide(packet(1), vec![Verdict::Forward, Verdict::Replace(vec![]), Verdict::Drop]),
        vec![]
    );
    assert_eq!(
        decide(packet(1), vec![Verdict::Forward, Verdict::Replace(vec![packet(2)])]),
        vec![packet(2)]
    );
}

fn intention(intention: Intention, protocol_version: i32) -> LocalPacket {
    LocalPacket::Intention { intention, protocol_version }
}

fn next(step: LocalStep) -> (LocalLogin, LocalReply) {
    match step {
        LocalStep::Next { login, reply } => (login, reply),
        other => panic!("expected the login to go on, got {other:?}"),
    }
}

#[test]
fn a_local_login_succeeds() {
    let (login, reply) = next(LocalLogin::new().step(intention(Intention::Login, 770), 770));
    assert_eq!(reply, LocalReply::Nothing);
    let hello = LocalPacket::Hello { name: "bot".to_string(), profile_id: 9 };
    let (login, reply) = next(login.step(hello, 770));
    assert_eq!(reply, LocalReply::LoginFinished);
    assert_eq!(
        login.step(LocalPacket::LoginAcknowledged, 770),
        LocalStep::Done { username: "bot".to_string(), uuid: 9 }
    );
}

#[test]
fn local_logins_fail_for_a_reason() {
    let failed = |error| LocalStep::Failed { error, reply: LocalReply::Nothing };
    assert_eq!(
        LocalLogin::new().step(intention(Intention::Login, 769), 770),
        failed(LocalError::ProtocolVersion { client: 769 })
    );
    assert_eq!(
        LocalLogin::new().step(intention(Intention::Transfer, 770), 770),
        failed(LocalError::Transfer)
    );
    assert_eq!(
        LocalLogin::new().step(LocalPacket::Other, 770),
        failed(LocalError::ExpectedIntention)
    );
    assert_eq!(
        LocalLogin::Hello.step(LocalPacket::Other, 770),
        failed(LocalError::ExpectedHello)
    );
    assert_eq!(
        LocalLogin::Acknowledge { username: "bot".to_string(), uuid: 9 }
            .step(LocalPacket::Other, 770),
        failed(LocalError::ExpectedLoginAcknowledged)
    );
}

#[test]
fn status_requests_of_any_version_are_answered() {
    let (login, _) = next(LocalLogin::new().step(intention(Intention::Status, 1), 770));
    let (login, reply) = next(login.step(LocalPacket::StatusRequest, 770));
    assert_eq!(reply, LocalReply::Status);
    assert_eq!(
        login.step(LocalPacket::PingRequest { time: 5 }, 770),
        LocalStep::Failed {
            error: LocalError::StatusPing,
            reply: LocalReply::Pong { time: 5 },
        }
    );
    assert_eq!(
        LocalLogin::Ping.step(LocalPacket::Other, 770),
        LocalStep::Failed { error: LocalError::StatusPing, reply: LocalReply::Nothing }
    );
    let (_, reply) = next(LocalLogin::Status.step(LocalPacket::Other, 770));
    assert_eq!(reply, LocalReply::Nothing);
}

#[test]
fn an_upstream_login_is_encrypted_first() {
    assert_eq!(
        UpstreamLogin::new().step(UpstreamPacket::LoginFinished),
        UpstreamStep::ExpectedEncryption
    );
    let UpstreamStep::Encrypt { login } =
        UpstreamLogin::new().step(UpstreamPacket::EncryptionRequest)
    else {
        panic!("expected encryption");
    };
    assert_eq!(login.step(UpstreamPacket::Other), UpstreamStep::Ignore { login });
    assert_eq!(
        login.step(UpstreamPacket::LoginFinished),
        UpstreamStep::Finish { compression_threshold: None }
    );
    let UpstreamStep::Compress { login, threshold } =
        login.step(UpstreamPacket::LoginCompression { threshold: 256 })
    else {
        panic!("expected compression");
    };
    assert_eq!(threshold, 256);
    assert_eq!(
        login.step(UpstreamPacket::LoginFinished),
        UpstreamStep::Finish { compression_threshold: Some(256) }
    );
    let UpstreamStep::Compress { login, .. } =
        login.step(UpstreamPacket::LoginCompression { threshold: -1 })
    else {
        panic!("expected compression");
    };
    assert_eq!(
        login.step(UpstreamPacket::LoginFinished),
        UpstreamStep::Finish { compression_threshold: Some(u32::MAX) }
    );
}

#[test]
fn tokens_are_kept_in_the_first_place_that_is_set() {
    let (a, b, c) = (PathBuf::from("a"), PathBuf::from("b"), PathBuf::from("c"));
    assert_eq!(
        auth_cache_file(Some(a.clone()), Some(b.clone()), Some(c.clone())),
        Some(a)
    );
    assert_eq!(auth_cache_file(None, Some(b.clone()), Some(c.clone())), Some(b));
    assert_eq!(auth_cache_file(None, None, Some(c.clone())), Some(c));
    assert_eq!(auth_cache_file(None, None, None), None);
}
