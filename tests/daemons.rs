use hecate_web::chat::{chat_step, daemon_event_name, usage_of, Usage};
use hecate_web::traffic::{record_rx, record_tx, TrafficCounters};
use hecate_web::http::RawResponse;
use hecate_web::liveness::{health_payload, HealthError, LivenessWatcher, WatchAction, WatchEvent};
use hecate_web::resolver::{
    channel_name, plugin_socket_paths, resolve_plugin_socket_path, resolve_socket_for_path, resolve_socket_path,
    socket_dir, socket_path, stream_channels, user_socket_path, SocketTarget,
};

#[test]
fn override_socket_wins_when_it_exists() {
    assert_eq!(resolve_socket_path(Some("/tmp/x.sock"), true, true, Some("/home/u")), "/tmp/x.sock");
}

#[test]
fn empty_or_missing_override_is_skipped() {
    assert_eq!(resolve_socket_path(Some(""), true, true, Some("/home/u")), "/run/hecate/api.sock");
    assert_eq!(resolve_socket_path(Some("/tmp/x.sock"), false, false, Some("/home/u")),
        "/home/u/.hecate/hecate-daemon/sockets/api.sock");
}

#[test]
fn user_socket_is_the_default_even_when_absent() {
    assert_eq!(resolve_socket_path(None, false, false, Some("/home/u/")), "/home/u/.hecate/hecate-daemon/sockets/api.sock");
    assert_eq!(resolve_socket_path(None, false, false, None), "/run/hecate/api.sock");
    assert_eq!(user_socket_path("/root"), "/root/.hecate/hecate-daemon/sockets/api.sock");
}

#[test]
fn plugin_socket_prefers_the_current_convention() {
    let (n, l) = plugin_socket_paths("/home/u", "trader");
    assert_eq!(n, "/home/u/.hecate/hecate-app-traderd/sockets/api.sock");
    assert_eq!(l, "/home/u/.hecate/hecate-traderd/sockets/api.sock");
    assert_eq!(resolve_plugin_socket_path("trader", Some("/home/u"), true, true), n);
    assert_eq!(resolve_plugin_socket_path("trader", Some("/home/u"), false, true), l);
    assert_eq!(resolve_plugin_socket_path("trader", Some("/home/u"), false, false), n);
    assert_eq!(resolve_plugin_socket_path("trader", None, false, false), "/run/hecate-app-traderd/api.sock");
}

#[test]
fn plugin_paths_are_routed_and_rewritten() {
    assert_eq!(resolve_socket_for_path("/plugin/trader/api/orders"),
        (SocketTarget::Plugin("trader".to_string()), "/api/orders".to_string()));
    assert_eq!(resolve_socket_for_path("/plugin/trader"), (SocketTarget::Plugin("trader".to_string()), "/".to_string()));
    assert_eq!(resolve_socket_for_path("/api/health"), (SocketTarget::Primary, "/api/health".to_string()));
    assert_eq!(resolve_socket_for_path("/pluginx/a"), (SocketTarget::Primary, "/pluginx/a".to_string()));
}

#[test]
fn watcher_socket_location() {
    assert_eq!(socket_dir(Some("/home/u")), "/home/u/.hecate/hecate-daemon/sockets");
    assert_eq!(socket_path(Some("/home/u")), "/home/u/.hecate/hecate-daemon/sockets/api.sock");
    assert_eq!(socket_path(None), "/run/hecate/api.sock");
}

#[test]
fn stream_channels_are_tagged_with_the_stream_id() {
    let c = stream_channels("chat", "chunk", "42");
    assert_eq!(c.chunk, "chat-chunk-42");
    assert_eq!(c.done, "chat-done-42");
    assert_eq!(c.error, "chat-error-42");
    let d = stream_channels("chat", "chunk", "43");
    assert_ne!(c.chunk, d.chunk);
    assert_eq!(channel_name("irc", "event", "a"), "irc-event-a");
}

fn probe_of(a: WatchAction) -> u64 {
    match a {
        WatchAction::Probe { probe, .. } => probe,
        other => panic!("expected a probe, got {:?}", other),
    }
}

#[test]
fn removal_right_after_creation_ends_unreachable() {
    let mut w = LivenessWatcher::new();
    assert_eq!(w.handle(WatchEvent::Started { socket_exists: false }), WatchAction::Publish);
    let p = probe_of(w.handle(WatchEvent::SocketChanged { at_ms: 1000 }));
    assert_eq!(w.handle(WatchEvent::SocketRemoved), WatchAction::Publish);
    assert_eq!(w.cached(), None);
    let late = w.handle(WatchEvent::ProbeResult { probe: p, health: Some(b"{\"ok\":true}".to_vec()) });
    assert_eq!(late, WatchAction::Nothing);
    assert_eq!(w.cached(), None);
}

#[test]
fn healthy_probe_is_cached() {
    let mut w = LivenessWatcher::new();
    let p = probe_of(w.handle(WatchEvent::Started { socket_exists: true }));
    assert_eq!(w.handle(WatchEvent::ProbeResult { probe: p, health: Some(b"{}".to_vec()) }), WatchAction::Publish);
    assert_eq!(w.cached(), Some(b"{}".to_vec()));
}

#[test]
fn ten_failed_attempts_give_up() {
    let mut w = LivenessWatcher::new();
    let p = probe_of(w.handle(WatchEvent::Started { socket_exists: true }));
    for _ in 0..9 {
        assert_eq!(w.handle(WatchEvent::ProbeResult { probe: p, health: None }),
            WatchAction::Probe { probe: p, delay_ms: 500 });
    }
    assert_eq!(w.handle(WatchEvent::ProbeResult { probe: p, health: None }), WatchAction::Publish);
    assert_eq!(w.cached(), None);
}

#[test]
fn changes_within_the_debounce_window_are_one() {
    let mut w = LivenessWatcher::new();
    let p = probe_of(w.handle(WatchEvent::SocketChanged { at_ms: 100 }));
    assert_eq!(w.handle(WatchEvent::SocketChanged { at_ms: 400 }), WatchAction::Nothing);
    assert_eq!(w.handle(WatchEvent::ProbeResult { probe: p, health: Some(b"1".to_vec()) }), WatchAction::Publish);
    let q = probe_of(w.handle(WatchEvent::SocketChanged { at_ms: 700 }));
    assert_ne!(p, q);
}

#[test]
fn tick_rechecks_only_an_existing_socket() {
    let mut w = LivenessWatcher::new();
    assert_eq!(w.handle(WatchEvent::Tick { socket_exists: false }), WatchAction::Nothing);
    let p = probe_of(w.handle(WatchEvent::Tick { socket_exists: true }));
    assert_eq!(w.handle(WatchEvent::ProbeResult { probe: p, health: None }), WatchAction::Publish);
}

#[test]
fn health_payload_checks_status_and_json() {
    let ok = RawResponse { status: 200, content_type: b"application/json".to_vec(), body: b"{\"v\":1}".to_vec() };
    assert_eq!(health_payload(&ok), Ok(b"{\"v\":1}".to_vec()));
    let bad = RawResponse { status: 503, content_type: Vec::new(), body: Vec::new() };
    assert_eq!(health_payload(&bad), Err(HealthError::Status(503)));
    let text = RawResponse { status: 200, content_type: Vec::new(), body: b"up".to_vec() };
    assert_eq!(health_payload(&text), Err(HealthError::NotJson));
}

#[test]
fn usage_falls_back_and_truncates() {
    assert_eq!(usage_of(Some(5), Some(9), None, Some(7)),
        Some(Usage { prompt_tokens: Some(5), completion_tokens: Some(7) }));
    assert_eq!(usage_of(None, None, None, None), None);
    assert_eq!(usage_of(Some(4294967296 + 3), None, None, None),
        Some(Usage { prompt_tokens: Some(3), completion_tokens: None }));
}

#[test]
fn chat_error_payload_ends_the_stream() {
    let s = chat_step(Some("boom".to_string()), Some("x".to_string()), Some(false), None, None, None);
    assert!(s.ends && s.to_done && s.chunk.done);
    assert_eq!(s.chunk.error, Some("boom".to_string()));
    assert_eq!(s.chunk.content, "");
}

#[test]
fn chat_content_and_done_payloads() {
    let usage = Some(Usage { prompt_tokens: Some(1), completion_tokens: Some(2) });
    let s = chat_step(None, Some("hi".to_string()), None, Some(String::new()), None, usage);
    assert!(!s.ends && !s.to_done && !s.chunk.done);
    assert_eq!(s.chunk.content, "hi");
    assert_eq!(s.chunk.model, None);
    assert_eq!(s.chunk.usage, None);
    let d = chat_step(None, None, Some(true), Some("m".to_string()), None, usage);
    assert!(d.ends && d.to_done);
    assert_eq!(d.chunk.usage, usage);
    assert_eq!(d.chunk.model, Some("m".to_string()));
}

#[test]
fn daemon_event_names() {
    assert_eq!(daemon_event_name(b"realm_join_status"), Some("daemon-realm-join-status".to_string()));
    assert_eq!(daemon_event_name(b"identity_changed"), Some("daemon-identity-changed".to_string()));
    assert_eq!(daemon_event_name(b"settings_changed"), Some("daemon-settings-changed".to_string()));
    assert_eq!(daemon_event_name(b"other"), None);
}

#[test]
fn traffic_counters_add_and_wrap() {
    let mut t = TrafficCounters::new();
    record_tx(&mut t, 10);
    record_rx(&mut t, 3);
    record_tx(&mut t, 5);
    assert_eq!((t.tx_bytes, t.tx_count, t.rx_bytes, t.rx_count), (15, 2, 3, 1));
    t.tx_bytes = u64::MAX;
    record_tx(&mut t, 2);
    assert_eq!(t.tx_bytes, 1);
}
