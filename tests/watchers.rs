use hecate_web::config_watch::{config_dir, ConfigDebounce};
use hecate_web::plugin_watch::{hecate_base, plugin_event, PluginChange, PluginNote, PluginTracker};

fn notes(v: &[PluginNote]) -> Vec<(String, PluginChange)> {
    v.iter().map(|n| (n.name.clone(), n.change)).collect()
}

#[test]
fn new_plugin_dir_is_followed_once() {
    let mut t = PluginTracker::new();
    let (n, watch) = t.dir_created("hecate-traderd", true, true);
    assert!(watch);
    assert_eq!(notes(&n), vec![("trader".to_string(), PluginChange::Appeared), ("trader".to_string(), PluginChange::SocketUp)]);
    assert!(t.follows("hecate-traderd"));
    let (again, watch_again) = t.dir_created("hecate-traderd", true, true);
    assert!(again.is_empty() && !watch_again);
}

#[test]
fn non_plugin_dirs_are_ignored() {
    let mut t = PluginTracker::new();
    assert!(t.dir_created("hecate-daemon", true, false).0.is_empty());
    assert!(t.dir_created("gitops", true, false).0.is_empty());
    assert!(t.dir_created("hecate-traderd", false, false).0.is_empty());
}

#[test]
fn removed_plugin_dir_disappears() {
    let mut t = PluginTracker::new();
    t.dir_created("hecate-traderd", true, false);
    let (n, unwatch) = t.dir_removed("hecate-traderd");
    assert!(unwatch);
    assert_eq!(notes(&n), vec![("trader".to_string(), PluginChange::Disappeared)]);
    assert!(!t.follows("hecate-traderd"));
    assert!(t.dir_removed("hecate-traderd").0.is_empty());
}

#[test]
fn socket_changes_name_the_plugin() {
    let t = PluginTracker::new();
    let up = t.socket_changed("hecate-app-marthad", true).unwrap();
    assert_eq!((up.name.as_str(), up.change), ("app-martha", PluginChange::SocketUp));
    let down = t.socket_changed("hecate-traderd", false).unwrap();
    assert_eq!(down.change, PluginChange::SocketDown);
    assert!(t.socket_changed("elsewhere", true).is_none());
}

#[test]
fn rescan_adds_and_drops() {
    let mut t = PluginTracker::new();
    t.dir_created("hecate-oldd", true, false);
    let found = vec!["hecate-newd".to_string(), "hecate-daemon".to_string()];
    let n = t.rescan(&found, &vec![true, false]);
    assert_eq!(
        notes(&n),
        vec![
            ("new".to_string(), PluginChange::Appeared),
            ("new".to_string(), PluginChange::SocketUp),
            ("old".to_string(), PluginChange::Disappeared),
            (String::new(), PluginChange::Rescan),
        ]
    );
    assert!(t.follows("hecate-newd"));
    assert!(!t.follows("hecate-oldd"));
}

#[test]
fn plugin_event_labels() {
    let e = plugin_event("x".to_string(), PluginChange::SocketDown);
    assert_eq!((e.name.as_str(), e.event_type.as_str()), ("x", "socket_down"));
    assert_eq!(plugin_event(String::new(), PluginChange::Rescan).event_type, "rescan");
    assert_eq!(hecate_base(Some("/home/u")), "/home/u/.hecate");
    assert_eq!(hecate_base(None), "/run/hecate");
}

#[test]
fn config_changes_are_debounced() {
    let mut d = ConfigDebounce::new();
    assert!(d.changed(1000));
    assert!(!d.changed(1200));
    assert!(!d.changed(1499));
    assert!(d.changed(1500));
    assert_eq!(config_dir(Some("/home/u")), "/home/u/.hecate/config");
    assert_eq!(config_dir(None), "/run/hecate/config");
}
