use hecate_web::plugin_watch::{is_plugin_dir, sockets_dir};
use hecate_web::plugins::{
    asset_name, extract_plugin_name, github_repo, is_newer, parse_installed_version, plugin_meta, release_version,
    resolve_container_info, set_image_version,
};

#[test]
fn plugin_names_under_both_conventions() {
    assert_eq!(extract_plugin_name("hecate-app-marthad"), Some("martha".to_string()));
    assert_eq!(extract_plugin_name("hecate-marthad"), Some("martha".to_string()));
    assert_eq!(extract_plugin_name("hecate-daemon"), None);
    assert_eq!(extract_plugin_name("hecate-daemnd"), None);
    assert_eq!(extract_plugin_name("hecate-app-d"), None);
    assert_eq!(extract_plugin_name("other"), None);
}

#[test]
fn plugin_watcher_names() {
    assert!(is_plugin_dir("hecate-traderd"));
    assert!(!is_plugin_dir("hecate-daemon"));
    assert!(!is_plugin_dir("hecate-daemnd"));
    assert!(!is_plugin_dir("hecate-gitops"));
    assert_eq!(hecate_web::plugin_watch::extract_plugin_name("hecate-app-marthad"), Some("app-martha".to_string()));
    assert_eq!(sockets_dir("/home/u/.hecate", "hecate-traderd"), "/home/u/.hecate/hecate-traderd/sockets");
}

#[test]
fn updater_plugin_metadata() {
    let m = plugin_meta("hecate-app-marthad").unwrap();
    assert_eq!((m.name.as_str(), m.is_new_convention), ("martha", true));
    let l = plugin_meta("hecate-traderd").unwrap();
    assert_eq!((l.name.as_str(), l.is_new_convention), ("trader", false));
    assert!(plugin_meta("hecate-daemon").is_none());
    assert_eq!(github_repo("martha", true), "hecate-social/hecate-app-martha");
    assert_eq!(github_repo("trader", false), "hecate-social/hecate-trader");
}

#[test]
fn version_comparison() {
    assert!(is_newer("1.2.0", "1.1.9"));
    assert!(is_newer("0.10.0", "0.9.9"));
    assert!(!is_newer("1.0", "1.0.0"));
    assert!(!is_newer("1.0.0", "1.0.1"));
    assert!(is_newer("2", "1.99.99"));
    assert!(is_newer("1.x.3", "1.2"));
    assert_eq!(release_version("v1.4.2"), "1.4.2");
    assert_eq!(release_version("1.4.2"), "1.4.2");
}

#[test]
fn release_asset_names() {
    assert_eq!(asset_name(false, false), "hecate-web-linux-amd64.tar.gz");
    assert_eq!(asset_name(true, true), "hecate-web-darwin-arm64.tar.gz");
}

#[test]
fn container_file_names() {
    let c = resolve_container_info("martha", true, true).unwrap();
    assert_eq!(c.file_name, "hecate-app-marthad.container");
    assert_eq!(c.image_prefix, "ghcr.io/hecate-social/hecate-app-marthad:");
    assert_eq!(c.service_name, "hecate-app-marthad");
    let l = resolve_container_info("trader", false, true).unwrap();
    assert_eq!(l.image_prefix, "ghcr.io/hecate-social/hecate-traderd:");
    assert!(resolve_container_info("none", false, false).is_none());
}

#[test]
fn installed_version_from_image_line() {
    let c = "[Container]\r\n  Image=ghcr.io/hecate-social/hecate-app-marthad:0.1.1  \r\nName=x\n";
    assert_eq!(parse_installed_version(c), Some("0.1.1".to_string()));
    assert_eq!(parse_installed_version("Image=noversion\nImage=a:2\n"), Some("2".to_string()));
    assert_eq!(parse_installed_version("[Unit]\n"), None);
}

#[test]
fn image_version_is_replaced() {
    let c = "[Container]\nImage=ghcr.io/hecate-social/hecate-app-marthad:0.1.1\nPod=p\n";
    let u = set_image_version(c, "martha", "ghcr.io/hecate-social/hecate-app-marthad:", "0.2.0").unwrap();
    assert_eq!(u, "[Container]\nImage=ghcr.io/hecate-social/hecate-app-marthad:0.2.0\nPod=p\n");
    let no_nl = "Image=ghcr.io/x/hecate-marthad:1";
    assert_eq!(set_image_version(no_nl, "martha", "p:", "2").unwrap(), "Image=p:2");
    assert_eq!(set_image_version("Image=other:1\n", "martha", "p:", "2"), None);
}
