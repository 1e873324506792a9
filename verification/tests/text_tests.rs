use dds::hyprland::parse_active_window;
use dds::os_release::{release_os_name, release_pretty_name};
use dds::rpc::{build_activity, update_next, UpdatePhase};
use dds::settings::RpcRule;

#[test]
fn active_window_line() {
    assert_eq!(
        parse_active_window("activewindow>>kitty,~/dev"),
        Some(("kitty".to_string(), "~/dev".to_string()))
    );
    assert_eq!(
        parse_active_window("activewindow>>firefox,a, b,c"),
        Some(("firefox".to_string(), "a, b,c".to_string()))
    );
    assert_eq!(
        parse_active_window("activewindow>>lonely"),
        Some(("lonely".to_string(), String::new()))
    );
    assert_eq!(
        parse_active_window("activewindow>>,"),
        Some((String::new(), String::new()))
    );
    assert_eq!(parse_active_window("activewindowv2>>55d2"), None);
    assert_eq!(parse_active_window("workspace>>2"), None);
    assert_eq!(parse_active_window(""), None);
}

#[test]
fn os_release_pretty_name() {
    let text = "NAME=\"Arch Linux\"\nPRETTY_NAME=\"Arch Linux\"\nID=arch\n";
    assert_eq!(release_pretty_name(text), Some("Arch Linux".to_string()));
    assert_eq!(release_os_name(text), Some("Arch Linux".to_string()));
    assert_eq!(release_pretty_name("NAME=Foo\n"), None);
}

#[test]
fn os_release_first_pretty_name_wins() {
    let text = "PRETTY_NAME=\"One\"\r\nPRETTY_NAME=Two\r\n";
    assert_eq!(release_pretty_name(text), Some("One".to_string()));
    assert_eq!(release_os_name(text), Some("One".to_string()));
}

#[test]
fn os_release_fallbacks() {
    assert_eq!(release_os_name("ID=debian\nNAME=\"Debian GNU/Linux\"\nNAME=Deb"), Some("Deb".to_string()));
    assert_eq!(release_os_name("ID=void\nVERSION_ID=\"2024\"\n"), Some("void 2024".to_string()));
    assert_eq!(release_os_name("VERSION_ID=1\nID=\"alpine\"\n"), Some("alpine 1".to_string()));
    assert_eq!(release_os_name("ID=nixos"), Some("nixos".to_string()));
    assert_eq!(release_os_name("ID_LIKE=arch\nVERSION=1\n"), None);
    assert_eq!(release_os_name(""), None);
}

#[test]
fn os_release_quotes_and_line_ends() {
    assert_eq!(release_pretty_name("PRETTY_NAME=\"\"\"x\"\""), Some("x".to_string()));
    assert_eq!(release_pretty_name("PRETTY_NAME=\"\"\""), Some(String::new()));
    assert_eq!(release_pretty_name("PRETTY_NAME=a\r"), Some("a\r".to_string()));
    assert_eq!(release_pretty_name("X=1\r\nPRETTY_NAME=b\r\n"), Some("b".to_string()));
    assert_eq!(release_pretty_name("  PRETTY_NAME=c"), None);
}

fn rule(large: Option<&str>, small: Option<&str>) -> RpcRule {
    RpcRule {
        state: Some("Using Kitty".to_string()),
        details: None,
        large_image: large.map(|s| s.to_string()),
        large_text: Some("Kitty".to_string()),
        small_image: small.map(|s| s.to_string()),
        small_text: Some("Hyprland".to_string()),
    }
}

#[test]
fn activity_assets_only_with_images() {
    let a = build_activity(&rule(None, None));
    assert_eq!(a.state.as_deref(), Some("Using Kitty"));
    assert_eq!(a.details, None);
    assert!(a.assets.is_none());
    let b = build_activity(&rule(None, Some("hyprland")));
    let assets = b.assets.unwrap();
    assert_eq!(assets.large_image, None);
    assert_eq!(assets.large_text.as_deref(), Some("Kitty"));
    assert_eq!(assets.small_image.as_deref(), Some("hyprland"));
    let c = build_activity(&rule(Some("kitty"), None));
    assert_eq!(c.assets.unwrap().large_image.as_deref(), Some("kitty"));
}

#[test]
fn update_attempt_order() {
    assert_eq!(update_next(UpdatePhase::Send, true), None);
    assert_eq!(update_next(UpdatePhase::Send, false), Some(UpdatePhase::Reconnect));
    assert_eq!(update_next(UpdatePhase::Reconnect, false), None);
    assert_eq!(update_next(UpdatePhase::Reconnect, true), Some(UpdatePhase::Retry));
    assert_eq!(update_next(UpdatePhase::Retry, false), None);
    assert_eq!(update_next(UpdatePhase::Retry, true), None);
}

#[test]
fn active_window_parts_rejoin() {
    for data in ["a,b,c", "class,", ",title", "x"] {
        let line = format!("activewindow>>{}", data);
        let (class, title) = parse_active_window(&line).unwrap();
        assert!(!class.contains(','));
        if data.contains(',') {
            assert_eq!(format!("{},{}", class, title), data);
        } else {
            assert_eq!(class, data);
            assert_eq!(title, "");
        }
    }
}

#[test]
fn socket_path() {
    assert_eq!(
        dds::hyprland::hyprland_socket_path("/run/user/1000", "abc_123"),
        "/run/user/1000/hypr/abc_123/.socket2.sock"
    );
}
