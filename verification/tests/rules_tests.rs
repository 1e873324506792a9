use dds::browser::clean_title;
use dds::rules::{build_presence, class_cache, pretty_name, resolve_class, truncate, MAX_FIELD_LEN};
use dds::settings::{default_true, Config};

fn config() -> Config {
    let mut c = Config::new("1460605258072985705".to_string());
    c.default_large_image = Some("arch".to_string());
    c.set_image("kitty".to_string(), "kitty".to_string());
    c.set_image("org.mozilla.firefox".to_string(), "firefox".to_string());
    c.set_name("org.mozilla.firefox".to_string(), "Firefox".to_string());
    c
}

#[test]
fn pretty_name_takes_last_dot_segment() {
    let c = Config::new("id".to_string());
    assert_eq!(pretty_name(&c, "org.mozilla.firefox"), "Firefox");
    assert_eq!(pretty_name(&c, "org.gnome.Nautilus"), "Nautilus");
}

#[test]
fn pretty_name_capitalizes_plain_class() {
    let c = Config::new("id".to_string());
    assert_eq!(pretty_name(&c, "kitty"), "Kitty");
}

#[test]
fn pretty_name_splits_words() {
    let c = Config::new("id".to_string());
    assert_eq!(pretty_name(&c, "my-cool_app name"), "My Cool App Name");
    assert_eq!(pretty_name(&c, "com.example.--multi__sep  app"), "Multi Sep App");
    assert_eq!(pretty_name(&c, "tab\tseparated"), "Tab Separated");
}

#[test]
fn pretty_name_edge_cases() {
    let c = Config::new("id".to_string());
    assert_eq!(pretty_name(&c, ""), "");
    assert_eq!(pretty_name(&c, "com.example."), "");
    assert_eq!(pretty_name(&c, "a..b"), "B");
    assert_eq!(pretty_name(&c, "ßtraße"), "SStraße");
    assert_eq!(pretty_name(&c, "Already"), "Already");
}

#[test]
fn pretty_name_prefers_name_map() {
    let mut c = Config::new("id".to_string());
    c.set_name("kitty".to_string(), "The Kitty Terminal".to_string());
    assert_eq!(pretty_name(&c, "kitty"), "The Kitty Terminal");
    assert_eq!(pretty_name(&c, "alacritty"), "Alacritty");
}

#[test]
fn truncate_trims() {
    assert_eq!(truncate("  hello world \n"), "hello world");
    assert_eq!(truncate("   "), "");
    assert_eq!(truncate(""), "");
}

#[test]
fn truncate_keeps_field_limit() {
    let exact: String = "a".repeat(MAX_FIELD_LEN);
    assert_eq!(truncate(&exact), exact);
    let long: String = "b".repeat(200);
    let t = truncate(&long);
    assert_eq!(t.chars().count(), 128);
    assert_eq!(t, format!("{}…", "b".repeat(127)));
    let padded = format!("  {}  ", "c".repeat(129));
    let t2 = truncate(&padded);
    assert_eq!(t2, format!("{}…", "c".repeat(127)));
}

#[test]
fn truncate_counts_chars_not_bytes() {
    let s: String = "é".repeat(128);
    assert_eq!(truncate(&s), s);
    let s2: String = "é".repeat(129);
    assert_eq!(truncate(&s2).chars().count(), 128);
}

#[test]
fn build_presence_uses_class_info() {
    let c = config();
    let mut cache = class_cache();
    let r = build_presence(&c, "org.mozilla.firefox", "  Rust docs  ", &mut cache);
    assert_eq!(r.state.as_deref(), Some("Using Firefox"));
    assert_eq!(r.details.as_deref(), Some("Rust docs"));
    assert_eq!(r.large_image.as_deref(), Some("firefox"));
    assert_eq!(r.large_text.as_deref(), Some("Firefox"));
    assert_eq!(r.small_image.as_deref(), Some("hyprland"));
    assert_eq!(r.small_text.as_deref(), Some("Hyprland"));
}

#[test]
fn build_presence_falls_back_to_default_image() {
    let c = config();
    let mut cache = class_cache();
    let r = build_presence(&c, "org.kde.dolphin", "Home", &mut cache);
    assert_eq!(r.state.as_deref(), Some("Using Dolphin"));
    assert_eq!(r.large_image.as_deref(), Some("arch"));
    let mut bare = Config::new("id".to_string());
    bare.details_from_title = false;
    let r2 = build_presence(&bare, "kitty", "~", &mut cache);
    assert_eq!(r2.large_image, None);
    assert_eq!(r2.details, None);
    assert_eq!(r2.state.as_deref(), Some("Using Kitty"));
}

#[test]
fn resolve_class_answers_from_cache() {
    let c = config();
    let mut cache = class_cache();
    let first = resolve_class(&c, "kitty", &mut cache);
    assert_eq!(first.name, "Kitty");
    assert_eq!(first.large_image.as_deref(), Some("kitty"));
    let mut other = Config::new("id".to_string());
    other.set_name("kitty".to_string(), "Cat".to_string());
    let again = resolve_class(&other, "kitty", &mut cache);
    assert_eq!(again.name, "Kitty");
    assert_eq!(again.large_image.as_deref(), Some("kitty"));
    let fresh = resolve_class(&other, "kitty", &mut class_cache());
    assert_eq!(fresh.name, "Cat");
    assert_eq!(fresh.large_image, None);
}

#[test]
fn config_defaults() {
    assert!(default_true());
    let c = Config::new("x".to_string());
    assert!(c.details_from_title);
    assert_eq!(c.default_large_image, None);
    assert_eq!(c.app_id, "x");
}

#[test]
fn browser_new_tab_shows_app_name() {
    let c = config();
    let mut cache = class_cache();
    let r = build_presence(&c, "org.mozilla.firefox", "New Tab", &mut cache);
    assert_eq!(r.details.as_deref(), Some("Firefox"));
    let r2 = build_presence(&c, "google-chrome", "New Tab - Google Chrome", &mut cache);
    assert_eq!(r2.details.as_deref(), Some("Google Chrome"));
}

#[test]
fn browser_suffix_is_stripped() {
    let c = config();
    let mut cache = class_cache();
    let r = build_presence(
        &c,
        "org.mozilla.firefox",
        "Rust Programming Language - Mozilla Firefox",
        &mut cache,
    );
    assert_eq!(r.details.as_deref(), Some("Rust Programming Language"));
    let r2 = build_presence(&c, "org.mozilla.firefox", "Docs — Mozilla Firefox ", &mut cache);
    assert_eq!(r2.details.as_deref(), Some("Docs"));
}

#[test]
fn browser_bare_url_shows_domain() {
    let c = config();
    let mut cache = class_cache();
    let r = build_presence(
        &c,
        "org.mozilla.firefox",
        "https://github.com/Veridian-Zenith/DDS",
        &mut cache,
    );
    assert_eq!(r.details.as_deref(), Some("github.com"));
}

#[test]
fn clean_title_cases() {
    assert_eq!(clean_title("http://localhost:8080/x?y", "App"), "localhost:8080");
    assert_eq!(clean_title("https://example.org", "App"), "example.org");
    assert_eq!(clean_title("https://example.org#top - Brave", "App"), "example.org");
    assert_eq!(clean_title("https://", "App"), "https://");
    assert_eq!(clean_title("see https://x.com", "App"), "see https://x.com");
    assert_eq!(clean_title("ftp://host/file", "App"), "ftp://host/file");
    assert_eq!(clean_title("main.rs - Visual Studio Code", "Code"), "main.rs - Visual Studio Code");
    assert_eq!(clean_title("  ~/code  ", "Kitty"), "~/code");
    assert_eq!(clean_title("New Tab – Vivaldi", "Vivaldi"), "Vivaldi");
    assert_eq!(clean_title("new tab", "App"), "new tab");
    assert_eq!(clean_title("", "App"), "");
}

#[test]
fn truncate_twice_is_once() {
    let long = format!("{}   ", "d".repeat(300));
    let once = truncate(&long);
    assert_eq!(truncate(&once), once);
    assert_eq!(truncate(&truncate("  hi  ")), "hi");
}
