use dds::toplevel::{registry_binding, states_activated, ToplevelEvent, ToplevelProtocol, ToplevelState};

fn le(v: &[u32]) -> Vec<u8> {
    v.iter().flat_map(|x| x.to_le_bytes()).collect()
}

fn be(v: &[u32]) -> Vec<u8> {
    v.iter().flat_map(|x| x.to_be_bytes()).collect()
}

#[test]
fn upsert_creates_and_keeps() {
    let mut s = ToplevelState::new();
    {
        let info = s.upsert_toplevel(7);
        assert_eq!(info.app_id, None);
        assert_eq!(info.title, None);
        assert!(!info.activated);
        info.title = Some("first".to_string());
    }
    let info = s.upsert_toplevel(7);
    assert_eq!(info.title.as_deref(), Some("first"));
    assert_eq!(s.toplevels.len(), 1);
}

#[test]
fn focus_change_reported_once() {
    let mut s = ToplevelState::new();
    s.upsert_toplevel(1);
    s.upsert_toplevel(2);
    s.set_app_id(1, "kitty".to_string());
    s.set_title(1, "~/dev".to_string());
    s.set_app_id(2, "firefox".to_string());
    s.set_activated(1, true);
    s.check_focus();
    assert_eq!(s.take_focus_change(), Some(("kitty".to_string(), "~/dev".to_string())));
    assert_eq!(s.take_focus_change(), None);
    s.check_focus();
    assert_eq!(s.take_focus_change(), None);
    s.set_activated(1, false);
    s.set_activated(2, true);
    s.check_focus();
    assert_eq!(s.take_focus_change(), Some(("firefox".to_string(), String::new())));
}

#[test]
fn focus_without_app_id_is_not_reported() {
    let mut s = ToplevelState::new();
    s.upsert_toplevel(3);
    s.set_title(3, "untitled".to_string());
    s.set_activated(3, true);
    s.check_focus();
    assert_eq!(s.take_focus_change(), None);
    s.set_app_id(3, "gedit".to_string());
    s.check_focus();
    assert_eq!(s.take_focus_change(), None);
}

#[test]
fn apply_focus_follows_choice() {
    let mut s = ToplevelState::new();
    s.upsert_toplevel(4);
    s.set_app_id(4, "code".to_string());
    s.apply_focus(Some(4));
    assert_eq!(s.take_focus_change(), Some(("code".to_string(), String::new())));
    s.apply_focus(Some(4));
    assert_eq!(s.take_focus_change(), None);
    s.apply_focus(None);
    assert_eq!(s.take_focus_change(), None);
    s.apply_focus(Some(99));
    assert_eq!(s.take_focus_change(), None);
}

#[test]
fn events_on_unknown_toplevel_are_ignored() {
    let mut s = ToplevelState::new();
    s.set_title(5, "x".to_string());
    s.set_app_id(5, "y".to_string());
    s.set_activated(5, true);
    assert!(s.toplevels.is_empty());
    assert_eq!(s.find_activated(), None);
}

#[test]
fn closing_forgets_toplevel() {
    let mut s = ToplevelState::new();
    s.upsert_toplevel(1);
    s.set_app_id(1, "kitty".to_string());
    s.set_activated(1, true);
    s.map_cosmic(1, 10);
    s.check_focus();
    assert!(s.take_focus_change().is_some());
    s.close_cosmic(1);
    assert!(s.toplevels.is_empty());
    assert!(s.ext_to_cosmic.is_empty());
    assert_eq!(s.find_activated(), None);
    s.upsert_toplevel(2);
    s.set_app_id(2, "foot".to_string());
    s.set_activated(2, true);
    s.close_toplevel(2);
    assert!(s.toplevels.is_empty());
    assert_eq!(s.take_focus_change(), None);
}

#[test]
fn find_activated_picks_an_activated_one() {
    let mut s = ToplevelState::new();
    for id in 0..5 {
        s.upsert_toplevel(id);
    }
    assert_eq!(s.find_activated(), None);
    s.set_activated(3, true);
    assert_eq!(s.find_activated(), Some(3));
}

#[test]
fn state_array_activated() {
    assert!(states_activated(&le(&[2]), true));
    assert!(states_activated(&le(&[0, 1, 2]), true));
    assert!(!states_activated(&le(&[0, 1, 3]), true));
    assert!(!states_activated(&[], true));
    assert!(states_activated(&be(&[2]), false));
    assert!(!states_activated(&be(&[2]), true));
    let mut partial = le(&[1]);
    partial.extend_from_slice(&[2, 0, 0]);
    assert!(!states_activated(&partial, true));
    assert!(!states_activated(&le(&[0x0200_0000]), true));
}

#[test]
fn registry_binds_toplevel_protocols() {
    assert_eq!(
        registry_binding("ext_foreign_toplevel_list_v1", 3),
        Some((ToplevelProtocol::ExtForeignToplevelList, 1))
    );
    assert_eq!(
        registry_binding("zcosmic_toplevel_info_v1", 3),
        Some((ToplevelProtocol::CosmicToplevelInfo, 2))
    );
    assert_eq!(
        registry_binding("zcosmic_toplevel_info_v1", 1),
        Some((ToplevelProtocol::CosmicToplevelInfo, 1))
    );
    assert_eq!(registry_binding("wl_seat", 7), None);
    assert_eq!(registry_binding("ext_foreign_toplevel_list_v", 1), None);
}

#[test]
fn event_sequence_reports_focus() {
    let mut s = ToplevelState::new();
    assert!(s.handle_event(ToplevelEvent::NewToplevel { id: 8 }, true, true));
    s.map_cosmic(8, 80);
    assert!(!s.handle_event(ToplevelEvent::NewToplevel { id: 9 }, false, true));
    assert!(!s.handle_event(ToplevelEvent::AppId { id: 8, app_id: "com.system76.CosmicTerm".to_string() }, true, true));
    s.handle_event(ToplevelEvent::Title { id: 8, title: "shell".to_string() }, true, true);
    s.handle_event(ToplevelEvent::CosmicState { id: 8, states: le(&[0, 2]) }, true, true);
    assert_eq!(s.take_focus_change(), None);
    s.handle_event(ToplevelEvent::Done, true, true);
    assert_eq!(
        s.take_focus_change(),
        Some(("com.system76.CosmicTerm".to_string(), "shell".to_string()))
    );
    s.handle_event(ToplevelEvent::CosmicState { id: 8, states: le(&[0]) }, true, true);
    s.handle_event(ToplevelEvent::Done, true, true);
    assert_eq!(s.take_focus_change(), None);
    assert_eq!(s.find_activated(), None);
    s.handle_event(ToplevelEvent::CosmicClosed { id: 8 }, true, true);
    assert_eq!(s.toplevels.len(), 1);
    assert!(s.ext_to_cosmic.is_empty());
    s.handle_event(ToplevelEvent::Closed { id: 9 }, true, true);
    assert!(s.toplevels.is_empty());
}

#[test]
fn repeated_focus_checks_agree() {
    let mut s = ToplevelState::new();
    for id in 0..4 {
        s.upsert_toplevel(id);
        s.set_app_id(id, format!("app{}", id));
        s.set_activated(id, true);
    }
    s.check_focus();
    let first = s.take_focus_change();
    assert!(first.is_some());
    let chosen = s.find_activated();
    s.check_focus();
    assert_eq!(s.take_focus_change(), None);
    assert_eq!(s.find_activated(), chosen);
}
