# dds

The verified core of a Discord Rich Presence daemon for Wayland compositors
(Hyprland, COSMIC): it turns the focused window into a Discord activity.

- `src/` — the library, verified with Verus:
  - `rules.rs`: display names of window classes, large images, the class
    cache, titles cut to Discord's 128-character limit, `build_presence`;
  - `browser.rs`: browser tab titles cleaned (browser-name suffix removed,
    "New Tab" shown as the application, a bare URL as its host);
  - `settings.rs`: the configuration and the presence payload;
  - `toplevel.rs`: COSMIC toplevel state, the focus, protocol events;
  - `hyprland.rs`: Hyprland `activewindow>>` events;
  - `os_release.rs`: the system name from `/etc/os-release` text;
  - `rpc.rs`: the activity sent to Discord and the retry order;
  - `text.rs`: characters, Unicode whitespace, splitting, and the trusted
    uppercase mapping.
- `app/` — the Hyprland program: sockets, files, logging, Discord IPC.
- `tests/` — tests of the library.
