//! Theme resolution and GTK theme names.
use hyper_palette::theme::{dark_name, resolved_theme};

#[test]
fn conventional_gtk_theme_names() {
  assert!(dark_name("Adwaita-dark"));
  assert!(dark_name("Yaru-Dark"));
  assert!(!dark_name("Xfce"));
  assert!(!dark_name("Adwaita"));
}

#[test]
fn native_theme_arriving_after_window_creation_replaces_initial_default() {
  let before_window = resolved_theme(None, None, false);
  assert!(resolved_theme(None, Some(true), before_window));
}

#[test]
fn unknown_theme_does_not_reset_dark_and_reopening_tracks_both_directions() {
  assert!(resolved_theme(None, None, true));
  assert!(!resolved_theme(None, Some(false), true));
  assert!(resolved_theme(None, Some(true), false));
}

#[test]
fn explicit_theme_wins_over_system_events() {
  assert!(!resolved_theme(Some(false), Some(true), true));
  assert!(resolved_theme(Some(true), Some(false), false));
}
